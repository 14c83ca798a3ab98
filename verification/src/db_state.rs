//! The in-memory database state that flushing changes: the immutable memtables that wait to be
//! flushed and the part of the manifest that describes level 0.
use std::collections::VecDeque;
use std::sync::Arc;

use crate::error::SlateDBError;
use vstd::prelude::*;

verus! {

/// Identifier of a sorted string table in object storage.
#[derive(Debug, Clone, Copy, PartialEq, Eq, Structural)]
pub enum SsTableId {
    /// A write-ahead-log table, by its WAL id.
    Wal(u64),
    /// A compacted table, by its ULID.
    Compacted(u128),
}

/// A table that was written to object storage.
#[derive(Debug, Clone, Copy, PartialEq, Eq, Structural)]
pub struct SsTableHandle {
    pub id: SsTableId,
}

/// A sequence number and the time at which it was written.
#[derive(Debug, Clone, Copy, PartialEq, Eq, Structural)]
pub struct SequencePoint {
    pub seq: u64,
    pub timestamp: i64,
}

/// Sequence points in the order in which they were recorded.
#[derive(Debug)]
pub struct SequenceTracker {
    points: Vec<SequencePoint>,
}

impl View for SequenceTracker {
    type V = Seq<SequencePoint>;

    closed spec fn view(&self) -> Seq<SequencePoint> {
        self.points@
    }
}

impl SequenceTracker {
    pub fn new(points: Vec<SequencePoint>) -> (tracker: Self)
        ensures
            tracker@ == points@,
    {
        SequenceTracker { points }
    }

    pub fn points(&self) -> (points: &Vec<SequencePoint>)
        ensures
            points@ == self@,
    {
        &self.points
    }

    /// Appends the points of another tracker.
    pub fn extend_from(&mut self, other: &SequenceTracker)
        ensures
            final(self)@ == old(self)@ + other@,
    {
        let ghost before = self@;
        let mut i: usize = 0;
        while i < other.points.len()
            invariant
                i <= other.points.len(),
                self@ == before + other@.take(i as int),
            decreases other.points.len() - i,
        {
            let point = other.points[i];
            self.points.push(point);
            assert(other@.take(i + 1) =~= other@.take(i as int).push(other@[i as int]));
            assert(self@ =~= before + other@.take(i + 1));
            i = i + 1;
        }
        assert(other@.take(i as int) =~= other@);
    }
}

/// A frozen memtable.
#[derive(Debug)]
pub struct ImmutableMemtable {
    /// Identity of the memtable: no two memtables of a database share it.
    pub id: u64,
    /// The newest WAL table that was flushed when the memtable was frozen.
    pub recent_flushed_wal_id: u64,
    /// The clock of the newest entry.
    pub last_tick: i64,
    /// The highest sequence number in the memtable, if it holds any entry.
    pub last_seq: Option<u64>,
    pub entry_num: u64,
    pub entries_size_in_bytes: u64,
    pub sequence_tracker: SequenceTracker,
}

/// A checkpoint that the manifest lists.
#[derive(Debug, Clone, Copy, PartialEq, Eq, Structural)]
pub struct Checkpoint {
    pub id: u128,
    pub manifest_id: u64,
}

/// What a checkpoint request asks for.
#[derive(Debug, Clone, Copy, PartialEq, Eq, Structural)]
pub struct CheckpointOptions {
    /// How long the checkpoint lives; without it, it does not expire.
    pub lifetime_ms: Option<u64>,
    /// The checkpoint to copy.
    pub source: Option<u128>,
}

impl Default for CheckpointOptions {
    fn default() -> (options: Self)
        ensures
            options == (CheckpointOptions { lifetime_ms: None, source: None }),
    {
        CheckpointOptions { lifetime_ms: None, source: None }
    }
}

/// What a checkpoint request is answered.
#[derive(Debug, Clone, Copy, PartialEq, Eq, Structural)]
pub struct CheckpointCreateResult {
    pub id: u128,
    pub manifest_id: u64,
}

/// The part of the manifest that flushing reads and writes.
#[derive(Debug)]
pub struct ManifestCore {
    /// Level 0, the newest table first.
    pub l0: VecDeque<SsTableHandle>,
    pub replay_after_wal_id: u64,
    pub last_l0_clock_tick: i64,
    pub last_l0_seq: u64,
    pub recent_snapshot_min_seq: u64,
    pub sequence_tracker: SequenceTracker,
    pub checkpoints: Vec<Checkpoint>,
}

/// `ManifestCore` as a mathematical value.
#[verifier::ext_equal]
pub ghost struct ManifestModel {
    pub l0: Seq<SsTableHandle>,
    pub replay_after_wal_id: u64,
    pub last_l0_clock_tick: i64,
    pub last_l0_seq: u64,
    pub recent_snapshot_min_seq: u64,
    pub tracker: Seq<SequencePoint>,
    pub checkpoints: Seq<Checkpoint>,
}

impl View for ManifestCore {
    type V = ManifestModel;

    open spec fn view(&self) -> ManifestModel {
        ManifestModel {
            l0: self.l0@,
            replay_after_wal_id: self.replay_after_wal_id,
            last_l0_clock_tick: self.last_l0_clock_tick,
            last_l0_seq: self.last_l0_seq,
            recent_snapshot_min_seq: self.recent_snapshot_min_seq,
            tracker: self.sequence_tracker@,
            checkpoints: self.checkpoints@,
        }
    }
}

/// The answers that belong to a list of new checkpoints.
pub open spec fn checkpoint_results(checkpoints: Seq<Checkpoint>) -> Seq<CheckpointCreateResult> {
    checkpoints.map_values(
        |c: Checkpoint| CheckpointCreateResult { id: c.id, manifest_id: c.manifest_id },
    )
}

impl ManifestCore {
    /// Adds new checkpoints to a manifest that is about to be written, and returns what their
    /// requests are to be answered once the write has succeeded.
    pub fn stage_checkpoints(&mut self, checkpoints: &Vec<Checkpoint>) -> (results: Vec<
        CheckpointCreateResult,
    >)
        ensures
            final(self)@ == (ManifestModel {
                checkpoints: old(self)@.checkpoints + checkpoints@,
                ..old(self)@
            }),
            results@ == checkpoint_results(checkpoints@),
    {
        let ghost before = self@;
        let mut results: Vec<CheckpointCreateResult> = Vec::new();
        let mut i: usize = 0;
        while i < checkpoints.len()
            invariant
                i <= checkpoints.len(),
                self@ == (ManifestModel {
                    checkpoints: before.checkpoints + checkpoints@.take(i as int),
                    ..before
                }),
                results@ == checkpoint_results(checkpoints@.take(i as int)),
            decreases checkpoints.len() - i,
        {
            let checkpoint = checkpoints[i];
            self.checkpoints.push(checkpoint);
            results.push(
                CheckpointCreateResult { id: checkpoint.id, manifest_id: checkpoint.manifest_id },
            );
            proof {
                let next = checkpoints@.take(i + 1);
                assert(next =~= checkpoints@.take(i as int).push(checkpoints@[i as int]));
                assert(self.checkpoints@ =~= before.checkpoints + next);
                assert(results@ =~= checkpoint_results(next));
            }
            i = i + 1;
        }
        assert(checkpoints@.take(i as int) =~= checkpoints@);
        results
    }
}

/// The database state that flushing changes.
#[derive(Debug)]
pub struct DbState {
    /// The frozen memtables, the newest first.
    pub imm_memtable: VecDeque<Arc<ImmutableMemtable>>,
    pub core: ManifestCore,
}

/// `DbState` as a mathematical value.
#[verifier::ext_equal]
pub ghost struct DbStateModel {
    pub imm_memtable: Seq<Arc<ImmutableMemtable>>,
    pub core: ManifestModel,
}

impl View for DbState {
    type V = DbStateModel;

    open spec fn view(&self) -> DbStateModel {
        DbStateModel { imm_memtable: self.imm_memtable@, core: self.core@ }
    }
}

/// A memtable whose table has been uploaded.
#[derive(Debug)]
pub struct FlushedTable {
    pub imm_memtable: Arc<ImmutableMemtable>,
    pub sst_handle: SsTableHandle,
    /// Highest sequence number present in the memtable.
    pub last_seq: u64,
}

/// The clock that the manifest holds once the tables before number `i` are in it.
pub open spec fn tick_before(core: ManifestModel, batch: Seq<FlushedTable>, i: int) -> i64 {
    if i <= 0 {
        core.last_l0_clock_tick
    } else {
        batch[i - 1].imm_memtable.last_tick
    }
}

/// The sequence number that the manifest holds once the tables before number `i` are in it.
pub open spec fn seq_before(core: ManifestModel, batch: Seq<FlushedTable>, i: int) -> u64 {
    if i <= 0 {
        core.last_l0_seq
    } else {
        batch[i - 1].last_seq
    }
}

/// Whether the clocks of the first `n` tables never go back, starting from the manifest's clock.
pub open spec fn ticks_in_order(core: ManifestModel, batch: Seq<FlushedTable>, n: int) -> bool {
    forall|i: int|
        0 <= i < n ==> #[trigger] tick_before(core, batch, i) <= batch[i].imm_memtable.last_tick
}

/// Whether the tables are those of the oldest frozen memtables, from the oldest on, and none of
/// them lowers the highest flushed sequence number.
pub open spec fn retirable(db: DbStateModel, batch: Seq<FlushedTable>) -> bool {
    &&& batch.len() <= db.imm_memtable.len()
    &&& forall|i: int|
        0 <= i < batch.len() ==> (#[trigger] batch[i]).imm_memtable.id
            == db.imm_memtable[db.imm_memtable.len() - 1 - i].id
    &&& forall|i: int|
        0 <= i < batch.len() && ticks_in_order(db.core, batch, i + 1) ==> batch[i].last_seq
            >= #[trigger] seq_before(db.core, batch, i)
}

/// The handles of the tables, the last one first.
pub open spec fn newest_first(batch: Seq<FlushedTable>) -> Seq<SsTableHandle> {
    Seq::new(batch.len(), |i: int| batch[batch.len() - 1 - i].sst_handle)
}

/// The sequence points of the tables, one table after the other.
pub open spec fn tracker_points(batch: Seq<FlushedTable>) -> Seq<SequencePoint>
    decreases batch.len(),
{
    if batch.len() == 0 {
        Seq::empty()
    } else {
        tracker_points(batch.drop_last()) + batch.last().imm_memtable.sequence_tracker@
    }
}

/// The database state once every table of the batch has taken its memtable's place.
pub open spec fn retired(
    db: DbStateModel,
    batch: Seq<FlushedTable>,
    min_active_seq: Option<u64>,
) -> DbStateModel {
    if batch.len() == 0 {
        db
    } else {
        let last = batch.last();
        DbStateModel {
            imm_memtable: db.imm_memtable.take(db.imm_memtable.len() - batch.len()),
            core: ManifestModel {
                l0: newest_first(batch) + db.core.l0,
                replay_after_wal_id: last.imm_memtable.recent_flushed_wal_id,
                last_l0_clock_tick: last.imm_memtable.last_tick,
                last_l0_seq: last.last_seq,
                recent_snapshot_min_seq: match min_active_seq {
                    Some(seq) => seq,
                    None => last.last_seq,
                },
                tracker: db.core.tracker + tracker_points(batch),
                checkpoints: db.core.checkpoints,
            },
        }
    }
}

/// The database state once a table with a clock that goes back has been refused: its memtable is
/// gone and its handle is in level 0, but nothing else of it is in the manifest.
pub open spec fn refused(db: DbStateModel, table: FlushedTable) -> DbStateModel {
    DbStateModel {
        imm_memtable: db.imm_memtable.drop_last(),
        core: ManifestModel {
            l0: seq![table.sst_handle] + db.core.l0,
            replay_after_wal_id: table.imm_memtable.recent_flushed_wal_id,
            ..db.core
        },
    }
}

impl DbState {
    /// Whether a batch can take the place of the oldest frozen memtables.
    pub fn can_retire(&self, batch: &Vec<FlushedTable>) -> (can: bool)
        ensures
            can == retirable(self@, batch@),
    {
        let n = self.imm_memtable.len();
        if batch.len() > n {
            return false;
        }
        let mut in_order: bool = true;
        let mut tick = self.core.last_l0_clock_tick;
        let mut seq = self.core.last_l0_seq;
        let mut i: usize = 0;
        while i < batch.len()
            invariant
                i <= batch.len() <= n,
                n == self.imm_memtable@.len(),
                in_order == ticks_in_order(self@.core, batch@, i as int),
                tick == tick_before(self@.core, batch@, i as int),
                seq == seq_before(self@.core, batch@, i as int),
                forall|j: int|
                    0 <= j < i ==> (#[trigger] batch@[j]).imm_memtable.id
                        == self@.imm_memtable[n - 1 - j].id,
                forall|j: int|
                    0 <= j < i && ticks_in_order(self@.core, batch@, j + 1) ==> batch@[j].last_seq
                        >= #[trigger] seq_before(self@.core, batch@, j),
            decreases batch.len() - i,
        {
            let table = &batch[i];
            if table.imm_memtable.id != self.imm_memtable[n - 1 - i].id {
                return false;
            }
            if table.imm_memtable.last_tick < tick {
                assert(!ticks_in_order(self@.core, batch@, i + 1));
                in_order = false;
            }
            assert(in_order == ticks_in_order(self@.core, batch@, i + 1)) by {
                if ticks_in_order(self@.core, batch@, i + 1) {
                    assert(ticks_in_order(self@.core, batch@, i as int));
                }
            }
            if in_order && table.last_seq < seq {
                assert(batch@[i as int].last_seq < seq_before(self@.core, batch@, i as int));
                return false;
            }
            tick = table.imm_memtable.last_tick;
            seq = table.last_seq;
            i = i + 1;
        }
        true
    }

    /// Replaces the oldest frozen memtables by their uploaded tables, in order.
    ///
    /// A table whose clock is behind the manifest's clock ends the batch with an error.
    pub fn retire(&mut self, batch: &Vec<FlushedTable>, min_active_seq: Option<u64>) -> (result:
        Result<(), SlateDBError>)
        requires
            retirable(old(self)@, batch@),
        ensures
            result is Ok <==> ticks_in_order(old(self)@.core, batch@, batch@.len() as int),
            result is Ok ==> final(self)@ == retired(old(self)@, batch@, min_active_seq),
            result matches Err(error) ==> exists|i: int|
                {
                    &&& 0 <= i < batch@.len()
                    &&& ticks_in_order(old(self)@.core, batch@, i)
                    &&& batch@[i].imm_memtable.last_tick < #[trigger] tick_before(
                        old(self)@.core,
                        batch@,
                        i,
                    )
                    &&& error == SlateDBError::InvalidClockTick {
                        last_tick: tick_before(old(self)@.core, batch@, i),
                        next_tick: batch@[i].imm_memtable.last_tick,
                    }
                    &&& final(self)@ == refused(
                        retired(old(self)@, batch@.take(i), min_active_seq),
                        batch@[i],
                    )
                },
    {
        let ghost before = self@;
        let mut i: usize = 0;
        assert(batch@.take(0) =~= Seq::<FlushedTable>::empty());
        while i < batch.len()
            invariant
                i <= batch.len(),
                before == old(self)@,
                retirable(before, batch@),
                ticks_in_order(before.core, batch@, i as int),
                self@ == retired(before, batch@.take(i as int), min_active_seq),
            decreases batch.len() - i,
        {
            let table = &batch[i];
            let ghost done = batch@.take(i as int);
            let ghost next = batch@.take(i + 1);
            let ghost here = self@;
            proof {
                if i > 0 {
                    assert(done.last() == batch@[i - 1]);
                }
                assert(next.drop_last() =~= done);
                assert(next.last() == batch@[i as int]);
                assert(here.imm_memtable =~= before.imm_memtable.take(
                    before.imm_memtable.len() - i,
                ));
                assert(here.core.last_l0_clock_tick == tick_before(before.core, batch@, i as int));
                assert(here.core.last_l0_seq == seq_before(before.core, batch@, i as int));
                assert(batch@[i as int].imm_memtable.id == before.imm_memtable[before.imm_memtable.len() - 1 - i].id);
            }
            let _popped = self.imm_memtable.pop_back();
            self.core.l0.push_front(table.sst_handle);
            self.core.replay_after_wal_id = table.imm_memtable.recent_flushed_wal_id;
            let memtable_tick = table.imm_memtable.last_tick;
            if memtable_tick > self.core.last_l0_clock_tick {
                self.core.last_l0_clock_tick = memtable_tick;
            }
            if self.core.last_l0_clock_tick != memtable_tick {
                proof {
                    assert(self@.imm_memtable =~= here.imm_memtable.drop_last());
                    assert(self@ =~= refused(here, batch@[i as int]));
                    assert(!ticks_in_order(before.core, batch@, batch@.len() as int));
                }
                return Err(
                    SlateDBError::InvalidClockTick {
                        last_tick: self.core.last_l0_clock_tick,
                        next_tick: memtable_tick,
                    },
                );
            }
            self.core.last_l0_seq = table.last_seq;
            self.core.recent_snapshot_min_seq = match min_active_seq {
                Some(seq) => seq,
                None => table.last_seq,
            };
            self.core.sequence_tracker.extend_from(&table.imm_memtable.sequence_tracker);
            proof {
                assert(self@.core.l0 =~= newest_first(next) + before.core.l0);
                assert(self@.core.tracker =~= before.core.tracker + tracker_points(next));
                assert(self@.imm_memtable =~= before.imm_memtable.take(
                    before.imm_memtable.len() - (i + 1),
                ));
                assert(self@ =~= retired(before, next, min_active_seq));
                assert(ticks_in_order(before.core, batch@, i + 1));
            }
            i = i + 1;
        }
        assert(batch@.take(i as int) =~= batch@);
        Ok(())
    }
}

/// What a memtable that is still in memory is told when nothing is flushed any more.
#[derive(Debug)]
pub enum ShutdownNotice {
    /// The active memtable will not be durable.
    ActiveNotDurable(SlateDBError),
    /// The memtable will not leave the queue of frozen memtables.
    NotFlushedToL0(Arc<ImmutableMemtable>, SlateDBError),
    /// The memtable will not be durable.
    NotDurable(Arc<ImmutableMemtable>, SlateDBError),
}

/// What the memtables that are still in memory are told when nothing is flushed any more: first the
/// active one, and then both notices for each frozen one, from the newest on.
pub open spec fn shutdown_notices_of(
    frozen: Seq<Arc<ImmutableMemtable>>,
    error: SlateDBError,
) -> Seq<ShutdownNotice> {
    Seq::new(
        1 + 2 * frozen.len(),
        |i: int|
            if i == 0 {
                ShutdownNotice::ActiveNotDurable(error)
            } else if i % 2 == 1 {
                ShutdownNotice::NotFlushedToL0(frozen[i / 2], error)
            } else {
                ShutdownNotice::NotDurable(frozen[i / 2 - 1], error)
            },
    )
}

/// What the memtables that are still in memory are told when nothing is flushed any more. `frozen`
/// holds the frozen memtables, the newest first.
pub fn shutdown_notices(frozen: &VecDeque<Arc<ImmutableMemtable>>, error: SlateDBError) -> (notices:
    Vec<ShutdownNotice>)
    ensures
        notices@ == shutdown_notices_of(frozen@, error),
{
    let mut notices: Vec<ShutdownNotice> = Vec::new();
    notices.push(ShutdownNotice::ActiveNotDurable(error));
    let mut i: usize = 0;
    assert(notices@ =~= shutdown_notices_of(frozen@.take(0), error));
    while i < frozen.len()
        invariant
            i <= frozen.len(),
            notices@ == shutdown_notices_of(frozen@.take(i as int), error),
        decreases frozen.len() - i,
    {
        notices.push(ShutdownNotice::NotFlushedToL0(Arc::clone(&frozen[i]), error));
        notices.push(ShutdownNotice::NotDurable(Arc::clone(&frozen[i]), error));
        assert(notices@ =~= shutdown_notices_of(frozen@.take(i + 1), error));
        i = i + 1;
    }
    assert(frozen@.take(i as int) =~= frozen@);
    notices
}

/// Nobody who waits for a memtable is forgotten at the end: the active memtable is told that it will
/// not be durable, and every frozen one that it will neither be flushed nor be durable.
pub proof fn law_every_memtable_is_told(
    frozen: Seq<Arc<ImmutableMemtable>>,
    error: SlateDBError,
    i: int,
)
    requires
        0 <= i < frozen.len(),
    ensures
        shutdown_notices_of(frozen, error).contains(ShutdownNotice::ActiveNotDurable(error)),
        shutdown_notices_of(frozen, error).contains(
            ShutdownNotice::NotFlushedToL0(frozen[i], error),
        ),
        shutdown_notices_of(frozen, error).contains(ShutdownNotice::NotDurable(frozen[i], error)),
{
    let notices = shutdown_notices_of(frozen, error);
    assert(notices[0] == ShutdownNotice::ActiveNotDurable(error));
    assert(notices[1 + 2 * i] == ShutdownNotice::NotFlushedToL0(frozen[i], error));
    assert(notices[2 + 2 * i] == ShutdownNotice::NotDurable(frozen[i], error));
}

proof fn lemma_tracker_points_add(a: Seq<FlushedTable>, b: Seq<FlushedTable>)
    ensures
        tracker_points(a + b) == tracker_points(a) + tracker_points(b),
    decreases b.len(),
{
    if b.len() == 0 {
        assert(a + b =~= a);
        assert(tracker_points(a) + tracker_points(b) =~= tracker_points(a));
    } else {
        lemma_tracker_points_add(a, b.drop_last());
        assert((a + b).drop_last() =~= a + b.drop_last());
        assert((a + b).last() == b.last());
        assert(tracker_points(a + b) =~= tracker_points(a) + tracker_points(b));
    }
}

/// It does not matter how uploads are cut into batches: retiring one batch after the other leads to
/// the same state as retiring both at once.
pub proof fn law_batches_compose(
    db: DbStateModel,
    first: Seq<FlushedTable>,
    second: Seq<FlushedTable>,
    min_active_seq: Option<u64>,
)
    requires
        first.len() + second.len() <= db.imm_memtable.len(),
    ensures
        retired(retired(db, first, min_active_seq), second, min_active_seq) == retired(
            db,
            first + second,
            min_active_seq,
        ),
{
    let both = first + second;
    let middle = retired(db, first, min_active_seq);
    if first.len() == 0 {
        assert(both =~= second);
    } else if second.len() == 0 {
        assert(both =~= first);
    } else {
        let after = retired(middle, second, min_active_seq);
        let once = retired(db, both, min_active_seq);
        assert(both.last() == second.last());
        lemma_tracker_points_add(first, second);
        assert(after.core.l0 =~= once.core.l0);
        assert(after.core.tracker =~= once.core.tracker);
        assert(after.imm_memtable =~= once.imm_memtable);
        assert(after =~= once);
    }
}

/// What the manifest has reached never goes back: retiring a batch lowers neither the highest
/// flushed sequence number nor the clock.
pub proof fn law_manifest_never_goes_back(
    db: DbStateModel,
    batch: Seq<FlushedTable>,
    min_active_seq: Option<u64>,
)
    requires
        retirable(db, batch),
        ticks_in_order(db.core, batch, batch.len() as int),
    ensures
        retired(db, batch, min_active_seq).core.last_l0_seq >= db.core.last_l0_seq,
        retired(db, batch, min_active_seq).core.last_l0_clock_tick >= db.core.last_l0_clock_tick,
{
    lemma_never_goes_back(db, batch, batch.len() as int);
}

proof fn lemma_never_goes_back(db: DbStateModel, batch: Seq<FlushedTable>, n: int)
    requires
        retirable(db, batch),
        0 <= n <= batch.len(),
        ticks_in_order(db.core, batch, batch.len() as int),
    ensures
        seq_before(db.core, batch, n) >= db.core.last_l0_seq,
        tick_before(db.core, batch, n) >= db.core.last_l0_clock_tick,
    decreases n,
{
    if n > 0 {
        lemma_never_goes_back(db, batch, n - 1);
        assert(ticks_in_order(db.core, batch, n)) by {
            assert forall|i: int| 0 <= i < n implies #[trigger] tick_before(db.core, batch, i)
                <= batch[i].imm_memtable.last_tick by {}
        }
        assert(tick_before(db.core, batch, n - 1) <= batch[n - 1].imm_memtable.last_tick);
        assert(batch[n - 1].last_seq >= seq_before(db.core, batch, n - 1));
    }
}

/// Every checkpoint is answered with its own id and manifest.
pub proof fn law_checkpoints_are_answered_one_by_one(checkpoints: Seq<Checkpoint>, i: int)
    ensures
        checkpoint_results(checkpoints).len() == checkpoints.len(),
        0 <= i < checkpoints.len() ==> checkpoint_results(checkpoints)[i].id == checkpoints[i].id,
        0 <= i < checkpoints.len() ==> checkpoint_results(checkpoints)[i].manifest_id
            == checkpoints[i].manifest_id,
{
}

/// What retiring a batch leaves behind. The oldest memtables leave the queue, as many as the batch
/// has tables, and the others stay. The tables come before all others in level 0, the last one
/// first. Everything else that the manifest records of level 0 is what the last table brings, except
/// for the snapshot number if a transaction is active.
pub proof fn law_retired_batch_is_recorded(
    db: DbStateModel,
    batch: Seq<FlushedTable>,
    min_active_seq: Option<u64>,
    i: int,
)
    requires
        0 < batch.len() <= db.imm_memtable.len(),
    ensures
        ({
            let after = retired(db, batch, min_active_seq);
            let last = batch[batch.len() - 1];
            &&& after.imm_memtable.len() + batch.len() == db.imm_memtable.len()
            &&& 0 <= i < after.imm_memtable.len() ==> after.imm_memtable[i] == db.imm_memtable[i]
            &&& after.core.l0.len() == db.core.l0.len() + batch.len()
            &&& 0 <= i < batch.len() ==> after.core.l0[batch.len() - 1 - i] == batch[i].sst_handle
            &&& 0 <= i < db.core.l0.len() ==> after.core.l0[batch.len() + i] == db.core.l0[i]
            &&& after.core.replay_after_wal_id == last.imm_memtable.recent_flushed_wal_id
            &&& after.core.last_l0_clock_tick == last.imm_memtable.last_tick
            &&& after.core.last_l0_seq == last.last_seq
            &&& min_active_seq matches Some(seq) ==> after.core.recent_snapshot_min_seq == seq
            &&& min_active_seq is None ==> after.core.recent_snapshot_min_seq == last.last_seq
            &&& after.core.checkpoints == db.core.checkpoints
        }),
        retired(db, Seq::empty(), min_active_seq) == db,
{
}

/// Retiring one table adds the sequence points of its memtable behind those of the manifest.
pub proof fn law_retiring_keeps_sequence_points(
    db: DbStateModel,
    table: FlushedTable,
    min_active_seq: Option<u64>,
)
    ensures
        retired(db, seq![table], min_active_seq).core.tracker == db.core.tracker
            + table.imm_memtable.sequence_tracker@,
{
    reveal_with_fuel(tracker_points, 2);
    assert(seq![table].drop_last() =~= Seq::<FlushedTable>::empty());
    assert(tracker_points(seq![table]) =~= table.imm_memtable.sequence_tracker@);
}

/// A table whose clock goes back takes its memtable out of the queue and is in level 0, and the WAL
/// is replayed from behind its memtable; the rest of the manifest stays as it was.
pub proof fn law_refused_table_is_in_level_0(db: DbStateModel, table: FlushedTable, i: int)
    requires
        db.imm_memtable.len() > 0,
    ensures
        ({
            let after = refused(db, table);
            &&& after.imm_memtable.len() + 1 == db.imm_memtable.len()
            &&& 0 <= i < after.imm_memtable.len() ==> after.imm_memtable[i] == db.imm_memtable[i]
            &&& after.core.l0.len() == db.core.l0.len() + 1
            &&& after.core.l0[0] == table.sst_handle
            &&& 0 <= i < db.core.l0.len() ==> after.core.l0[i + 1] == db.core.l0[i]
            &&& after.core.replay_after_wal_id == table.imm_memtable.recent_flushed_wal_id
            &&& after.core.last_l0_clock_tick == db.core.last_l0_clock_tick
            &&& after.core.last_l0_seq == db.core.last_l0_seq
            &&& after.core.recent_snapshot_min_seq == db.core.recent_snapshot_min_seq
            &&& after.core.tracker == db.core.tracker
            &&& after.core.checkpoints == db.core.checkpoints
        }),
{
}

/// A batch keeps the clock if the first table is not behind the manifest and none is behind the one
/// before it.
pub proof fn law_clocks_in_order(core: ManifestModel, batch: Seq<FlushedTable>, n: int)
    requires
        0 <= n <= batch.len(),
    ensures
        ticks_in_order(core, batch, n) <==> (n > 0 ==> core.last_l0_clock_tick
            <= batch[0].imm_memtable.last_tick) && (forall|i: int, j: int|
            0 <= i < n && 0 <= j < n && j == i + 1 ==> (#[trigger] batch[i]).imm_memtable.last_tick
                <= (#[trigger] batch[j]).imm_memtable.last_tick),
        n > 0 ==> tick_before(core, batch, 0) == core.last_l0_clock_tick,
        forall|i: int|
            0 < i <= batch.len() ==> #[trigger] tick_before(core, batch, i) == batch[i
                - 1].imm_memtable.last_tick,
{
    if ticks_in_order(core, batch, n) {
        if n > 0 {
            assert(tick_before(core, batch, 0) <= batch[0].imm_memtable.last_tick);
        }
        assert forall|i: int, j: int| 0 <= i < n && 0 <= j < n && j == i + 1 implies (
        #[trigger] batch[i]).imm_memtable.last_tick <= (
        #[trigger] batch[j]).imm_memtable.last_tick by {
            assert(tick_before(core, batch, j) <= batch[j].imm_memtable.last_tick);
        }
    }
    if (n > 0 ==> core.last_l0_clock_tick <= batch[0].imm_memtable.last_tick) && (forall|
        i: int,
        j: int,
    |
        0 <= i < n && 0 <= j < n && j == i + 1 ==> (#[trigger] batch[i]).imm_memtable.last_tick <= (
        #[trigger] batch[j]).imm_memtable.last_tick) {
        assert forall|i: int| 0 <= i < n implies #[trigger] tick_before(core, batch, i)
            <= batch[i].imm_memtable.last_tick by {
            if i > 0 {
                assert(batch[i - 1].imm_memtable.last_tick <= batch[i].imm_memtable.last_tick);
            }
        }
    }
}

/// A batch with clocks in order can be retired exactly if its tables are those of the oldest frozen
/// memtables, from the oldest on, and no sequence number is below the one before it.
pub proof fn law_batches_that_can_be_retired(db: DbStateModel, batch: Seq<FlushedTable>)
    requires
        ticks_in_order(db.core, batch, batch.len() as int),
    ensures
        retirable(db, batch) <==> {
            &&& batch.len() <= db.imm_memtable.len()
            &&& forall|i: int|
                0 <= i < batch.len() ==> (#[trigger] batch[i]).imm_memtable.id
                    == db.imm_memtable[db.imm_memtable.len() - 1 - i].id
            &&& batch.len() > 0 ==> batch[0].last_seq >= db.core.last_l0_seq
            &&& forall|i: int, j: int|
                0 <= i < batch.len() && 0 <= j < batch.len() && j == i + 1 ==> (
                #[trigger] batch[j]).last_seq >= (#[trigger] batch[i]).last_seq
        },
{
    assert forall|n: int| 0 <= n <= batch.len() implies #[trigger] ticks_in_order(
        db.core,
        batch,
        n,
    ) by {
        assert forall|i: int| 0 <= i < n implies #[trigger] tick_before(db.core, batch, i)
            <= batch[i].imm_memtable.last_tick by {}
    }
    if retirable(db, batch) {
        if batch.len() > 0 {
            assert(ticks_in_order(db.core, batch, 1));
            assert(batch[0].last_seq >= seq_before(db.core, batch, 0));
        }
        assert forall|i: int, j: int|
            0 <= i < batch.len() && 0 <= j < batch.len() && j == i + 1 implies (
        #[trigger] batch[j]).last_seq >= (#[trigger] batch[i]).last_seq by {
            assert(ticks_in_order(db.core, batch, j + 1));
            assert(batch[j].last_seq >= seq_before(db.core, batch, j));
        }
    }
    if batch.len() > 0 && batch[0].last_seq >= db.core.last_l0_seq && (forall|i: int, j: int|
        0 <= i < batch.len() && 0 <= j < batch.len() && j == i + 1 ==> (
        #[trigger] batch[j]).last_seq >= (#[trigger] batch[i]).last_seq) {
        assert forall|i: int|
            0 <= i < batch.len() && ticks_in_order(db.core, batch, i + 1) implies batch[i].last_seq
            >= #[trigger] seq_before(db.core, batch, i) by {
            if i > 0 {
                assert(batch[i].last_seq >= batch[i - 1].last_seq);
            }
        }
    }
}

/// The notices at the end, one by one: the active memtable comes first, and then each frozen one is
/// told twice, from the newest on, with the same error. Nothing else is told.
pub proof fn law_notices_come_in_order(
    frozen: Seq<Arc<ImmutableMemtable>>,
    error: SlateDBError,
    i: int,
)
    requires
        0 <= i < frozen.len(),
    ensures
        shutdown_notices_of(frozen, error).len() == 2 * frozen.len() + 1,
        shutdown_notices_of(frozen, error)[0] == ShutdownNotice::ActiveNotDurable(error),
        shutdown_notices_of(frozen, error)[2 * i + 1] == ShutdownNotice::NotFlushedToL0(
            frozen[i],
            error,
        ),
        shutdown_notices_of(frozen, error)[2 * i + 2] == ShutdownNotice::NotDurable(
            frozen[i],
            error,
        ),
{
}

} // verus!
