//! Flushing frozen memtables to level 0 with a bounded pipeline, and the task around it.
//!
//! One run of the pipeline builds up to two tables at a time and uploads one, and commits uploads
//! strictly in the order in which their memtables were frozen. [`FlushPipeline`] decides; the
//! building, uploading and manifest writing that it asks for are done by its caller, who reports
//! back what came of them.
use std::collections::VecDeque;
use std::sync::Arc;

use crate::db_state::{
    shutdown_notices, CheckpointCreateResult, CheckpointOptions, DbState, FlushedTable,
    ImmutableMemtable, ShutdownNotice, SsTableHandle, SsTableId,
};
use crate::db_stats::DbStats;
use crate::error::SlateDBError;
use crate::memtable_flusher::ReplyHandle;
use crate::stats::{Gauge, StatCounter, StatEntry, StatRegistry, StatValue};
use vstd::prelude::*;

verus! {

/// The name of the task that flushes memtables.
pub const MEMTABLE_FLUSHER_TASK_NAME: &'static str = "memtable_writer";

/// How many tables are built at the same time.
pub const MAX_BUILD_IN_FLIGHT: usize = 2;

/// How many tables are uploaded at the same time.
pub const MAX_UPLOAD_IN_FLIGHT: usize = 1;

/// How long the parts of one flush took, in milliseconds.
#[derive(Debug, Clone, Copy, PartialEq, Eq, Structural)]
pub struct FlushImmTableStats {
    pub iter_setup_ms: u64,
    pub row_loop_ms: u64,
    pub finish_block_ms: u64,
    pub footer_ms: u64,
    pub put_ms: u64,
    pub cache_ms: u64,
}

/// A flush that was started and is not uploaded.
#[derive(Debug)]
pub struct PendingBuiltFlush {
    /// The place of the flush in the order of commits.
    pub flush_seq: u64,
    pub imm_memtable: Arc<ImmutableMemtable>,
    pub sst_id: SsTableId,
    /// When the flush started, in milliseconds of the caller's clock.
    pub flush_start_ms: u64,
    pub wal_wait_elapsed_ms: u64,
}

/// What is known of a flush when its table may be built.
#[derive(Debug, Clone, Copy, PartialEq, Eq, Structural)]
pub struct FlushStart {
    /// The id that the table gets.
    pub sst_id: SsTableId,
    /// When the flush started, in milliseconds of the caller's clock.
    pub flush_start_ms: u64,
    /// How long the WAL was waited for.
    pub wal_wait_elapsed_ms: u64,
    /// The WAL is durable through this sequence number.
    pub last_remote_persisted_seq: u64,
}

/// What came of an upload.
#[derive(Debug, Clone, Copy, PartialEq, Eq, Structural)]
pub struct TableUpload {
    pub sst_handle: SsTableHandle,
    pub flush_stats: FlushImmTableStats,
    pub output_bytes: u64,
}

/// A memtable whose table has been uploaded.
#[derive(Debug)]
pub struct ReadyForCommit {
    /// The place of the flush in the order of commits.
    pub flush_seq: u64,
    pub imm_memtable: Arc<ImmutableMemtable>,
    pub sst_id: SsTableId,
    pub sst_handle: SsTableHandle,
    pub output_bytes: u64,
    pub flush_stats: FlushImmTableStats,
    /// When the flush started, in milliseconds of the caller's clock.
    pub flush_start_ms: u64,
    pub wal_wait_elapsed_ms: u64,
    pub last_seq: u64,
}

/// How far a flush has come.
#[derive(Debug)]
pub enum FlushSlot {
    Building(PendingBuiltFlush),
    Built(PendingBuiltFlush),
    Uploading(PendingBuiltFlush),
    Uploaded(ReadyForCommit),
}

/// What has to be told to others, in this order, before the next action.
#[derive(Debug)]
pub enum PipelineEffect {
    /// The memtable left the queue of frozen memtables.
    NotifyFlushedToL0(Arc<ImmutableMemtable>),
    /// The memtable's table is in the durable manifest, or will never be.
    NotifyDurable(Arc<ImmutableMemtable>, Result<(), SlateDBError>),
    /// Everything up to this sequence number is durable.
    AdvanceDurableSeq(u64),
    /// Delete the table as far as possible.
    DeleteSst(SsTableId),
}

/// What has to be done next.
#[derive(Debug)]
pub enum PipelineAction {
    /// Call `next`.
    Proceed,
    /// Make the WAL durable if asked to, then call `prepared`.
    Prepare { imm_memtable: Arc<ImmutableMemtable>, flush_wals: bool },
    /// Start to build a table, then call `next`.
    Build { flush_seq: u64, imm_memtable: Arc<ImmutableMemtable> },
    /// Start to upload a table, then call `next`.
    Upload { flush_seq: u64, imm_memtable: Arc<ImmutableMemtable>, sst_id: SsTableId },
    /// Wait until a table is built (`built`) or uploaded (`uploaded`) or a task has failed
    /// (`failed`).
    Wait,
    /// Put the tables in the place of their memtables, then call `published`.
    Publish(Vec<FlushedTable>),
    /// Write the local manifest, then call `written`.
    WriteManifest,
    /// Read the remote manifest and merge it, then call `loaded`.
    LoadManifest,
    /// The run is over.
    Exit(Result<(), SlateDBError>),
}

/// What one call of the pipeline asks for.
#[derive(Debug)]
pub struct PipelineStep {
    pub effects: Vec<PipelineEffect>,
    pub action: PipelineAction,
}

/// What the pipeline waits for.
#[derive(Debug, Clone, Copy, PartialEq, Eq, Structural)]
pub enum PipelinePhase {
    /// A round begins.
    Starting,
    /// Tables may be started to build.
    Building,
    /// The WAL of one memtable is being made durable.
    Preparing,
    /// Uploads may be committed.
    Committing,
    /// All tasks that can run do run.
    Waiting,
    /// A batch is being put into the local state.
    Publishing,
    /// The manifest is being written with a batch in it.
    WritingManifest,
    /// The manifest is being reloaded because another version got in first.
    ReloadingManifest,
    /// The manifest is being reloaded after the writer was fenced.
    ReloadingFenced,
    Done,
}

/// The memtable of a flush.
pub open spec fn memtable_of(slot: FlushSlot) -> Arc<ImmutableMemtable> {
    match slot {
        FlushSlot::Building(pending) | FlushSlot::Built(pending) | FlushSlot::Uploading(
            pending,
        ) => pending.imm_memtable,
        FlushSlot::Uploaded(ready) => ready.imm_memtable,
    }
}

/// The place of a flush in the order of commits.
pub open spec fn place_of(slot: FlushSlot) -> u64 {
    match slot {
        FlushSlot::Building(pending) | FlushSlot::Built(pending) | FlushSlot::Uploading(
            pending,
        ) => pending.flush_seq,
        FlushSlot::Uploaded(ready) => ready.flush_seq,
    }
}

/// What is recorded of a flush that starts.
pub open spec fn started_flush(
    flush_seq: u64,
    imm_memtable: Arc<ImmutableMemtable>,
    start: FlushStart,
) -> PendingBuiltFlush {
    PendingBuiltFlush {
        flush_seq,
        imm_memtable,
        sst_id: start.sst_id,
        flush_start_ms: start.flush_start_ms,
        wal_wait_elapsed_ms: start.wal_wait_elapsed_ms,
    }
}

/// What is recorded of a flush whose table was uploaded. Its sequence number is that of its
/// memtable.
pub open spec fn uploaded_flush(pending: PendingBuiltFlush, upload: TableUpload) -> ReadyForCommit {
    ReadyForCommit {
        flush_seq: pending.flush_seq,
        imm_memtable: pending.imm_memtable,
        sst_id: pending.sst_id,
        sst_handle: upload.sst_handle,
        output_bytes: upload.output_bytes,
        flush_stats: upload.flush_stats,
        flush_start_ms: pending.flush_start_ms,
        wal_wait_elapsed_ms: pending.wal_wait_elapsed_ms,
        last_seq: pending.imm_memtable.last_seq->0,
    }
}

/// The number of tables that are being built.
pub open spec fn count_building(slots: Seq<FlushSlot>) -> nat
    decreases slots.len(),
{
    if slots.len() == 0 {
        0
    } else {
        count_building(slots.drop_last()) + (if slots.last() is Building {
            1nat
        } else {
            0nat
        })
    }
}

/// The number of tables that are being uploaded.
pub open spec fn count_uploading(slots: Seq<FlushSlot>) -> nat
    decreases slots.len(),
{
    if slots.len() == 0 {
        0
    } else {
        count_uploading(slots.drop_last()) + (if slots.last() is Uploading {
            1nat
        } else {
            0nat
        })
    }
}

/// The number of tables that are built and not being uploaded.
pub open spec fn count_built(slots: Seq<FlushSlot>) -> nat
    decreases slots.len(),
{
    if slots.len() == 0 {
        0
    } else {
        count_built(slots.drop_last()) + (if slots.last() is Built {
            1nat
        } else {
            0nat
        })
    }
}

/// The number of tables that are uploaded and not committed.
pub open spec fn count_uploaded(slots: Seq<FlushSlot>) -> nat
    decreases slots.len(),
{
    if slots.len() == 0 {
        0
    } else {
        count_uploaded(slots.drop_last()) + (if slots.last() is Uploaded {
            1nat
        } else {
            0nat
        })
    }
}

/// The number of flushes before the first one whose table is built and not being uploaded.
pub open spec fn first_built(slots: Seq<FlushSlot>) -> nat
    decreases slots.len(),
{
    if slots.len() == 0 || slots[0] is Built {
        0
    } else {
        1 + first_built(slots.drop_first())
    }
}

/// The number of uploads that can be committed: those before the first flush that is not uploaded.
pub open spec fn uploaded_prefix(slots: Seq<FlushSlot>) -> nat
    decreases slots.len(),
{
    if slots.len() == 0 || !(slots[0] is Uploaded) {
        0
    } else {
        1 + uploaded_prefix(slots.drop_first())
    }
}

/// The uploads in these slots.
pub open spec fn uploads_in(slots: Seq<FlushSlot>) -> Seq<ReadyForCommit> {
    slots.map_values(|slot: FlushSlot| slot->Uploaded_0)
}

/// The tables of a batch.
pub open spec fn tables_of(batch: Seq<ReadyForCommit>) -> Seq<FlushedTable> {
    batch.map_values(
        |ready: ReadyForCommit|
            FlushedTable {
                imm_memtable: ready.imm_memtable,
                sst_handle: ready.sst_handle,
                last_seq: ready.last_seq,
            },
    )
}

/// Every memtable of a batch has left the queue of frozen memtables.
pub open spec fn flushed_effects(batch: Seq<ReadyForCommit>) -> Seq<PipelineEffect> {
    batch.map_values(|ready: ReadyForCommit| PipelineEffect::NotifyFlushedToL0(ready.imm_memtable))
}

/// Every memtable of a batch is durable: each is told so, and then its sequence number advances.
pub open spec fn durable_effects(batch: Seq<ReadyForCommit>) -> Seq<PipelineEffect>
    decreases batch.len(),
{
    if batch.len() == 0 {
        Seq::empty()
    } else {
        durable_effects(batch.drop_last()).push(
            PipelineEffect::NotifyDurable(batch.last().imm_memtable, Ok(())),
        ).push(PipelineEffect::AdvanceDurableSeq(batch.last().last_seq))
    }
}

/// No memtable of a batch will be durable; a fenced writer also deletes the tables.
pub open spec fn failed_effects(batch: Seq<ReadyForCommit>, error: SlateDBError) -> Seq<
    PipelineEffect,
>
    decreases batch.len(),
{
    if batch.len() == 0 {
        Seq::empty()
    } else {
        let earlier = failed_effects(batch.drop_last(), error);
        let deleted = if error is Fenced {
            earlier.push(PipelineEffect::DeleteSst(batch.last().sst_id))
        } else {
            earlier
        };
        deleted.push(PipelineEffect::NotifyDurable(batch.last().imm_memtable, Err(error)))
    }
}

/// The statistics after a value was added to a counter and shown by a gauge.
pub open spec fn observed(
    entries: Seq<StatEntry>,
    counter: StatCounter,
    gauge: Gauge,
    value: u64,
) -> Seq<StatEntry> {
    crate::stats::with_value(
        crate::stats::with_added(entries, counter@, value),
        gauge@,
        StatValue::GaugeU64(value),
    )
}

/// Adds a value to a counter and shows it by a gauge.
fn observe(counter: &StatCounter, gauge: &Gauge, registry: &mut StatRegistry, value: u64)
    requires
        crate::stats::is_kind(
            crate::stats::kinds(old(registry)@),
            counter@,
            crate::stats::StatKind::Counter,
        ),
        crate::stats::is_kind(
            crate::stats::kinds(old(registry)@),
            gauge@,
            crate::stats::StatKind::GaugeU64,
        ),
    ensures
        final(registry)@ == observed(old(registry)@, *counter, *gauge, value),
        crate::stats::kinds(final(registry)@) == crate::stats::kinds(old(registry)@),
{
    broadcast use crate::stats::lemma_kinds_kept;

    let ghost kinds = crate::stats::kinds(registry@);
    assert(kinds[counter@] == crate::stats::kind_of(registry@[counter@].value));
    counter.add(registry, value);
    assert(kinds[gauge@] == crate::stats::kind_of(registry@[gauge@].value));
    gauge.set(registry, value);
}

/// The statistics once the number of flushes in each stage is shown.
pub open spec fn stages_shown(entries: Seq<StatEntry>, stats: DbStats, slots: Seq<FlushSlot>) -> Seq<
    StatEntry,
> {
    let entries = crate::stats::with_value(
        entries,
        stats.l0_flush_build_inflight@,
        StatValue::GaugeI64(count_building(slots) as i64),
    );
    let entries = crate::stats::with_value(
        entries,
        stats.l0_flush_upload_inflight@,
        StatValue::GaugeI64(count_uploading(slots) as i64),
    );
    let entries = crate::stats::with_value(
        entries,
        stats.l0_flush_built_ready@,
        StatValue::GaugeI64(count_built(slots) as i64),
    );
    crate::stats::with_value(
        entries,
        stats.l0_flush_uploaded_ready@,
        StatValue::GaugeI64(count_uploaded(slots) as i64),
    )
}

/// The statistics once the size of the batch whose turn has come is shown, if there is one.
pub open spec fn batch_size_shown(
    entries: Seq<StatEntry>,
    stats: DbStats,
    slots: Seq<FlushSlot>,
) -> Seq<StatEntry> {
    if uploaded_prefix(slots) > 0 {
        crate::stats::with_value(
            entries,
            stats.l0_flush_commit_batch_size_last@,
            StatValue::GaugeU64(uploaded_prefix(slots) as u64),
        )
    } else {
        entries
    }
}

/// The statistics once the size of a memtable is recorded.
pub open spec fn input_recorded(
    entries: Seq<StatEntry>,
    stats: DbStats,
    imm_memtable: ImmutableMemtable,
) -> Seq<StatEntry> {
    observed(
        crate::stats::with_value(
            entries,
            stats.l0_flush_input_rows_last@,
            StatValue::GaugeU64(imm_memtable.entry_num),
        ),
        stats.l0_flush_input_bytes,
        stats.l0_flush_input_bytes_last,
        imm_memtable.entries_size_in_bytes,
    )
}

/// The statistics once a flush that has left the queue of frozen memtables is recorded.
pub open spec fn flush_recorded(
    entries: Seq<StatEntry>,
    stats: DbStats,
    ready: ReadyForCommit,
    publish_ms: u64,
) -> Seq<StatEntry> {
    let times = ready.flush_stats;
    let entries = observed(
        entries,
        stats.l0_flush_iter_setup_ms,
        stats.l0_flush_iter_setup_ms_last,
        times.iter_setup_ms,
    );
    let entries = observed(
        entries,
        stats.l0_flush_row_loop_ms,
        stats.l0_flush_row_loop_ms_last,
        times.row_loop_ms,
    );
    let entries = observed(
        entries,
        stats.l0_flush_finish_block_ms,
        stats.l0_flush_finish_block_ms_last,
        times.finish_block_ms,
    );
    let entries = observed(
        entries,
        stats.l0_flush_footer_ms,
        stats.l0_flush_footer_ms_last,
        times.footer_ms,
    );
    let entries = observed(
        entries,
        stats.l0_flush_put_ms,
        stats.l0_flush_put_ms_last,
        times.put_ms,
    );
    let entries = observed(
        entries,
        stats.l0_flush_cache_ms,
        stats.l0_flush_cache_ms_last,
        times.cache_ms,
    );
    let entries = observed(
        entries,
        stats.l0_flush_output_bytes,
        stats.l0_flush_output_bytes_last,
        ready.output_bytes,
    );
    observed(entries, stats.l0_flush_publish_ms, stats.l0_flush_publish_ms_last, publish_ms)
}

/// The statistics once every flush of a batch is recorded and counted.
pub open spec fn batch_recorded(
    entries: Seq<StatEntry>,
    stats: DbStats,
    batch: Seq<ReadyForCommit>,
    publish_ms: u64,
) -> Seq<StatEntry>
    decreases batch.len(),
{
    if batch.len() == 0 {
        entries
    } else {
        crate::stats::with_added(
            flush_recorded(
                batch_recorded(entries, stats, batch.drop_last(), publish_ms),
                stats,
                batch.last(),
                publish_ms,
            ),
            stats.immutable_memtable_flushes@,
            1,
        )
    }
}

/// The time since a flush started.
pub open spec fn elapsed_since(start_ms: u64, now_ms: u64) -> u64 {
    if now_ms >= start_ms {
        (now_ms - start_ms) as u64
    } else {
        0
    }
}

/// The statistics once every flush of a batch is durable.
pub open spec fn durable_recorded(
    entries: Seq<StatEntry>,
    stats: DbStats,
    batch: Seq<ReadyForCommit>,
    manifest_ms: u64,
    now_ms: u64,
) -> Seq<StatEntry>
    decreases batch.len(),
{
    if batch.len() == 0 {
        entries
    } else {
        observed(
            observed(
                durable_recorded(entries, stats, batch.drop_last(), manifest_ms, now_ms),
                stats.l0_flush_manifest_ms,
                stats.l0_flush_manifest_ms_last,
                manifest_ms,
            ),
            stats.l0_flush_total_ms,
            stats.l0_flush_total_ms_last,
            elapsed_since(batch.last().flush_start_ms, now_ms),
        )
    }
}

/// One flush's share of a time that was spent on a whole batch.
pub open spec fn share(elapsed_ms: u64, batch_len: nat) -> u64 {
    if batch_len == 0 {
        elapsed_ms
    } else {
        (elapsed_ms as nat / batch_len) as u64
    }
}

/// Records a flush that has left the queue of frozen memtables.
fn record_uploaded_flush_metrics(
    stats: &DbStats,
    registry: &mut StatRegistry,
    ready: &ReadyForCommit,
    publish_elapsed_ms: u64,
)
    requires
        stats.fits(crate::stats::kinds(old(registry)@)),
    ensures
        final(registry)@ == flush_recorded(old(registry)@, *stats, *ready, publish_elapsed_ms),
        crate::stats::kinds(final(registry)@) == crate::stats::kinds(old(registry)@),
{
    reveal(DbStats::fits);
    let times = ready.flush_stats;
    observe(
        &stats.l0_flush_iter_setup_ms,
        &stats.l0_flush_iter_setup_ms_last,
        registry,
        times.iter_setup_ms,
    );
    observe(
        &stats.l0_flush_row_loop_ms,
        &stats.l0_flush_row_loop_ms_last,
        registry,
        times.row_loop_ms,
    );
    observe(
        &stats.l0_flush_finish_block_ms,
        &stats.l0_flush_finish_block_ms_last,
        registry,
        times.finish_block_ms,
    );
    observe(
        &stats.l0_flush_footer_ms,
        &stats.l0_flush_footer_ms_last,
        registry,
        times.footer_ms,
    );
    observe(&stats.l0_flush_put_ms, &stats.l0_flush_put_ms_last, registry, times.put_ms);
    observe(&stats.l0_flush_cache_ms, &stats.l0_flush_cache_ms_last, registry, times.cache_ms);
    observe(
        &stats.l0_flush_output_bytes,
        &stats.l0_flush_output_bytes_last,
        registry,
        ready.output_bytes,
    );
    observe(
        &stats.l0_flush_publish_ms,
        &stats.l0_flush_publish_ms_last,
        registry,
        publish_elapsed_ms,
    );
}

/// Records the size of a memtable.
fn record_input(stats: &DbStats, registry: &mut StatRegistry, imm_memtable: &ImmutableMemtable)
    requires
        stats.fits(crate::stats::kinds(old(registry)@)),
    ensures
        final(registry)@ == input_recorded(old(registry)@, *stats, *imm_memtable),
        crate::stats::kinds(final(registry)@) == crate::stats::kinds(old(registry)@),
{
    broadcast use crate::stats::lemma_kinds_kept;

    reveal(DbStats::fits);
    let ghost kinds = crate::stats::kinds(registry@);
    let ghost slot = stats.l0_flush_input_rows_last@;
    assert(kinds[slot] == crate::stats::kind_of(registry@[slot].value));
    stats.l0_flush_input_rows_last.set(registry, imm_memtable.entry_num);
    observe(
        &stats.l0_flush_input_bytes,
        &stats.l0_flush_input_bytes_last,
        registry,
        imm_memtable.entries_size_in_bytes,
    );
}

/// The pipeline as a mathematical value.
#[verifier::ext_equal]
pub ghost struct PipelineModel {
    pub phase: PipelinePhase,
    /// The number of tables at which level 0 is full.
    pub l0_max_ssts: usize,
    pub wal_enabled: bool,
    /// The number of flushes that were committed or are being committed.
    pub next_commit_seq: u64,
    /// The flushes that were started and are not being committed, in the order of their start.
    pub slots: Seq<FlushSlot>,
    /// The memtable whose flush starts next.
    pub candidate: Option<Arc<ImmutableMemtable>>,
    /// The batch that is being committed.
    pub batch: Seq<ReadyForCommit>,
}

/// Whether a phase has a batch in it.
pub open spec fn has_batch(phase: PipelinePhase) -> bool {
    phase is Publishing || phase is WritingManifest || phase is ReloadingManifest
        || phase is ReloadingFenced
}

impl PipelineModel {
    /// The place that the next flush gets in the order of commits.
    pub open spec fn next_flush_seq(self) -> int {
        self.next_commit_seq + self.slots.len()
    }

    /// Whether the pipeline is in a state that its operations can reach.
    pub open spec fn wf(self) -> bool {
        &&& self.next_flush_seq() <= u64::MAX
        &&& count_building(self.slots) <= MAX_BUILD_IN_FLIGHT
        &&& count_uploading(self.slots) <= MAX_UPLOAD_IN_FLIGHT
        &&& has_batch(self.phase) <==> self.batch.len() > 0
        &&& self.phase is Preparing <==> self.candidate is Some
        &&& self.phase is Preparing ==> count_building(self.slots) < MAX_BUILD_IN_FLIGHT
            && self.next_flush_seq() < u64::MAX
        &&& self.phase is Waiting || self.phase is Committing ==> self.slots.len() > 0
        // The flushes have the places from the next commit on.
        &&& forall|i: int|
            0 <= i < self.slots.len() ==> place_of(#[trigger] self.slots[i])
                == self.next_commit_seq + i
        // A table is committed with the sequence number of its memtable.
        &&& forall|i: int|
            0 <= i < self.slots.len() ==> (#[trigger] self.slots[i] matches FlushSlot::Uploaded(
                ready,
            ) ==> ready.imm_memtable.last_seq == Some(ready.last_seq))
    }

    /// Whether another table may be built: level 0 has room for it beside all flushes that were
    /// started, and a memtable waits behind those of these flushes.
    pub open spec fn can_build(self, l0_len: nat, frozen: Seq<Arc<ImmutableMemtable>>) -> bool {
        &&& count_building(self.slots) < MAX_BUILD_IN_FLIGHT
        &&& l0_len + self.slots.len() < self.l0_max_ssts
        &&& self.slots.len() < frozen.len()
    }

    /// Whether another table may be uploaded.
    pub open spec fn can_upload(self) -> bool {
        &&& count_uploading(self.slots) < MAX_UPLOAD_IN_FLIGHT
        &&& first_built(self.slots) < self.slots.len()
    }

    /// Whether the entries of a memtable have to be made durable in the WAL first.
    pub open spec fn needs_wal_flush(
        self,
        imm_memtable: ImmutableMemtable,
        last_remote_persisted_seq: u64,
    ) -> bool {
        self.wal_enabled && last_remote_persisted_seq < (match imm_memtable.last_seq {
            Some(seq) => seq,
            None => 0,
        })
    }

    /// Commits the uploads whose turn has come, waits, or ends the run.
    pub open spec fn commits(self, step: PipelineStep, next: PipelineModel) -> bool {
        let n = uploaded_prefix(self.slots);
        &&& step.effects@.len() == 0
        &&& if n > 0 {
            &&& next == (PipelineModel {
                phase: PipelinePhase::Publishing,
                next_commit_seq: (self.next_commit_seq + n) as u64,
                slots: self.slots.skip(n as int),
                batch: uploads_in(self.slots.take(n as int)),
                ..self
            })
            &&& step.action matches PipelineAction::Publish(tables) && tables@ == tables_of(
                next.batch,
            )
        } else if self.slots.len() == 0 {
            &&& next == (PipelineModel { phase: PipelinePhase::Done, ..self })
            &&& step.action == PipelineAction::Exit(Ok(()))
        } else {
            &&& next == (PipelineModel { phase: PipelinePhase::Waiting, ..self })
            &&& step.action is Wait
        }
    }

    /// Starts another build or upload, if one may be started; otherwise commits or waits.
    pub open spec fn advances(
        self,
        l0_len: nat,
        frozen: Seq<Arc<ImmutableMemtable>>,
        last_remote_persisted_seq: u64,
        step: PipelineStep,
        next: PipelineModel,
    ) -> bool {
        let waits = frozen[frozen.len() - 1 - self.slots.len()];
        let built = first_built(self.slots) as int;
        if self.can_build(l0_len, frozen) {
            &&& next == (PipelineModel {
                phase: PipelinePhase::Preparing,
                candidate: Some(waits),
                ..self
            })
            &&& step.effects@.len() == 0
            &&& step.action == PipelineAction::Prepare {
                imm_memtable: waits,
                flush_wals: self.needs_wal_flush(*waits, last_remote_persisted_seq),
            }
        } else if self.can_upload() {
            &&& next == (PipelineModel {
                phase: PipelinePhase::Committing,
                slots: self.slots.update(
                    built,
                    FlushSlot::Uploading(self.slots[built]->Built_0),
                ),
                ..self
            })
            &&& step.effects@.len() == 0
            &&& step.action == PipelineAction::Upload {
                flush_seq: self.slots[built]->Built_0.flush_seq,
                imm_memtable: self.slots[built]->Built_0.imm_memtable,
                sst_id: self.slots[built]->Built_0.sst_id,
            }
        } else {
            self.commits(step, next)
        }
    }

    /// What follows when the run goes on.
    pub open spec fn proceeds(
        self,
        l0_len: nat,
        frozen: Seq<Arc<ImmutableMemtable>>,
        last_remote_persisted_seq: u64,
        step: PipelineStep,
        next: PipelineModel,
    ) -> bool {
        if self.phase is Committing {
            self.commits(step, next)
        } else {
            self.advances(l0_len, frozen, last_remote_persisted_seq, step, next)
        }
    }

    /// What follows when the WAL holds the entries of the memtable whose flush starts, or could not
    /// be made durable.
    pub open spec fn after_preparation(
        self,
        result: Result<FlushStart, SlateDBError>,
        step: PipelineStep,
        next: PipelineModel,
    ) -> bool {
        match result {
            Ok(start) => {
                let flush_seq = self.next_flush_seq() as u64;
                let imm_memtable = self.candidate->0;
                &&& !self.needs_wal_flush(*imm_memtable, start.last_remote_persisted_seq)
                &&& next == (PipelineModel {
                    phase: PipelinePhase::Building,
                    slots: self.slots.push(
                        FlushSlot::Building(started_flush(flush_seq, imm_memtable, start)),
                    ),
                    candidate: None,
                    ..self
                })
                &&& step.effects@.len() == 0
                &&& step.action == PipelineAction::Build { flush_seq, imm_memtable }
            },
            Err(error) => self.exits(Err(error), step, next),
        }
    }

    /// What follows when a table was built.
    pub open spec fn after_build(
        self,
        flush_seq: u64,
        step: PipelineStep,
        next: PipelineModel,
    ) -> bool {
        &&& next == (PipelineModel {
            phase: PipelinePhase::Starting,
            slots: self.slots.update(
                flush_seq - self.next_commit_seq,
                FlushSlot::Built(self.slot_at(flush_seq)->Building_0),
            ),
            ..self
        })
        &&& step.effects@.len() == 0
        &&& step.action is Proceed
    }

    /// What follows when a table was uploaded.
    pub open spec fn after_upload(
        self,
        flush_seq: u64,
        upload: TableUpload,
        step: PipelineStep,
        next: PipelineModel,
    ) -> bool {
        &&& next == (PipelineModel {
            phase: PipelinePhase::Starting,
            slots: self.slots.update(
                flush_seq - self.next_commit_seq,
                FlushSlot::Uploaded(
                    uploaded_flush(self.slot_at(flush_seq)->Uploading_0, upload),
                ),
            ),
            ..self
        })
        &&& step.effects@.len() == 0
        &&& step.action is Proceed
    }

    /// What follows when a batch was put into the local state, or could not be.
    pub open spec fn after_publication(
        self,
        result: Result<(), SlateDBError>,
        step: PipelineStep,
        next: PipelineModel,
    ) -> bool {
        match result {
            Ok(()) => {
                &&& next == (PipelineModel { phase: PipelinePhase::WritingManifest, ..self })
                &&& step.effects@ == flushed_effects(self.batch)
                &&& step.action is WriteManifest
            },
            Err(error) => self.exits(Err(error), step, next),
        }
    }

    /// The run ends.
    pub open spec fn exits(
        self,
        result: Result<(), SlateDBError>,
        step: PipelineStep,
        next: PipelineModel,
    ) -> bool {
        &&& next == (PipelineModel {
            phase: PipelinePhase::Done,
            candidate: None,
            batch: Seq::empty(),
            ..self
        })
        &&& step.effects@.len() == 0
        &&& step.action == PipelineAction::Exit(result)
    }

    /// A batch that cannot be made durable: its memtables are told, and the run ends, after the
    /// manifest was reloaded if the writer was fenced.
    pub open spec fn fails_commit(
        self,
        error: SlateDBError,
        step: PipelineStep,
        next: PipelineModel,
    ) -> bool {
        &&& step.effects@ == failed_effects(self.batch, error)
        &&& if error is Fenced {
            &&& next == (PipelineModel { phase: PipelinePhase::ReloadingFenced, ..self })
            &&& step.action is LoadManifest
        } else {
            &&& next == (PipelineModel {
                phase: PipelinePhase::Done,
                batch: Seq::empty(),
                ..self
            })
            &&& step.action == PipelineAction::Exit(Err(error))
        }
    }

    /// What follows a write of the manifest. A version that another process wrote first is loaded
    /// and written over.
    pub open spec fn after_write(
        self,
        result: Result<(), SlateDBError>,
        step: PipelineStep,
        next: PipelineModel,
    ) -> bool {
        match result {
            Ok(()) => {
                &&& next == (PipelineModel {
                    phase: PipelinePhase::Starting,
                    batch: Seq::empty(),
                    ..self
                })
                &&& step.effects@ == durable_effects(self.batch)
                &&& step.action is Proceed
            },
            Err(SlateDBError::TransactionalObjectVersionExists) => {
                &&& next == (PipelineModel { phase: PipelinePhase::ReloadingManifest, ..self })
                &&& step.effects@.len() == 0
                &&& step.action is LoadManifest
            },
            Err(error) => self.fails_commit(error, step, next),
        }
    }

    /// What follows a load of the manifest.
    pub open spec fn after_load(
        self,
        result: Result<(), SlateDBError>,
        step: PipelineStep,
        next: PipelineModel,
    ) -> bool {
        match (self.phase, result) {
            (PipelinePhase::ReloadingManifest, Ok(())) => {
                &&& next == (PipelineModel { phase: PipelinePhase::WritingManifest, ..self })
                &&& step.effects@.len() == 0
                &&& step.action is WriteManifest
            },
            (PipelinePhase::ReloadingManifest, Err(error)) => self.fails_commit(error, step, next),
            (_, Ok(())) => self.exits(Err(SlateDBError::Fenced), step, next),
            (_, Err(error)) => self.exits(Err(error), step, next),
        }
    }

    /// The statistics once another build or upload was started, or a batch was taken.
    pub open spec fn advance_recorded(
        self,
        l0_len: nat,
        frozen: Seq<Arc<ImmutableMemtable>>,
        stats: DbStats,
        entries: Seq<StatEntry>,
    ) -> Seq<StatEntry> {
        let entries = if self.phase is Starting {
            stages_shown(entries, stats, self.slots)
        } else {
            entries
        };
        if self.can_build(l0_len, frozen) {
            input_recorded(entries, stats, *frozen[frozen.len() - 1 - self.slots.len()])
        } else if self.can_upload() {
            entries
        } else {
            batch_size_shown(entries, stats, self.slots)
        }
    }

    /// The flush at a place in the order of commits.
    pub open spec fn slot_at(self, flush_seq: u64) -> FlushSlot {
        self.slots[flush_seq - self.next_commit_seq]
    }

    /// Whether the table of the flush at a place is being built.
    pub open spec fn is_building(self, flush_seq: u64) -> bool {
        &&& self.next_commit_seq <= flush_seq < self.next_flush_seq()
        &&& self.slot_at(flush_seq) is Building
    }

    /// Whether the table of the flush at a place is being uploaded.
    pub open spec fn is_uploading(self, flush_seq: u64) -> bool {
        &&& self.next_commit_seq <= flush_seq < self.next_flush_seq()
        &&& self.slot_at(flush_seq) is Uploading
    }

    /// Whether the flushes are those of the oldest frozen memtables, from the oldest on.
    pub open spec fn follows(self, frozen: Seq<Arc<ImmutableMemtable>>) -> bool {
        &&& self.slots.len() <= frozen.len()
        &&& forall|i: int|
            0 <= i < self.slots.len() ==> memtable_of(#[trigger] self.slots[i]).id
                == frozen[frozen.len() - 1 - i].id
    }
}

/// A flush runs through this pipeline.
#[derive(Debug)]
pub struct FlushPipeline {
    phase: PipelinePhase,
    l0_max_ssts: usize,
    wal_enabled: bool,
    next_commit_seq: u64,
    slots: VecDeque<FlushSlot>,
    candidate: Option<Arc<ImmutableMemtable>>,
    batch: Vec<ReadyForCommit>,
}

impl View for FlushPipeline {
    type V = PipelineModel;

    closed spec fn view(&self) -> PipelineModel {
        PipelineModel {
            phase: self.phase,
            l0_max_ssts: self.l0_max_ssts,
            wal_enabled: self.wal_enabled,
            next_commit_seq: self.next_commit_seq,
            slots: self.slots@,
            candidate: self.candidate,
            batch: self.batch@,
        }
    }
}

/// How many flushes are in each stage.
#[derive(Debug, Clone, Copy)]
struct StageCounts {
    building: usize,
    built: usize,
    uploading: usize,
    uploaded: usize,
}

impl FlushPipeline {
    /// A run that has not flushed anything.
    pub fn new(l0_max_ssts: usize, wal_enabled: bool) -> (pipeline: Self)
        ensures
            pipeline@.wf(),
            pipeline@ == (PipelineModel {
                phase: PipelinePhase::Starting,
                l0_max_ssts,
                wal_enabled,
                next_commit_seq: 0,
                slots: Seq::empty(),
                candidate: None,
                batch: Seq::empty(),
            }),
    {
        FlushPipeline {
            phase: PipelinePhase::Starting,
            l0_max_ssts,
            wal_enabled,
            next_commit_seq: 0,
            slots: VecDeque::new(),
            candidate: None,
            batch: Vec::new(),
        }
    }

    /// What the pipeline waits for.
    pub fn phase(&self) -> (phase: PipelinePhase)
        ensures
            phase == self@.phase,
    {
        self.phase
    }

    /// The place that the next flush gets in the order of commits.
    pub fn next_flush_seq(&self) -> (flush_seq: u64)
        requires
            self@.wf(),
        ensures
            flush_seq == self@.next_flush_seq(),
    {
        self.next_commit_seq + self.slots.len() as u64
    }

    /// Counts the flushes in each stage.
    fn stage_counts(&self) -> (counts: StageCounts)
        ensures
            counts.building == count_building(self@.slots),
            counts.built == count_built(self@.slots),
            counts.uploading == count_uploading(self@.slots),
            counts.uploaded == count_uploaded(self@.slots),
    {
        let mut counts = StageCounts { building: 0, built: 0, uploading: 0, uploaded: 0 };
        let mut i: usize = 0;
        while i < self.slots.len()
            invariant
                i <= self.slots.len(),
                counts.building <= i,
                counts.built <= i,
                counts.uploading <= i,
                counts.uploaded <= i,
                counts.building == count_building(self@.slots.take(i as int)),
                counts.built == count_built(self@.slots.take(i as int)),
                counts.uploading == count_uploading(self@.slots.take(i as int)),
                counts.uploaded == count_uploaded(self@.slots.take(i as int)),
            decreases self.slots.len() - i,
        {
            proof {
                let next = self@.slots.take(i + 1);
                assert(next.drop_last() =~= self@.slots.take(i as int));
                assert(next.last() == self@.slots[i as int]);
            }
            match &self.slots[i] {
                FlushSlot::Building(_) => {
                    counts.building = counts.building + 1;
                },
                FlushSlot::Built(_) => {
                    counts.built = counts.built + 1;
                },
                FlushSlot::Uploading(_) => {
                    counts.uploading = counts.uploading + 1;
                },
                FlushSlot::Uploaded(_) => {
                    counts.uploaded = counts.uploaded + 1;
                },
            }
            i = i + 1;
        }
        assert(self@.slots.take(i as int) =~= self@.slots);
        counts
    }

    /// The place of the first flush whose table is built and not being uploaded.
    fn first_built_index(&self) -> (index: usize)
        ensures
            index == first_built(self@.slots),
            index <= self@.slots.len(),
            index < self@.slots.len() ==> self@.slots[index as int] is Built,
    {
        let mut i: usize = 0;
        assert(self@.slots.skip(0) =~= self@.slots);
        while i < self.slots.len()
            invariant
                i <= self.slots.len(),
                first_built(self@.slots) == i + first_built(self@.slots.skip(i as int)),
            decreases self.slots.len() - i,
        {
            assert(self@.slots.skip(i as int)[0] == self@.slots[i as int]);
            assert(self@.slots.skip(i as int).drop_first() =~= self@.slots.skip(i + 1));
            if matches!(self.slots[i], FlushSlot::Built(_)) {
                return i;
            }
            i = i + 1;
        }
        i
    }

    /// Shows the number of flushes in each stage.
    fn show_stages(&self, stats: &DbStats, registry: &mut StatRegistry)
        requires
            stats.fits(crate::stats::kinds(old(registry)@)),
        ensures
            final(registry)@ == stages_shown(old(registry)@, *stats, self@.slots),
            crate::stats::kinds(final(registry)@) == crate::stats::kinds(old(registry)@),
    {
        broadcast use crate::stats::lemma_kinds_kept;

        reveal(DbStats::fits);
        let counts = self.stage_counts();
        let ghost kinds = crate::stats::kinds(registry@);
        let ghost slot = stats.l0_flush_build_inflight@;
        assert(kinds[slot] == crate::stats::kind_of(registry@[slot].value));
        stats.l0_flush_build_inflight.set(registry, counts.building as i64);
        let ghost slot = stats.l0_flush_upload_inflight@;
        assert(kinds[slot] == crate::stats::kind_of(registry@[slot].value));
        stats.l0_flush_upload_inflight.set(registry, counts.uploading as i64);
        let ghost slot = stats.l0_flush_built_ready@;
        assert(kinds[slot] == crate::stats::kind_of(registry@[slot].value));
        stats.l0_flush_built_ready.set(registry, counts.built as i64);
        let ghost slot = stats.l0_flush_uploaded_ready@;
        assert(kinds[slot] == crate::stats::kind_of(registry@[slot].value));
        stats.l0_flush_uploaded_ready.set(registry, counts.uploaded as i64);
    }

    /// Takes the uploads whose turn has come.
    fn take_uploaded_batch(&mut self) -> (batch: Vec<ReadyForCommit>)
        requires
            old(self)@.wf(),
        ensures
            batch@ == uploads_in(old(self)@.slots.take(uploaded_prefix(old(self)@.slots) as int)),
            batch@.len() == uploaded_prefix(old(self)@.slots),
            uploaded_prefix(old(self)@.slots) <= old(self)@.slots.len(),
            final(self)@ == (PipelineModel {
                next_commit_seq: (old(self)@.next_commit_seq + batch@.len()) as u64,
                slots: old(self)@.slots.skip(batch@.len() as int),
                ..old(self)@
            }),
    {
        let ghost before = self@;
        let mut batch: Vec<ReadyForCommit> = Vec::new();
        let mut more: bool = true;
        assert(before.slots.skip(0) =~= before.slots);
        assert(batch@ =~= uploads_in(before.slots.take(0)));
        while more
            invariant
                before == old(self)@,
                before.wf(),
                batch@.len() <= before.slots.len(),
                batch@ == uploads_in(before.slots.take(batch@.len() as int)),
                uploaded_prefix(before.slots) == batch@.len() + uploaded_prefix(
                    before.slots.skip(batch@.len() as int),
                ),
                !more ==> uploaded_prefix(before.slots.skip(batch@.len() as int)) == 0,
                self@ == (PipelineModel {
                    next_commit_seq: (before.next_commit_seq + batch@.len()) as u64,
                    slots: before.slots.skip(batch@.len() as int),
                    ..before
                }),
            decreases before.slots.len() - batch@.len() + (if more { 1int } else { 0int }),
        {
            let ghost n = batch@.len() as int;
            let uploaded_first: bool = self.slots.len() > 0 && matches!(
                self.slots[0],
                FlushSlot::Uploaded(_)
            );
            if uploaded_first {
                let ghost rest = before.slots.skip(n);
                assert(rest[0] == before.slots[n]);
                assert(rest.drop_first() =~= before.slots.skip(n + 1));
                if let Some(FlushSlot::Uploaded(ready)) = self.slots.pop_front() {
                    batch.push(ready);
                    self.next_commit_seq = self.next_commit_seq + 1;
                    proof {
                        assert(self@.slots =~= before.slots.skip(n + 1));
                        assert(batch@ =~= uploads_in(before.slots.take(n + 1)));
                    }
                }
            } else {
                more = false;
            }
        }
        batch
    }

    /// Commits the uploads whose turn has come, waits, or ends the run.
    fn commit(&mut self, stats: &DbStats, registry: &mut StatRegistry) -> (step: PipelineStep)
        requires
            old(self)@.wf(),
            old(self)@.phase is Starting || old(self)@.phase is Building
                || old(self)@.phase is Committing,
            stats.fits(crate::stats::kinds(old(registry)@)),
        ensures
            final(self)@.wf(),
            old(self)@.commits(step, final(self)@),
            final(registry)@ == batch_size_shown(old(registry)@, *stats, old(self)@.slots),
            crate::stats::kinds(final(registry)@) == crate::stats::kinds(old(registry)@),
    {
        broadcast use crate::stats::lemma_kinds_kept;

        let ghost before = self@;
        let batch = self.take_uploaded_batch();
        proof {
            let n = uploaded_prefix(before.slots) as int;
            assert(before.slots.take(n) + before.slots.skip(n) =~= before.slots);
            lemma_counts_add(before.slots.take(n), before.slots.skip(n));
        }
        if batch.len() > 0 {
            let mut tables: Vec<FlushedTable> = Vec::new();
            let mut i: usize = 0;
            while i < batch.len()
                invariant
                    i <= batch.len(),
                    tables@ == tables_of(batch@.take(i as int)),
                decreases batch.len() - i,
            {
                tables.push(
                    FlushedTable {
                        imm_memtable: Arc::clone(&batch[i].imm_memtable),
                        sst_handle: batch[i].sst_handle,
                        last_seq: batch[i].last_seq,
                    },
                );
                assert(tables@ =~= tables_of(batch@.take(i + 1)));
                i = i + 1;
            }
            assert(batch@.take(i as int) =~= batch@);
            proof {
                reveal(DbStats::fits);
                let slot = stats.l0_flush_commit_batch_size_last@;
                assert(crate::stats::kinds(registry@)[slot] == crate::stats::kind_of(
                    registry@[slot].value,
                ));
            }
            stats.l0_flush_commit_batch_size_last.set(registry, batch.len() as u64);
            self.batch = batch;
            self.phase = PipelinePhase::Publishing;
            return PipelineStep { effects: Vec::new(), action: PipelineAction::Publish(tables) };
        }
        assert(self@.slots =~= before.slots);
        if self.slots.len() == 0 {
            self.phase = PipelinePhase::Done;
            return PipelineStep { effects: Vec::new(), action: PipelineAction::Exit(Ok(())) };
        }
        self.phase = PipelinePhase::Waiting;
        PipelineStep { effects: Vec::new(), action: PipelineAction::Wait }
    }

    /// Starts another build or upload, if one may be started; otherwise commits or waits.
    ///
    /// `db` is the state of the database now, and the WAL is durable through
    /// `last_remote_persisted_seq`.
    pub fn next(
        &mut self,
        db: &DbState,
        last_remote_persisted_seq: u64,
        stats: &DbStats,
        registry: &mut StatRegistry,
    ) -> (step: PipelineStep)
        requires
            old(self)@.wf(),
            old(self)@.phase is Starting || old(self)@.phase is Building
                || old(self)@.phase is Committing,
            old(self)@.next_flush_seq() < u64::MAX,
            stats.fits(crate::stats::kinds(old(registry)@)),
        ensures
            final(self)@.wf(),
            crate::stats::kinds(final(registry)@) == crate::stats::kinds(old(registry)@),
            old(self)@.proceeds(
                db@.core.l0.len(),
                db@.imm_memtable,
                last_remote_persisted_seq,
                step,
                final(self)@,
            ),
            final(registry)@ == (if old(self)@.phase is Committing {
                batch_size_shown(old(registry)@, *stats, old(self)@.slots)
            } else {
                old(self)@.advance_recorded(
                    db@.core.l0.len(),
                    db@.imm_memtable,
                    *stats,
                    old(registry)@,
                )
            }),
    {
        if matches!(self.phase, PipelinePhase::Committing) {
            return self.commit(stats, registry);
        }
        if matches!(self.phase, PipelinePhase::Starting) {
            self.show_stages(stats, registry);
        }
        let counts = self.stage_counts();
        let scheduled = self.slots.len();
        let l0_len = db.core.l0.len();
        let frozen = db.imm_memtable.len();
        let room: bool = l0_len < self.l0_max_ssts && scheduled < self.l0_max_ssts - l0_len;
        if counts.building < MAX_BUILD_IN_FLIGHT && room && scheduled < frozen {
            let imm_memtable = Arc::clone(&db.imm_memtable[frozen - 1 - scheduled]);
            record_input(stats, registry, &*imm_memtable);
            let last_seq = match imm_memtable.last_seq {
                Some(seq) => seq,
                None => 0,
            };
            let flush_wals = self.wal_enabled && last_remote_persisted_seq < last_seq;
            self.candidate = Some(Arc::clone(&imm_memtable));
            self.phase = PipelinePhase::Preparing;
            return PipelineStep {
                effects: Vec::new(),
                action: PipelineAction::Prepare { imm_memtable, flush_wals },
            };
        }
        if counts.uploading < MAX_UPLOAD_IN_FLIGHT {
            let index = self.first_built_index();
            if index < scheduled {
                let ghost before = self@.slots;
                let earlier = self.slots.remove(index).unwrap();
                if let FlushSlot::Built(pending) = earlier {
                    let action = PipelineAction::Upload {
                        flush_seq: pending.flush_seq,
                        imm_memtable: Arc::clone(&pending.imm_memtable),
                        sst_id: pending.sst_id,
                    };
                    let ghost slot = FlushSlot::Uploading(pending);
                    self.slots.insert(index, FlushSlot::Uploading(pending));
                    self.phase = PipelinePhase::Committing;
                    proof {
                        assert(self@.slots =~= before.update(index as int, slot));
                        lemma_counts_update(before, index as int, slot);
                    }
                    return PipelineStep { effects: Vec::new(), action };
                }
            }
        }
        self.commit(stats, registry)
    }

    /// The WAL holds the entries of the memtable whose flush starts, so that its table may be built;
    /// or it could not be made durable.
    pub fn prepared(
        &mut self,
        result: Result<FlushStart, SlateDBError>,
        stats: &DbStats,
        registry: &mut StatRegistry,
    ) -> (step: PipelineStep)
        requires
            old(self)@.wf(),
            old(self)@.phase is Preparing,
            result matches Ok(start) ==> !old(self)@.needs_wal_flush(
                *old(self)@.candidate->0,
                start.last_remote_persisted_seq,
            ),
            stats.fits(crate::stats::kinds(old(registry)@)),
        ensures
            final(self)@.wf(),
            crate::stats::kinds(final(registry)@) == crate::stats::kinds(old(registry)@),
            old(self)@.after_preparation(result, step, final(self)@),
            final(registry)@ == match result {
                Ok(start) => observed(
                    old(registry)@,
                    stats.l0_flush_wal_wait_ms,
                    stats.l0_flush_wal_wait_ms_last,
                    start.wal_wait_elapsed_ms,
                ),
                Err(_) => old(registry)@,
            },
    {
        match result {
            Ok(start) => {
                proof {
                    reveal(DbStats::fits);
                }
                observe(
                    &stats.l0_flush_wal_wait_ms,
                    &stats.l0_flush_wal_wait_ms_last,
                    registry,
                    start.wal_wait_elapsed_ms,
                );
                let ghost before = self@;
                let flush_seq = self.next_flush_seq();
                let imm_memtable = self.candidate.take().unwrap();
                self.slots.push_back(
                    FlushSlot::Building(
                        PendingBuiltFlush {
                            flush_seq,
                            imm_memtable: Arc::clone(&imm_memtable),
                            sst_id: start.sst_id,
                            flush_start_ms: start.flush_start_ms,
                            wal_wait_elapsed_ms: start.wal_wait_elapsed_ms,
                        },
                    ),
                );
                self.phase = PipelinePhase::Building;
                assert(self@.slots.drop_last() =~= before.slots);
                PipelineStep {
                    effects: Vec::new(),
                    action: PipelineAction::Build { flush_seq, imm_memtable },
                }
            },
            Err(error) => self.exit(Err(error)),
        }
    }

    /// Ends the run.
    fn exit(&mut self, result: Result<(), SlateDBError>) -> (step: PipelineStep)
        requires
            old(self)@.wf(),
        ensures
            final(self)@.wf(),
            old(self)@.exits(result, step, final(self)@),
    {
        self.phase = PipelinePhase::Done;
        self.candidate = None;
        self.batch = Vec::new();
        assert(self@.batch =~= Seq::empty());
        PipelineStep { effects: Vec::new(), action: PipelineAction::Exit(result) }
    }

    /// A table was built.
    pub fn built(&mut self, flush_seq: u64) -> (step: PipelineStep)
        requires
            old(self)@.wf(),
            old(self)@.phase is Waiting,
            old(self)@.is_building(flush_seq),
        ensures
            final(self)@.wf(),
            old(self)@.after_build(flush_seq, step, final(self)@),
    {
        let ghost before = self@;
        let started = self.slots.len();
        assert(flush_seq - self.next_commit_seq < started);
        let index = (flush_seq - self.next_commit_seq) as usize;
        if let FlushSlot::Building(pending) = self.slots.remove(index).unwrap() {
            let ghost slot = FlushSlot::Built(pending);
            self.slots.insert(index, FlushSlot::Built(pending));
            proof {
                assert(self@.slots =~= before.slots.update(index as int, slot));
                lemma_counts_update(before.slots, index as int, slot);
            }
        }
        self.phase = PipelinePhase::Starting;
        PipelineStep { effects: Vec::new(), action: PipelineAction::Proceed }
    }

    /// A table was uploaded.
    pub fn uploaded(&mut self, flush_seq: u64, upload: TableUpload) -> (step: PipelineStep)
        requires
            old(self)@.wf(),
            old(self)@.phase is Waiting,
            old(self)@.is_uploading(flush_seq),
            memtable_of(old(self)@.slot_at(flush_seq)).last_seq is Some,
        ensures
            final(self)@.wf(),
            old(self)@.after_upload(flush_seq, upload, step, final(self)@),
    {
        let ghost before = self@;
        let started = self.slots.len();
        assert(flush_seq - self.next_commit_seq < started);
        let index = (flush_seq - self.next_commit_seq) as usize;
        if let FlushSlot::Uploading(pending) = self.slots.remove(index).unwrap() {
            let last_seq = pending.imm_memtable.last_seq.unwrap();
            let ready = ReadyForCommit {
                flush_seq: pending.flush_seq,
                imm_memtable: pending.imm_memtable,
                sst_id: pending.sst_id,
                sst_handle: upload.sst_handle,
                output_bytes: upload.output_bytes,
                flush_stats: upload.flush_stats,
                flush_start_ms: pending.flush_start_ms,
                wal_wait_elapsed_ms: pending.wal_wait_elapsed_ms,
                last_seq,
            };
            let ghost slot = FlushSlot::Uploaded(ready);
            self.slots.insert(index, FlushSlot::Uploaded(ready));
            proof {
                assert(self@.slots =~= before.slots.update(index as int, slot));
                lemma_counts_update(before.slots, index as int, slot);
            }
        }
        self.phase = PipelinePhase::Starting;
        PipelineStep { effects: Vec::new(), action: PipelineAction::Proceed }
    }

    /// A table could not be built or uploaded.
    pub fn failed(&mut self, error: SlateDBError) -> (step: PipelineStep)
        requires
            old(self)@.wf(),
            old(self)@.phase is Waiting,
        ensures
            final(self)@.wf(),
            old(self)@.exits(Err(error), step, final(self)@),
    {
        self.exit(Err(error))
    }

    /// The batch was put into the local state, which took `elapsed_ms` milliseconds; or it could
    /// not be.
    pub fn published(
        &mut self,
        result: Result<(), SlateDBError>,
        elapsed_ms: u64,
        stats: &DbStats,
        registry: &mut StatRegistry,
    ) -> (step: PipelineStep)
        requires
            old(self)@.wf(),
            old(self)@.phase is Publishing,
            stats.fits(crate::stats::kinds(old(registry)@)),
        ensures
            final(self)@.wf(),
            crate::stats::kinds(final(registry)@) == crate::stats::kinds(old(registry)@),
            old(self)@.after_publication(result, step, final(self)@),
            final(registry)@ == match result {
                Ok(()) => batch_recorded(
                    old(registry)@,
                    *stats,
                    old(self)@.batch,
                    share(elapsed_ms, old(self)@.batch.len()),
                ),
                Err(_) => old(registry)@,
            },
    {
        if let Err(error) = result {
            return self.exit(Err(error));
        }
        let share_ms = elapsed_ms / self.batch.len() as u64;
        let ghost batch = self@.batch;
        let ghost first = registry@;
        let ghost kinds = crate::stats::kinds(first);
        let mut effects: Vec<PipelineEffect> = Vec::new();
        let mut i: usize = 0;
        assert(effects@ =~= flushed_effects(batch.take(0)));
        while i < self.batch.len()
            invariant
                self@ == old(self)@,
                batch == self@.batch,
                i <= batch.len(),
                stats.fits(kinds),
                crate::stats::kinds(registry@) == kinds,
                effects@ == flushed_effects(batch.take(i as int)),
                registry@ == batch_recorded(first, *stats, batch.take(i as int), share_ms),
            decreases batch.len() - i,
        {
            record_uploaded_flush_metrics(stats, registry, &self.batch[i], share_ms);
            effects.push(
                PipelineEffect::NotifyFlushedToL0(Arc::clone(&self.batch[i].imm_memtable)),
            );
            count_flush(stats, registry);
            proof {
                let next = batch.take(i + 1);
                assert(next.drop_last() =~= batch.take(i as int));
                assert(next.last() == batch[i as int]);
                assert(effects@ =~= flushed_effects(next));
            }
            i = i + 1;
        }
        assert(batch.take(i as int) =~= batch);
        self.phase = PipelinePhase::WritingManifest;
        PipelineStep { effects, action: PipelineAction::WriteManifest }
    }

    /// The batch will not become durable.
    fn fail_commit(&mut self, error: SlateDBError) -> (step: PipelineStep)
        requires
            old(self)@.wf(),
            has_batch(old(self)@.phase),
        ensures
            final(self)@.wf(),
            old(self)@.fails_commit(error, step, final(self)@),
    {
        let fenced = matches!(error, SlateDBError::Fenced);
        let ghost batch = self@.batch;
        let mut effects: Vec<PipelineEffect> = Vec::new();
        let mut i: usize = 0;
        assert(effects@ =~= failed_effects(batch.take(0), error));
        while i < self.batch.len()
            invariant
                self@ == old(self)@,
                batch == self@.batch,
                i <= batch.len(),
                fenced == (error is Fenced),
                effects@ == failed_effects(batch.take(i as int), error),
            decreases batch.len() - i,
        {
            proof {
                let next = batch.take(i + 1);
                assert(next.drop_last() =~= batch.take(i as int));
                assert(next.last() == batch[i as int]);
            }
            if fenced {
                effects.push(PipelineEffect::DeleteSst(self.batch[i].sst_id));
            }
            effects.push(
                PipelineEffect::NotifyDurable(
                    Arc::clone(&self.batch[i].imm_memtable),
                    Err(error),
                ),
            );
            i = i + 1;
        }
        assert(batch.take(i as int) =~= batch);
        if fenced {
            self.phase = PipelinePhase::ReloadingFenced;
            return PipelineStep { effects, action: PipelineAction::LoadManifest };
        }
        self.phase = PipelinePhase::Done;
        self.batch = Vec::new();
        assert(self@.batch =~= Seq::empty());
        PipelineStep { effects, action: PipelineAction::Exit(Err(error)) }
    }

    /// The manifest was written, or could not be. Since the first attempt `elapsed_ms`
    /// milliseconds went by, and it is `now_ms`.
    pub fn written(
        &mut self,
        result: Result<(), SlateDBError>,
        elapsed_ms: u64,
        now_ms: u64,
        stats: &DbStats,
        registry: &mut StatRegistry,
    ) -> (step: PipelineStep)
        requires
            old(self)@.wf(),
            old(self)@.phase is WritingManifest,
            stats.fits(crate::stats::kinds(old(registry)@)),
        ensures
            final(self)@.wf(),
            crate::stats::kinds(final(registry)@) == crate::stats::kinds(old(registry)@),
            old(self)@.after_write(result, step, final(self)@),
            final(registry)@ == match result {
                Ok(()) => durable_recorded(
                    old(registry)@,
                    *stats,
                    old(self)@.batch,
                    share(elapsed_ms, old(self)@.batch.len()),
                    now_ms,
                ),
                Err(SlateDBError::TransactionalObjectVersionExists) => crate::stats::with_added(
                    old(registry)@,
                    stats.l0_flush_manifest_retries@,
                    1,
                ),
                Err(_) => old(registry)@,
            },
    {
        match result {
            Ok(()) => {},
            Err(error) => {
                if needs_manifest_retry(&result, stats, registry) {
                    self.phase = PipelinePhase::ReloadingManifest;
                    return PipelineStep {
                        effects: Vec::new(),
                        action: PipelineAction::LoadManifest,
                    };
                }
                return self.fail_commit(error);
            },
        }
        let share_ms = elapsed_ms / self.batch.len() as u64;
        let ghost batch = self@.batch;
        let ghost first = registry@;
        let ghost kinds = crate::stats::kinds(first);
        let mut effects: Vec<PipelineEffect> = Vec::new();
        let mut i: usize = 0;
        assert(effects@ =~= durable_effects(batch.take(0)));
        while i < self.batch.len()
            invariant
                self@ == old(self)@,
                batch == self@.batch,
                i <= batch.len(),
                stats.fits(kinds),
                crate::stats::kinds(registry@) == kinds,
                effects@ == durable_effects(batch.take(i as int)),
                registry@ == durable_recorded(
                    first,
                    *stats,
                    batch.take(i as int),
                    share_ms,
                    now_ms,
                ),
            decreases batch.len() - i,
        {
            proof {
                reveal(DbStats::fits);
                let next = batch.take(i + 1);
                assert(next.drop_last() =~= batch.take(i as int));
                assert(next.last() == batch[i as int]);
            }
            let start_ms = self.batch[i].flush_start_ms;
            let total_ms = if now_ms >= start_ms {
                now_ms - start_ms
            } else {
                0
            };
            observe(
                &stats.l0_flush_manifest_ms,
                &stats.l0_flush_manifest_ms_last,
                registry,
                share_ms,
            );
            observe(
                &stats.l0_flush_total_ms,
                &stats.l0_flush_total_ms_last,
                registry,
                total_ms,
            );
            effects.push(
                PipelineEffect::NotifyDurable(Arc::clone(&self.batch[i].imm_memtable), Ok(())),
            );
            effects.push(PipelineEffect::AdvanceDurableSeq(self.batch[i].last_seq));
            assert(effects@ =~= durable_effects(batch.take(i + 1)));
            i = i + 1;
        }
        assert(batch.take(i as int) =~= batch);
        self.batch = Vec::new();
        assert(self@.batch =~= Seq::empty());
        self.phase = PipelinePhase::Starting;
        PipelineStep { effects, action: PipelineAction::Proceed }
    }

    /// The manifest was loaded and merged, or could not be.
    pub fn loaded(&mut self, result: Result<(), SlateDBError>) -> (step: PipelineStep)
        requires
            old(self)@.wf(),
            old(self)@.phase is ReloadingManifest || old(self)@.phase is ReloadingFenced,
        ensures
            final(self)@.wf(),
            old(self)@.after_load(result, step, final(self)@),
    {
        match self.phase {
            PipelinePhase::ReloadingManifest => match result {
                Ok(()) => {
                    self.phase = PipelinePhase::WritingManifest;
                    PipelineStep { effects: Vec::new(), action: PipelineAction::WriteManifest }
                },
                Err(error) => self.fail_commit(error),
            },
            _ => match result {
                Ok(()) => self.exit(Err(SlateDBError::Fenced)),
                Err(error) => self.exit(Err(error)),
            },
        }
    }
}

/// Counts one flushed memtable.
fn count_flush(stats: &DbStats, registry: &mut StatRegistry)
    requires
        stats.fits(crate::stats::kinds(old(registry)@)),
    ensures
        final(registry)@ == crate::stats::with_added(
            old(registry)@,
            stats.immutable_memtable_flushes@,
            1,
        ),
        crate::stats::kinds(final(registry)@) == crate::stats::kinds(old(registry)@),
{
    broadcast use crate::stats::lemma_kinds_kept;

    proof {
        reveal(DbStats::fits);
        let slot = stats.immutable_memtable_flushes@;
        assert(crate::stats::kinds(registry@)[slot] == crate::stats::kind_of(registry@[slot].value));
    }
    stats.immutable_memtable_flushes.inc(registry);
}

/// Whether a write of the manifest failed because another process wrote the same version first. The
/// manifest is then loaded and written again; such retries are counted.
pub fn needs_manifest_retry(
    result: &Result<(), SlateDBError>,
    stats: &DbStats,
    registry: &mut StatRegistry,
) -> (retry: bool)
    requires
        stats.fits(crate::stats::kinds(old(registry)@)),
    ensures
        retry == (*result == Err::<(), SlateDBError>(
            SlateDBError::TransactionalObjectVersionExists,
        )),
        crate::stats::kinds(final(registry)@) == crate::stats::kinds(old(registry)@),
        final(registry)@ == (if retry {
            crate::stats::with_added(old(registry)@, stats.l0_flush_manifest_retries@, 1)
        } else {
            old(registry)@
        }),
{
    broadcast use crate::stats::lemma_kinds_kept;

    if matches!(result, Err(SlateDBError::TransactionalObjectVersionExists)) {
        proof {
            reveal(DbStats::fits);
            let slot = stats.l0_flush_manifest_retries@;
            assert(crate::stats::kinds(registry@)[slot] == crate::stats::kind_of(
                registry@[slot].value,
            ));
        }
        stats.l0_flush_manifest_retries.inc(registry);
        return true;
    }
    false
}

proof fn lemma_counts_add(a: Seq<FlushSlot>, b: Seq<FlushSlot>)
    ensures
        count_building(a + b) == count_building(a) + count_building(b),
        count_uploading(a + b) == count_uploading(a) + count_uploading(b),
    decreases b.len(),
{
    if b.len() == 0 {
        assert(a + b =~= a);
    } else {
        lemma_counts_add(a, b.drop_last());
        assert((a + b).drop_last() =~= a + b.drop_last());
        assert((a + b).last() == b.last());
    }
}

proof fn lemma_counts_update(slots: Seq<FlushSlot>, i: int, slot: FlushSlot)
    requires
        0 <= i < slots.len(),
    ensures
        count_building(slots.update(i, slot)) == count_building(slots) - (if slots[i] is Building {
            1int
        } else {
            0
        }) + (if slot is Building {
            1int
        } else {
            0
        }),
        count_uploading(slots.update(i, slot)) == count_uploading(slots) - (if slots[i] is Uploading {
            1int
        } else {
            0
        }) + (if slot is Uploading {
            1int
        } else {
            0
        }),
    decreases slots.len(),
{
    let after = slots.update(i, slot);
    if i == slots.len() - 1 {
        assert(after.drop_last() =~= slots.drop_last());
    } else {
        lemma_counts_update(slots.drop_last(), i, slot);
        assert(after.drop_last() =~= slots.drop_last().update(i, slot));
    }
}

proof fn lemma_uploaded_prefix(slots: Seq<FlushSlot>)
    ensures
        uploaded_prefix(slots) <= slots.len(),
        forall|i: int| 0 <= i < uploaded_prefix(slots) ==> #[trigger] slots[i] is Uploaded,
    decreases slots.len(),
{
    if slots.len() > 0 && slots[0] is Uploaded {
        let rest = slots.drop_first();
        lemma_uploaded_prefix(rest);
        assert forall|i: int| 0 <= i < uploaded_prefix(slots) implies #[trigger] slots[i] is Uploaded by {
            if i > 0 {
                assert(slots[i] == rest[i - 1]);
            }
        }
    }
}

/// A batch is committed in the order of freezing: as long as the flushes follow the queue of frozen
/// memtables, the tables of a batch are those of the oldest frozen memtables, from the oldest on,
/// each with the sequence number of its memtable, and once these have left the queue, the flushes
/// follow what is left of it.
pub proof fn law_commits_follow_freeze_order(
    model: PipelineModel,
    frozen: Seq<Arc<ImmutableMemtable>>,
    step: PipelineStep,
    next: PipelineModel,
)
    requires
        model.wf(),
        model.follows(frozen),
        model.commits(step, next),
    ensures
        step.action matches PipelineAction::Publish(tables) ==> {
            &&& 0 < tables@.len() <= frozen.len()
            &&& forall|i: int|
                0 <= i < tables@.len() ==> (#[trigger] tables@[i]).imm_memtable.id
                    == frozen[frozen.len() - 1 - i].id
            &&& forall|i: int|
                0 <= i < tables@.len() ==> (#[trigger] tables@[i]).imm_memtable.last_seq == Some(
                    tables@[i].last_seq,
                )
            &&& next.follows(frozen.take(frozen.len() - tables@.len()))
        },
        !(step.action is Publish) ==> next.follows(frozen),
{
    lemma_uploaded_prefix(model.slots);
    let n = uploaded_prefix(model.slots);
    if n > 0 {
        let tables = step.action->Publish_0@;
        assert forall|i: int| 0 <= i < tables.len() implies (#[trigger] tables[i]).imm_memtable.id
            == frozen[frozen.len() - 1 - i].id by {
            assert(model.slots[i] is Uploaded);
            assert(model.slots.take(n as int)[i] == model.slots[i]);
            assert(memtable_of(model.slots[i]).id == frozen[frozen.len() - 1 - i].id);
        }
        assert forall|i: int| 0 <= i < tables.len() implies (#[trigger] tables[i]).imm_memtable.last_seq
            == Some(tables[i].last_seq) by {
            assert(model.slots[i] is Uploaded);
            assert(model.slots.take(n as int)[i] == model.slots[i]);
        }
        let left = frozen.take(frozen.len() - n);
        assert forall|i: int| 0 <= i < next.slots.len() implies memtable_of(
            #[trigger] next.slots[i],
        ).id == left[left.len() - 1 - i].id by {
            assert(next.slots[i] == model.slots[i + n]);
        }
    }
}

/// The flushes keep following the queue of frozen memtables while tables are built and uploaded,
/// and while newer memtables are frozen.
pub proof fn law_flushes_follow_the_queue(
    model: PipelineModel,
    l0_len: nat,
    frozen: Seq<Arc<ImmutableMemtable>>,
    last_remote_persisted_seq: u64,
    step: PipelineStep,
    next: PipelineModel,
    newer: Arc<ImmutableMemtable>,
    start: FlushStart,
)
    requires
        model.wf(),
        model.phase is Starting || model.phase is Building,
        model.follows(frozen),
        model.advances(l0_len, frozen, last_remote_persisted_seq, step, next),
        !(step.action is Publish),
    ensures
        next.follows(frozen),
        next.follows(seq![newer] + frozen),
        next.candidate matches Some(imm_memtable) ==> (PipelineModel {
            slots: next.slots.push(
                FlushSlot::Building(
                    started_flush(next.next_flush_seq() as u64, imm_memtable, start),
                ),
            ),
            ..next
        }).follows(frozen),
{
    lemma_first_built(model.slots);
    let more = seq![newer] + frozen;
    assert forall|i: int| 0 <= i < next.slots.len() implies memtable_of(#[trigger] next.slots[i]).id
        == frozen[frozen.len() - 1 - i].id by {
        assert(memtable_of(model.slots[i]).id == frozen[frozen.len() - 1 - i].id);
    }
    assert forall|i: int| 0 <= i < next.slots.len() implies memtable_of(#[trigger] next.slots[i]).id
        == more[more.len() - 1 - i].id by {
        assert(more[more.len() - 1 - i] == frozen[frozen.len() - 1 - i]);
    }
    if let Some(imm_memtable) = next.candidate {
        let slots = next.slots.push(
            FlushSlot::Building(started_flush(next.next_flush_seq() as u64, imm_memtable, start)),
        );
        assert forall|i: int| 0 <= i < slots.len() implies memtable_of(#[trigger] slots[i]).id
            == frozen[frozen.len() - 1 - i].id by {
            if i < next.slots.len() {
                assert(slots[i] == next.slots[i]);
            }
        }
    }
}

proof fn lemma_first_built(slots: Seq<FlushSlot>)
    ensures
        first_built(slots) <= slots.len(),
        first_built(slots) < slots.len() ==> slots[first_built(slots) as int] is Built,
        forall|i: int| 0 <= i < first_built(slots) ==> !(#[trigger] slots[i] is Built),
    decreases slots.len(),
{
    if slots.len() > 0 && !(slots[0] is Built) {
        let rest = slots.drop_first();
        lemma_first_built(rest);
        assert forall|i: int| 0 <= i < first_built(slots) implies !(#[trigger] slots[i] is Built) by {
            if i > 0 {
                assert(slots[i] == rest[i - 1]);
            }
        }
        if first_built(slots) < slots.len() {
            assert(slots[first_built(slots) as int] == rest[first_built(rest) as int]);
        }
    }
}

/// Flushing never overfills level 0: a table is started only while level 0 has room for it beside
/// every flush that was started and not committed, and uploads start with the oldest table.
pub proof fn law_pipeline_respects_capacity_and_order(
    model: PipelineModel,
    l0_len: nat,
    frozen: Seq<Arc<ImmutableMemtable>>,
    last_remote_persisted_seq: u64,
    step: PipelineStep,
    next: PipelineModel,
)
    requires
        model.wf(),
        model.advances(l0_len, frozen, last_remote_persisted_seq, step, next),
    ensures
        step.action is Prepare ==> l0_len + model.slots.len() + 1 <= model.l0_max_ssts
            && count_building(model.slots) + 1 <= MAX_BUILD_IN_FLIGHT,
        step.action matches PipelineAction::Upload { flush_seq, imm_memtable, sst_id } ==> {
            let first = first_built(model.slots) as int;
            &&& first < model.slots.len()
            &&& model.slots[first] matches FlushSlot::Built(pending)
            &&& pending.flush_seq == flush_seq
            &&& pending.imm_memtable == imm_memtable
            &&& pending.sst_id == sst_id
            &&& forall|i: int| 0 <= i < first ==> !(#[trigger] model.slots[i] is Built)
        },
{
    lemma_first_built(model.slots);
}

/// The WAL comes first: before a table is built, the WAL is flushed exactly if it is enabled and
/// does not hold all entries of the memtable yet. Without a flush the table may be built at once.
pub proof fn law_wal_comes_first(
    model: PipelineModel,
    l0_len: nat,
    frozen: Seq<Arc<ImmutableMemtable>>,
    last_remote_persisted_seq: u64,
    step: PipelineStep,
    next: PipelineModel,
)
    requires
        model.advances(l0_len, frozen, last_remote_persisted_seq, step, next),
    ensures
        !(step.action is Build),
        step.action matches PipelineAction::Prepare { imm_memtable, flush_wals } ==> {
            &&& next.phase is Preparing
            &&& next.candidate == Some(imm_memtable)
            &&& flush_wals <==> model.wal_enabled && (imm_memtable.last_seq matches Some(last_seq)
                && last_remote_persisted_seq < last_seq)
            &&& !flush_wals ==> !next.needs_wal_flush(*imm_memtable, last_remote_persisted_seq)
        },
{
}

/// A run ends without an error only when nothing is left that it could flush: then no flush is in
/// the pipeline, and no memtable is frozen or level 0 is full.
pub proof fn law_run_ends_when_nothing_can_be_flushed(
    model: PipelineModel,
    l0_len: nat,
    frozen: Seq<Arc<ImmutableMemtable>>,
    last_remote_persisted_seq: u64,
    step: PipelineStep,
    next: PipelineModel,
)
    requires
        model.wf(),
        model.proceeds(l0_len, frozen, last_remote_persisted_seq, step, next),
        step.action is Exit,
    ensures
        step.action == PipelineAction::Exit(Ok(())),
        next.phase is Done,
        next.slots.len() == 0,
        frozen.len() == 0 || l0_len >= model.l0_max_ssts,
{
}

/// A run together with the database that it works on.
#[verifier::ext_equal]
pub ghost struct PipelineRun {
    pub model: PipelineModel,
    pub db: crate::db_state::DbStateModel,
}

/// What happens to a run.
pub ghost enum PipelineEvent {
    Next { last_remote_persisted_seq: u64 },
    Prepared(Result<FlushStart, SlateDBError>),
    Built(u64),
    Uploaded(u64, TableUpload),
    Failed(SlateDBError),
    /// The batch was put into the database, where transactions still read from `min_active_seq` on.
    Published { result: Result<(), SlateDBError>, min_active_seq: Option<u64> },
    Written(Result<(), SlateDBError>),
    Loaded(Result<(), SlateDBError>),
}

impl PipelineRun {
    /// Whether nothing has been flushed yet.
    pub open spec fn is_new(self) -> bool {
        &&& self.model.phase is Starting
        &&& self.model.slots.len() == 0
        &&& self.model.candidate is None
        &&& self.model.batch.len() == 0
    }

    /// What follows an event, as long as nobody else freezes memtables or changes the size of
    /// level 0.
    pub open spec fn reacts(self, event: PipelineEvent, step: PipelineStep, next: PipelineRun)
        -> bool {
        let model = self.model;
        match event {
            PipelineEvent::Next { last_remote_persisted_seq } => {
                &&& model.phase is Starting || model.phase is Building || model.phase is Committing
                &&& model.proceeds(
                    self.db.core.l0.len(),
                    self.db.imm_memtable,
                    last_remote_persisted_seq,
                    step,
                    next.model,
                )
                &&& next.db == self.db
            },
            PipelineEvent::Prepared(result) => {
                &&& model.phase is Preparing
                &&& model.after_preparation(result, step, next.model)
                &&& next.db == self.db
            },
            PipelineEvent::Built(flush_seq) => {
                &&& model.phase is Waiting
                &&& model.is_building(flush_seq)
                &&& model.after_build(flush_seq, step, next.model)
                &&& next.db == self.db
            },
            PipelineEvent::Uploaded(flush_seq, upload) => {
                &&& model.phase is Waiting
                &&& model.is_uploading(flush_seq)
                &&& model.after_upload(flush_seq, upload, step, next.model)
                &&& next.db == self.db
            },
            PipelineEvent::Failed(error) => {
                &&& model.phase is Waiting
                &&& model.exits(Err(error), step, next.model)
                &&& next.db == self.db
            },
            PipelineEvent::Published { result, min_active_seq } => {
                &&& model.phase is Publishing
                &&& model.after_publication(result, step, next.model)
                &&& result is Ok ==> next.db == crate::db_state::retired(
                    self.db,
                    tables_of(model.batch),
                    min_active_seq,
                )
            },
            PipelineEvent::Written(result) => {
                &&& model.phase is WritingManifest
                &&& model.after_write(result, step, next.model)
                &&& next.db == self.db
            },
            PipelineEvent::Loaded(result) => {
                &&& model.phase is ReloadingManifest || model.phase is ReloadingFenced
                &&& model.after_load(result, step, next.model)
                &&& next.db.imm_memtable == self.db.imm_memtable
                &&& next.db.core.l0.len() == self.db.core.l0.len()
            },
        }
    }

    /// The number of memtables whose flush has begun and that are still frozen.
    pub open spec fn begun(self) -> nat {
        self.model.slots.len() + (if self.model.candidate is Some {
            1nat
        } else {
            0nat
        }) + (if self.model.phase is Publishing {
            self.model.batch.len()
        } else {
            0nat
        })
    }

    /// Whether a run has come from `first` so far: the oldest memtables have become tables of level
    /// 0, one each, and there is room for those whose flush has begun.
    pub open spec fn has_come_from(self, first: PipelineRun) -> bool {
        let gone = first.db.imm_memtable.len() - self.db.imm_memtable.len();
        &&& self.model.l0_max_ssts == first.model.l0_max_ssts
        &&& 0 <= gone
        &&& self.db.imm_memtable == first.db.imm_memtable.take(
            self.db.imm_memtable.len() as int,
        )
        &&& self.db.core.l0.len() == first.db.core.l0.len() + gone
        &&& self.begun() <= self.db.imm_memtable.len()
        &&& gone + self.begun() > 0 ==> self.db.core.l0.len() + self.begun()
            <= self.model.l0_max_ssts
    }
}

/// A run that ends without an error has flushed as many of the oldest frozen memtables as level 0
/// had room for, and no others: nothing is frozen any more, or level 0 is full.
pub proof fn law_run_flushes_what_level_0_has_room_for(
    runs: Seq<PipelineRun>,
    events: Seq<PipelineEvent>,
    steps: Seq<PipelineStep>,
)
    requires
        events.len() > 0,
        steps.len() == events.len(),
        runs.len() == events.len() + 1,
        runs[0].is_new(),
        forall|i: int| 0 <= i < runs.len() ==> (#[trigger] runs[i]).model.wf(),
        forall|i: int|
            0 <= i < events.len() ==> runs[i].reacts(#[trigger] events[i], steps[i], runs[i + 1]),
        steps.last().action == PipelineAction::Exit(Ok(())),
    ensures
        ({
            let before = runs[0].db;
            let after = runs.last().db;
            let frozen = before.imm_memtable.len() as int;
            let room = runs[0].model.l0_max_ssts - before.core.l0.len();
            let flushed = if room <= 0 {
                0
            } else if frozen <= room {
                frozen
            } else {
                room
            };
            &&& after.imm_memtable == before.imm_memtable.take(frozen - flushed)
            &&& after.core.l0.len() == before.core.l0.len() + flushed
            &&& after.imm_memtable.len() == 0 || after.core.l0.len() >= runs[0].model.l0_max_ssts
        }),
{
    let n = events.len() as int - 1;
    assert(runs[0].has_come_from(runs[0])) by {
        assert(runs[0].db.imm_memtable.take(runs[0].db.imm_memtable.len() as int)
            =~= runs[0].db.imm_memtable);
    }
    lemma_run_so_far(runs, events, steps, n);
    assert(runs[n].reacts(events[n], steps[n], runs[n + 1]));
    assert(runs[n].model.wf());
    let last = runs[n];
    assert(events[n] is Next);
    assert(last.model.slots.len() == 0);
    assert(last.db.imm_memtable.len() == 0 || last.db.core.l0.len() >= last.model.l0_max_ssts);
}

proof fn lemma_run_so_far(
    runs: Seq<PipelineRun>,
    events: Seq<PipelineEvent>,
    steps: Seq<PipelineStep>,
    n: int,
)
    requires
        0 <= n < events.len(),
        steps.len() == events.len(),
        runs.len() == events.len() + 1,
        runs[0].has_come_from(runs[0]),
        forall|i: int| 0 <= i < runs.len() ==> (#[trigger] runs[i]).model.wf(),
        forall|i: int|
            0 <= i < events.len() ==> runs[i].reacts(#[trigger] events[i], steps[i], runs[i + 1]),
    ensures
        runs[n].has_come_from(runs[0]),
    decreases n,
{
    if n > 0 {
        lemma_run_so_far(runs, events, steps, n - 1);
        assert(runs[n - 1].reacts(events[n - 1], steps[n - 1], runs[n]));
        assert(runs[n].reacts(events[n], steps[n], runs[n + 1]));
        lemma_run_goes_on(runs[0], runs[n - 1], events[n - 1], steps[n - 1], runs[n]);
    }
}

proof fn lemma_run_goes_on(
    first: PipelineRun,
    run: PipelineRun,
    event: PipelineEvent,
    step: PipelineStep,
    next: PipelineRun,
)
    requires
        run.model.wf(),
        run.has_come_from(first),
        run.reacts(event, step, next),
        !(next.model.phase is Done),
    ensures
        next.has_come_from(first),
{
    lemma_uploaded_prefix(run.model.slots);
    lemma_first_built(run.model.slots);
    match event {
        PipelineEvent::Published { result, min_active_seq } => {
            let tables = tables_of(run.model.batch);
            let left = run.db.imm_memtable.len() - tables.len();
            assert(next.db.imm_memtable =~= run.db.imm_memtable.take(left));
            assert(run.db.imm_memtable.take(left) =~= first.db.imm_memtable.take(left));
            if tables.len() > 0 {
                assert(next.db.core.l0 =~= crate::db_state::newest_first(tables) + run.db.core.l0);
            }
            assert(next.db.core.l0.len() == run.db.core.l0.len() + tables.len());
        },
        _ => {},
    }
}

/// A request to the task that flushes memtables.
#[derive(Debug, Clone, Copy)]
pub enum MemtableFlushMsg {
    /// Flush frozen memtables; without a sender nobody waits for the answer.
    FlushImmutableMemtables { sender: Option<ReplyHandle> },
    /// Create a checkpoint against the newest manifest.
    CreateCheckpoint { options: CheckpointOptions, sender: ReplyHandle },
    /// Load the manifest and flush frozen memtables.
    PollManifest,
}

/// An answer to a request.
#[derive(Debug, Clone, Copy)]
pub enum MemtableFlushReply {
    Flush(ReplyHandle, Result<(), SlateDBError>),
    Checkpoint(ReplyHandle, Result<CheckpointCreateResult, SlateDBError>),
}

/// What has to be done next for a request.
#[derive(Debug, Clone, Copy)]
pub enum MemtableFlushAction {
    /// Read the remote manifest and merge it, then call `loaded`.
    LoadManifest,
    /// Run the pipeline to its end, then call `flushed`.
    RunPipeline,
    /// Write the local manifest with a new checkpoint, then call `checkpoint_written`.
    WriteCheckpoint(CheckpointOptions),
    /// The request has been handled.
    Done(Result<(), SlateDBError>),
}

/// What one call of the task asks for: first the answer is sent, then the action is done.
#[derive(Debug, Clone, Copy)]
pub struct MemtableFlushStep {
    pub reply: Option<MemtableFlushReply>,
    pub action: MemtableFlushAction,
}

/// What the task does for the request that it handles.
#[derive(Debug, Clone, Copy, PartialEq, Eq, Structural)]
pub enum MemtableFlusherState {
    Idle,
    /// It loads the manifest before it flushes.
    Polling,
    /// It flushes frozen memtables.
    Flushing(Option<ReplyHandle>),
    /// It loads the manifest before it writes a checkpoint.
    LoadingCheckpoint(CheckpointOptions, ReplyHandle),
    /// It writes a checkpoint.
    WritingCheckpoint(CheckpointOptions, ReplyHandle),
    /// It writes the manifest for the last time. Everybody who still waits is told the error.
    WritingFinal(SlateDBError),
    /// It loads the manifest because another version got in before the last write.
    ReloadingFinal(SlateDBError),
    /// It has ended.
    Ended,
}

/// What has to be done next while the task ends.
#[derive(Debug, Clone, Copy)]
pub enum CleanupAction {
    /// Write the local manifest, then call `final_written`.
    WriteManifest,
    /// Read the remote manifest and merge it, then call `final_loaded`.
    LoadManifest,
    /// The task has ended.
    Done(Result<(), SlateDBError>),
}

/// What one call asks for while the task ends: first the answers are sent and the memtables are
/// told, then the action is done.
#[derive(Debug)]
pub struct CleanupStep {
    pub replies: Vec<MemtableFlushReply>,
    pub notices: Vec<ShutdownNotice>,
    pub action: CleanupAction,
}

/// What a request is answered when the task ends before it gets to it.
pub open spec fn shutdown_reply(message: MemtableFlushMsg, error: SlateDBError) -> Seq<
    MemtableFlushReply,
> {
    match message {
        MemtableFlushMsg::FlushImmutableMemtables { sender: Some(sender) } => seq![
            MemtableFlushReply::Flush(sender, Err(error)),
        ],
        MemtableFlushMsg::CreateCheckpoint { sender, .. } => seq![
            MemtableFlushReply::Checkpoint(sender, Err(error)),
        ],
        _ => Seq::empty(),
    }
}

/// The answers to the requests that are left when the task ends.
pub open spec fn shutdown_replies(messages: Seq<MemtableFlushMsg>, error: SlateDBError) -> Seq<
    MemtableFlushReply,
>
    decreases messages.len(),
{
    if messages.len() == 0 {
        Seq::empty()
    } else {
        shutdown_replies(messages.drop_last(), error) + shutdown_reply(messages.last(), error)
    }
}

/// The error that everybody who still waits is told when the task ends.
pub open spec fn shutdown_error(result: Result<(), SlateDBError>) -> SlateDBError {
    match result {
        Ok(()) => SlateDBError::Closed,
        Err(error) => error,
    }
}

/// Whether a step ends the task: every memtable that is still in memory is told the error, and the
/// end itself is no failure.
pub open spec fn ends_with(
    frozen: Seq<Arc<ImmutableMemtable>>,
    error: SlateDBError,
    step: CleanupStep,
) -> bool {
    &&& step.replies@.len() == 0
    &&& step.notices@ == crate::db_state::shutdown_notices_of(frozen, error)
    &&& step.action == CleanupAction::Done(Ok(()))
}

/// The result of a task whose reply holds no value of its own.
pub open spec fn outcome_of(result: Result<CheckpointCreateResult, SlateDBError>) -> Result<
    (),
    SlateDBError,
> {
    match result {
        Ok(_) => Ok(()),
        Err(error) => Err(error),
    }
}

/// The task that flushes memtables: it handles one request after the other.
#[derive(Debug)]
pub struct MemtableFlusher {
    state: MemtableFlusherState,
}

impl View for MemtableFlusher {
    type V = MemtableFlusherState;

    closed spec fn view(&self) -> MemtableFlusherState {
        self.state
    }
}

impl MemtableFlusher {
    pub fn new() -> (task: Self)
        ensures
            task@ == MemtableFlusherState::Idle,
    {
        MemtableFlusher { state: MemtableFlusherState::Idle }
    }

    /// What the task does now.
    pub fn state(&self) -> (state: MemtableFlusherState)
        ensures
            state == self@,
    {
        self.state
    }

    /// Begins to handle a request.
    pub fn handle(&mut self, message: MemtableFlushMsg) -> (step: MemtableFlushStep)
        requires
            old(self)@ is Idle,
        ensures
            step.reply is None,
            match message {
                MemtableFlushMsg::PollManifest => {
                    &&& final(self)@ == MemtableFlusherState::Polling
                    &&& step.action == MemtableFlushAction::LoadManifest
                },
                MemtableFlushMsg::FlushImmutableMemtables { sender } => {
                    &&& final(self)@ == MemtableFlusherState::Flushing(sender)
                    &&& step.action == MemtableFlushAction::RunPipeline
                },
                MemtableFlushMsg::CreateCheckpoint { options, sender } => {
                    &&& final(self)@ == MemtableFlusherState::LoadingCheckpoint(options, sender)
                    &&& step.action == MemtableFlushAction::LoadManifest
                },
            },
    {
        match message {
            MemtableFlushMsg::PollManifest => {
                self.state = MemtableFlusherState::Polling;
                MemtableFlushStep { reply: None, action: MemtableFlushAction::LoadManifest }
            },
            MemtableFlushMsg::FlushImmutableMemtables { sender } => {
                self.state = MemtableFlusherState::Flushing(sender);
                MemtableFlushStep { reply: None, action: MemtableFlushAction::RunPipeline }
            },
            MemtableFlushMsg::CreateCheckpoint { options, sender } => {
                self.state = MemtableFlusherState::LoadingCheckpoint(options, sender);
                MemtableFlushStep { reply: None, action: MemtableFlushAction::LoadManifest }
            },
        }
    }

    /// The manifest was loaded and merged, or could not be.
    pub fn loaded(&mut self, result: Result<(), SlateDBError>) -> (step: MemtableFlushStep)
        requires
            old(self)@ is Polling || old(self)@ is LoadingCheckpoint,
        ensures
            match (old(self)@, result) {
                (MemtableFlusherState::LoadingCheckpoint(options, sender), Ok(())) => {
                    &&& final(self)@ == MemtableFlusherState::WritingCheckpoint(options, sender)
                    &&& step.reply is None
                    &&& step.action == MemtableFlushAction::WriteCheckpoint(options)
                },
                (MemtableFlusherState::LoadingCheckpoint(options, sender), Err(error)) => {
                    &&& final(self)@ == MemtableFlusherState::Idle
                    &&& step.reply == Some(MemtableFlushReply::Checkpoint(sender, Err(error)))
                    &&& step.action == MemtableFlushAction::Done(Err(error))
                },
                (_, Ok(())) => {
                    &&& final(self)@ == MemtableFlusherState::Flushing(None)
                    &&& step.reply is None
                    &&& step.action == MemtableFlushAction::RunPipeline
                },
                (_, Err(error)) => {
                    &&& final(self)@ == MemtableFlusherState::Idle
                    &&& step.reply is None
                    &&& step.action == MemtableFlushAction::Done(Err(error))
                },
            },
    {
        match self.state {
            MemtableFlusherState::LoadingCheckpoint(options, sender) => match result {
                Ok(()) => {
                    self.state = MemtableFlusherState::WritingCheckpoint(options, sender);
                    MemtableFlushStep {
                        reply: None,
                        action: MemtableFlushAction::WriteCheckpoint(options),
                    }
                },
                Err(error) => {
                    self.state = MemtableFlusherState::Idle;
                    MemtableFlushStep {
                        reply: Some(MemtableFlushReply::Checkpoint(sender, Err(error))),
                        action: MemtableFlushAction::Done(Err(error)),
                    }
                },
            },
            _ => match result {
                Ok(()) => {
                    self.state = MemtableFlusherState::Flushing(None);
                    MemtableFlushStep { reply: None, action: MemtableFlushAction::RunPipeline }
                },
                Err(error) => {
                    self.state = MemtableFlusherState::Idle;
                    MemtableFlushStep { reply: None, action: MemtableFlushAction::Done(Err(error)) }
                },
            },
        }
    }

    /// A run of the pipeline has ended.
    pub fn flushed(&mut self, result: Result<(), SlateDBError>) -> (step: MemtableFlushStep)
        requires
            old(self)@ is Flushing,
        ensures
            final(self)@ == MemtableFlusherState::Idle,
            step.reply == match old(self)@->Flushing_0 {
                Some(sender) => Some(MemtableFlushReply::Flush(sender, result)),
                None => None,
            },
            step.action == MemtableFlushAction::Done(result),
    {
        let reply = match self.state {
            MemtableFlusherState::Flushing(Some(sender)) => Some(
                MemtableFlushReply::Flush(sender, result),
            ),
            _ => None,
        };
        self.state = MemtableFlusherState::Idle;
        MemtableFlushStep { reply, action: MemtableFlushAction::Done(result) }
    }

    /// The manifest was written with a new checkpoint, or could not be. A version that another
    /// process wrote first is loaded and written over.
    pub fn checkpoint_written(&mut self, result: Result<CheckpointCreateResult, SlateDBError>) -> (step:
        MemtableFlushStep)
        requires
            old(self)@ is WritingCheckpoint,
        ensures
            ({
                let options = old(self)@->WritingCheckpoint_0;
                let sender = old(self)@->WritingCheckpoint_1;
                if result == Err::<CheckpointCreateResult, SlateDBError>(
                    SlateDBError::TransactionalObjectVersionExists,
                ) {
                    &&& final(self)@ == MemtableFlusherState::LoadingCheckpoint(options, sender)
                    &&& step.reply is None
                    &&& step.action == MemtableFlushAction::LoadManifest
                } else {
                    &&& final(self)@ == MemtableFlusherState::Idle
                    &&& step.reply == Some(MemtableFlushReply::Checkpoint(sender, result))
                    &&& step.action == MemtableFlushAction::Done(outcome_of(result))
                }
            }),
    {
        let reply = match self.state {
            MemtableFlusherState::WritingCheckpoint(options, sender) => {
                if matches!(result, Err(SlateDBError::TransactionalObjectVersionExists)) {
                    self.state = MemtableFlusherState::LoadingCheckpoint(options, sender);
                    return MemtableFlushStep {
                        reply: None,
                        action: MemtableFlushAction::LoadManifest,
                    };
                }
                Some(MemtableFlushReply::Checkpoint(sender, result))
            },
            _ => None,
        };
        self.state = MemtableFlusherState::Idle;
        let done = match result {
            Ok(_) => Ok(()),
            Err(error) => Err(error),
        };
        MemtableFlushStep { reply, action: MemtableFlushAction::Done(done) }
    }

    /// The task ends with `result`: the requests that are left are answered, and then the manifest
    /// is written for the last time.
    pub fn cleanup(&mut self, messages: &Vec<MemtableFlushMsg>, result: Result<(), SlateDBError>)
        -> (step: CleanupStep)
        requires
            old(self)@ is Idle,
        ensures
            final(self)@ == MemtableFlusherState::WritingFinal(shutdown_error(result)),
            step.replies@ == shutdown_replies(messages@, shutdown_error(result)),
            step.notices@.len() == 0,
            step.action == CleanupAction::WriteManifest,
    {
        let error = match result {
            Ok(()) => SlateDBError::Closed,
            Err(error) => error,
        };
        let mut replies: Vec<MemtableFlushReply> = Vec::new();
        let mut i: usize = 0;
        assert(replies@ =~= shutdown_replies(messages@.take(0), error));
        while i < messages.len()
            invariant
                i <= messages.len(),
                replies@ == shutdown_replies(messages@.take(i as int), error),
            decreases messages.len() - i,
        {
            proof {
                let next = messages@.take(i + 1);
                assert(next.drop_last() =~= messages@.take(i as int));
                assert(next.last() == messages@[i as int]);
            }
            match messages[i] {
                MemtableFlushMsg::CreateCheckpoint { options: _, sender } => {
                    replies.push(MemtableFlushReply::Checkpoint(sender, Err(error)));
                },
                MemtableFlushMsg::FlushImmutableMemtables { sender: Some(sender) } => {
                    replies.push(MemtableFlushReply::Flush(sender, Err(error)));
                },
                _ => {},
            }
            assert(replies@ =~= shutdown_replies(messages@.take(i + 1), error));
            i = i + 1;
        }
        assert(messages@.take(i as int) =~= messages@);
        self.state = MemtableFlusherState::WritingFinal(error);
        CleanupStep { replies, notices: Vec::new(), action: CleanupAction::WriteManifest }
    }

    /// The manifest was written for the last time, or could not be. A version that another process
    /// wrote first is loaded and written over; another failure is passed over. `frozen` holds the
    /// frozen memtables, the newest first.
    pub fn final_written(
        &mut self,
        result: Result<(), SlateDBError>,
        frozen: &VecDeque<Arc<ImmutableMemtable>>,
        stats: &DbStats,
        registry: &mut StatRegistry,
    ) -> (step: CleanupStep)
        requires
            old(self)@ is WritingFinal,
            stats.fits(crate::stats::kinds(old(registry)@)),
        ensures
            crate::stats::kinds(final(registry)@) == crate::stats::kinds(old(registry)@),
            ({
                let error = old(self)@->WritingFinal_0;
                if result == Err::<(), SlateDBError>(
                    SlateDBError::TransactionalObjectVersionExists,
                ) {
                    &&& final(self)@ == MemtableFlusherState::ReloadingFinal(error)
                    &&& final(registry)@ == crate::stats::with_added(
                        old(registry)@,
                        stats.l0_flush_manifest_retries@,
                        1,
                    )
                    &&& step.replies@.len() == 0
                    &&& step.notices@.len() == 0
                    &&& step.action == CleanupAction::LoadManifest
                } else {
                    &&& final(registry)@ == old(registry)@
                    &&& final(self)@ == MemtableFlusherState::Ended
                    &&& ends_with(frozen@, error, step)
                }
            }),
    {
        let retry = needs_manifest_retry(&result, stats, registry);
        match self.state {
            MemtableFlusherState::WritingFinal(error) => {
                if retry {
                    self.state = MemtableFlusherState::ReloadingFinal(error);
                    return CleanupStep {
                        replies: Vec::new(),
                        notices: Vec::new(),
                        action: CleanupAction::LoadManifest,
                    };
                }
                self.end(frozen, error)
            },
            _ => self.end(frozen, SlateDBError::Closed),
        }
    }

    /// The manifest was loaded before the last write, or could not be, which is passed over.
    /// `frozen` holds the frozen memtables, the newest first.
    pub fn final_loaded(
        &mut self,
        result: Result<(), SlateDBError>,
        frozen: &VecDeque<Arc<ImmutableMemtable>>,
    ) -> (step: CleanupStep)
        requires
            old(self)@ is ReloadingFinal,
        ensures
            ({
                let error = old(self)@->ReloadingFinal_0;
                match result {
                    Ok(()) => {
                        &&& final(self)@ == MemtableFlusherState::WritingFinal(error)
                        &&& step.replies@.len() == 0
                        &&& step.notices@.len() == 0
                        &&& step.action == CleanupAction::WriteManifest
                    },
                    Err(_) => {
                        &&& final(self)@ == MemtableFlusherState::Ended
                        &&& ends_with(frozen@, error, step)
                    },
                }
            }),
    {
        match self.state {
            MemtableFlusherState::ReloadingFinal(error) => {
                if result.is_ok() {
                    self.state = MemtableFlusherState::WritingFinal(error);
                    return CleanupStep {
                        replies: Vec::new(),
                        notices: Vec::new(),
                        action: CleanupAction::WriteManifest,
                    };
                }
                self.end(frozen, error)
            },
            _ => self.end(frozen, SlateDBError::Closed),
        }
    }

    /// Tells the memtables that are still in memory, and ends the task.
    fn end(&mut self, frozen: &VecDeque<Arc<ImmutableMemtable>>, error: SlateDBError) -> (step:
        CleanupStep)
        ensures
            final(self)@ == MemtableFlusherState::Ended,
            ends_with(frozen@, error, step),
    {
        self.state = MemtableFlusherState::Ended;
        CleanupStep {
            replies: Vec::new(),
            notices: shutdown_notices(frozen, error),
            action: CleanupAction::Done(Ok(())),
        }
    }
}

} // verus!
