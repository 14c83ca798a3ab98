use slatedb::db_state::{
    shutdown_notices, Checkpoint, CheckpointCreateResult, CheckpointOptions, DbState, FlushedTable,
    ImmutableMemtable, ManifestCore, SequencePoint, SequenceTracker, ShutdownNotice, SsTableHandle,
    SsTableId,
};
use slatedb::error::SlateDBError;
use std::collections::VecDeque;
use std::sync::Arc;

fn memtable(id: u64, seq: u64, tick: i64) -> Arc<ImmutableMemtable> {
    Arc::new(ImmutableMemtable {
        id,
        recent_flushed_wal_id: 40 + id,
        last_tick: tick,
        last_seq: Some(seq),
        entry_num: 1,
        entries_size_in_bytes: 10,
        sequence_tracker: SequenceTracker::new(vec![SequencePoint {
            seq,
            timestamp: tick,
        }]),
    })
}

fn table(imm_memtable: &Arc<ImmutableMemtable>) -> FlushedTable {
    FlushedTable {
        imm_memtable: Arc::clone(imm_memtable),
        sst_handle: SsTableHandle {
            id: SsTableId::Compacted(u128::from(imm_memtable.id)),
        },
        last_seq: imm_memtable.last_seq.unwrap(),
    }
}

fn state(newest_first: Vec<Arc<ImmutableMemtable>>) -> DbState {
    DbState {
        imm_memtable: VecDeque::from(newest_first),
        core: ManifestCore {
            l0: VecDeque::from(vec![SsTableHandle {
                id: SsTableId::Compacted(99),
            }]),
            replay_after_wal_id: 0,
            last_l0_clock_tick: 5,
            last_l0_seq: 2,
            recent_snapshot_min_seq: 0,
            sequence_tracker: SequenceTracker::new(vec![SequencePoint {
                seq: 2,
                timestamp: 5,
            }]),
            checkpoints: Vec::new(),
        },
    }
}

fn ids(db: &DbState) -> Vec<SsTableId> {
    db.core.l0.iter().map(|sst| sst.id).collect()
}

#[test]
fn retiring_replaces_the_oldest_memtables() {
    let (a, b, c) = (memtable(1, 3, 6), memtable(2, 4, 7), memtable(3, 5, 8));
    let mut db = state(vec![Arc::clone(&c), Arc::clone(&b), Arc::clone(&a)]);
    let batch = vec![table(&a), table(&b)];
    assert!(db.can_retire(&batch));
    assert_eq!(db.retire(&batch, None), Ok(()));
    assert_eq!(db.imm_memtable.len(), 1);
    assert_eq!(db.imm_memtable[0].id, 3);
    assert_eq!(
        ids(&db),
        vec![
            SsTableId::Compacted(2),
            SsTableId::Compacted(1),
            SsTableId::Compacted(99)
        ]
    );
    assert_eq!(db.core.replay_after_wal_id, 42);
    assert_eq!(db.core.last_l0_clock_tick, 7);
    assert_eq!(db.core.last_l0_seq, 4);
    assert_eq!(db.core.recent_snapshot_min_seq, 4);
    let seqs: Vec<u64> = db.core.sequence_tracker.points().iter().map(|p| p.seq).collect();
    assert_eq!(seqs, vec![2, 3, 4]);
}

#[test]
fn active_snapshot_holds_the_minimum_back() {
    let a = memtable(1, 3, 6);
    let mut db = state(vec![Arc::clone(&a)]);
    assert_eq!(db.retire(&vec![table(&a)], Some(1)), Ok(()));
    assert_eq!(db.core.recent_snapshot_min_seq, 1);
}

#[test]
fn batches_compose() {
    let (a, b) = (memtable(1, 3, 6), memtable(2, 4, 7));
    let queue = vec![Arc::clone(&b), Arc::clone(&a)];
    let mut once = state(queue.clone());
    let mut twice = state(queue);
    assert_eq!(once.retire(&vec![table(&a), table(&b)], None), Ok(()));
    assert_eq!(twice.retire(&vec![table(&a)], None), Ok(()));
    assert_eq!(twice.retire(&vec![table(&b)], None), Ok(()));
    assert_eq!(ids(&once), ids(&twice));
    assert_eq!(once.core.last_l0_seq, twice.core.last_l0_seq);
    assert_eq!(once.core.last_l0_clock_tick, twice.core.last_l0_clock_tick);
    assert_eq!(
        once.core.sequence_tracker.points(),
        twice.core.sequence_tracker.points()
    );
    assert_eq!(once.imm_memtable.len(), twice.imm_memtable.len());
}

#[test]
fn clock_that_goes_back_is_refused_half_way() {
    let (a, b) = (memtable(1, 3, 9), memtable(2, 4, 8));
    let mut db = state(vec![Arc::clone(&b), Arc::clone(&a)]);
    let batch = vec![table(&a), table(&b)];
    assert!(db.can_retire(&batch));
    assert_eq!(
        db.retire(&batch, None),
        Err(SlateDBError::InvalidClockTick {
            last_tick: 9,
            next_tick: 8
        })
    );
    assert_eq!(db.imm_memtable.len(), 0);
    assert_eq!(db.core.l0.len(), 3);
    assert_eq!(db.core.replay_after_wal_id, 42);
    assert_eq!(db.core.last_l0_clock_tick, 9);
    assert_eq!(db.core.last_l0_seq, 3);
}

#[test]
fn equal_clock_is_accepted() {
    let a = memtable(1, 3, 5);
    let mut db = state(vec![Arc::clone(&a)]);
    assert_eq!(db.retire(&vec![table(&a)], None), Ok(()));
    assert_eq!(db.core.last_l0_clock_tick, 5);
}

#[test]
fn only_the_oldest_memtables_can_be_retired() {
    let (a, b) = (memtable(1, 3, 6), memtable(2, 4, 7));
    let db = state(vec![Arc::clone(&b), Arc::clone(&a)]);
    assert!(db.can_retire(&vec![]));
    assert!(!db.can_retire(&vec![table(&b)]));
    assert!(!db.can_retire(&vec![table(&b), table(&a)]));
    let c = memtable(3, 5, 8);
    assert!(!db.can_retire(&vec![table(&a), table(&b), table(&c)]));
    let mut low = table(&a);
    low.last_seq = 1;
    assert!(!db.can_retire(&vec![low]));
}

#[test]
fn new_checkpoints_are_staged_with_their_answers() {
    let mut core = state(vec![]).core;
    let checkpoints = vec![
        Checkpoint {
            id: 7,
            manifest_id: 3,
        },
        Checkpoint {
            id: 8,
            manifest_id: 3,
        },
    ];
    let results = core.stage_checkpoints(&checkpoints);
    assert_eq!(core.checkpoints, checkpoints);
    assert_eq!(
        results,
        vec![
            CheckpointCreateResult {
                id: 7,
                manifest_id: 3
            },
            CheckpointCreateResult {
                id: 8,
                manifest_id: 3
            }
        ]
    );
}

#[test]
fn default_checkpoint_does_not_expire() {
    let options = CheckpointOptions::default();
    assert_eq!(options.lifetime_ms, None);
    assert_eq!(options.source, None);
}

#[test]
fn every_memtable_in_memory_is_told_at_the_end() {
    let error = SlateDBError::Closed;
    let frozen: VecDeque<Arc<ImmutableMemtable>> = VecDeque::from(vec![memtable(2, 2, 2), memtable(1, 1, 1)]);
    let notices: Vec<String> = shutdown_notices(&frozen, error)
        .into_iter()
        .map(|notice| match notice {
            ShutdownNotice::ActiveNotDurable(e) => format!("active {:?}", e),
            ShutdownNotice::NotFlushedToL0(imm, e) => format!("flush {} {:?}", imm.id, e),
            ShutdownNotice::NotDurable(imm, e) => format!("durable {} {:?}", imm.id, e),
        })
        .collect();
    assert_eq!(
        notices,
        vec![
            "active Closed",
            "flush 2 Closed",
            "durable 2 Closed",
            "flush 1 Closed",
            "durable 1 Closed"
        ]
    );
    assert_eq!(shutdown_notices(&VecDeque::new(), error).len(), 1);
}
