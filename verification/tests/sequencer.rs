use slatedb::db_state::{
    Checkpoint, CheckpointCreateResult, CheckpointOptions, DbState, ImmutableMemtable, ManifestCore,
    SequencePoint, SequenceTracker, SsTableHandle, SsTableId,
};
use slatedb::error::{BackgroundTask, SlateDBError};
use slatedb::memtable_flusher::intake::CommandIntake;
use slatedb::memtable_flusher::sequencer::{
    PendingCheckpoint, SequencerAction, SequencerCommand, SequencerEffect, SequencerPhase,
    SequencerStep, SequencerTask, UploadedMemtable,
};
use slatedb::memtable_flusher::{FlushEpoch, ReplyHandle};
use std::collections::VecDeque;
use std::sync::Arc;

#[derive(Debug, Clone, Copy, PartialEq)]
enum Event {
    Flushed(u64, u64),
    Fatal(SlateDBError),
}

/// A sequencer with the state that it works on and everything that it tells others.
struct Harness {
    db: DbState,
    task: SequencerTask,
    intake: CommandIntake,
    events: Vec<Event>,
    replies: Vec<(u64, Result<CheckpointCreateResult, SlateDBError>)>,
    flushed: Vec<u64>,
    flush_count: usize,
    durable: Vec<(u64, Result<(), SlateDBError>)>,
    durable_seq: u64,
    deleted: Vec<SsTableId>,
    /// Results of the next manifest writes, before they succeed.
    write_errors: VecDeque<SlateDBError>,
    load_errors: VecDeque<SlateDBError>,
    emit_error: Option<SlateDBError>,
    writes: usize,
    loads: usize,
    manifest_id: u64,
    exit: Option<Result<(), SlateDBError>>,
}

fn memtable(id: u64, seq: u64, tick: i64, wal_id: u64) -> Arc<ImmutableMemtable> {
    Arc::new(ImmutableMemtable {
        id,
        recent_flushed_wal_id: wal_id,
        last_tick: tick,
        last_seq: Some(seq),
        entry_num: 1,
        entries_size_in_bytes: 10,
        sequence_tracker: SequenceTracker::new(vec![SequencePoint {
            seq,
            timestamp: tick,
        }]),
    })
}

fn harness() -> Harness {
    Harness {
        db: DbState {
            imm_memtable: VecDeque::new(),
            core: ManifestCore {
                l0: VecDeque::new(),
                replay_after_wal_id: 0,
                last_l0_clock_tick: i64::MIN,
                last_l0_seq: 0,
                recent_snapshot_min_seq: 0,
                sequence_tracker: SequenceTracker::new(Vec::new()),
                checkpoints: Vec::new(),
            },
        },
        task: SequencerTask::new(),
        intake: CommandIntake::new(BackgroundTask::ParallelL0FlushSequencer),
        events: Vec::new(),
        replies: Vec::new(),
        flushed: Vec::new(),
        flush_count: 0,
        durable: Vec::new(),
        durable_seq: 0,
        deleted: Vec::new(),
        write_errors: VecDeque::new(),
        load_errors: VecDeque::new(),
        emit_error: None,
        writes: 0,
        loads: 0,
        manifest_id: 1,
        exit: None,
    }
}

impl Harness {
    fn freeze(&mut self, id: u64, seq: u64, tick: i64, wal_id: u64) -> Arc<ImmutableMemtable> {
        let imm = memtable(id, seq, tick, wal_id);
        self.db.imm_memtable.push_front(Arc::clone(&imm));
        imm
    }

    fn next_uploaded_memtable(&mut self, epoch: u64, seq: u64) -> UploadedMemtable {
        let imm = self.freeze(1000 + seq, seq, seq as i64, seq);
        let sst_id = SsTableId::Compacted(u128::from(500 + seq));
        UploadedMemtable::new(FlushEpoch(epoch), imm, sst_id, SsTableHandle { id: sst_id }, seq)
    }

    fn send(&mut self, commands: Vec<SequencerCommand>) {
        let step = self.task.receive(VecDeque::from(commands));
        self.drive(step);
    }

    fn close(&mut self) -> Result<(), SlateDBError> {
        if self.exit.is_none() {
            let step = self.task.disconnected();
            self.drive(step);
        }
        self.exit.unwrap()
    }

    fn write(&mut self, options: usize) -> Result<Vec<CheckpointCreateResult>, SlateDBError> {
        self.writes += 1;
        if let Some(error) = self.write_errors.pop_front() {
            return Err(error);
        }
        self.manifest_id += 1;
        let mut checkpoints = Vec::new();
        for i in 0..options {
            checkpoints.push(Checkpoint {
                id: u128::from(self.manifest_id) * 100 + i as u128,
                manifest_id: self.manifest_id,
            });
        }
        Ok(self.db.core.stage_checkpoints(&checkpoints))
    }

    fn drive(&mut self, first: SequencerStep) {
        let mut step = first;
        loop {
            for effect in step.effects {
                match effect {
                    SequencerEffect::NotifyFlushedToL0(imm) => self.flushed.push(imm.id),
                    SequencerEffect::CountMemtableFlush => self.flush_count += 1,
                    SequencerEffect::NotifyDurable(imm, result) => {
                        self.durable.push((imm.id, result))
                    }
                    SequencerEffect::AdvanceDurableSeq(seq) => self.durable_seq = seq,
                    SequencerEffect::ReplyCheckpoint(sender, result) => {
                        self.replies.push((sender.0, result))
                    }
                    SequencerEffect::Poison(error) => self.intake.poison(error),
                    SequencerEffect::WriteClosedResult(error) => {
                        self.intake.write_closed_result(Err(error))
                    }
                    SequencerEffect::EmitFatal(error) => self.events.push(Event::Fatal(error)),
                }
            }
            step = match step.action {
                SequencerAction::Receive => return,
                SequencerAction::Exit(result) => {
                    self.exit = Some(result);
                    return;
                }
                SequencerAction::Proceed => self.task.proceed(),
                SequencerAction::Retire(tables) => {
                    assert!(self.db.can_retire(&tables));
                    let result = self.db.retire(&tables, None);
                    self.task.retired(result)
                }
                SequencerAction::WriteManifest(options) => {
                    let result = self.write(options.len());
                    self.task.written(result)
                }
                SequencerAction::LoadManifest => {
                    self.loads += 1;
                    let result = match self.load_errors.pop_front() {
                        Some(error) => Err(error),
                        None => Ok(()),
                    };
                    self.task.loaded(result)
                }
                SequencerAction::DeleteSsts(ids) => {
                    self.deleted.extend(ids);
                    self.task.deleted()
                }
                SequencerAction::EmitFlushed {
                    through_epoch,
                    through_seq,
                } => {
                    let result = match self.emit_error {
                        Some(error) => Err(error),
                        None => {
                            self.events.push(Event::Flushed(through_epoch.0, through_seq));
                            Ok(())
                        }
                    };
                    self.task.emitted(result)
                }
            };
        }
    }
}

fn checkpoint(through_epoch: Option<u64>, sender: u64) -> SequencerCommand {
    SequencerCommand::CreateCheckpoint(PendingCheckpoint {
        through_epoch: through_epoch.map(FlushEpoch),
        options: CheckpointOptions::default(),
        sender: ReplyHandle(sender),
    })
}

#[test]
fn should_emit_flushed_event_for_contiguous_uploads() {
    let mut harness = harness();
    let uploaded = harness.next_uploaded_memtable(1, 1);
    harness.send(vec![SequencerCommand::Uploaded(uploaded)]);
    assert_eq!(harness.events, vec![Event::Flushed(1, 1)]);
    assert_eq!(harness.close(), Ok(()));
}

#[test]
fn should_wait_for_missing_epoch_before_flushing() {
    let mut harness = harness();
    let uploaded1 = harness.next_uploaded_memtable(1, 1);
    let uploaded2 = harness.next_uploaded_memtable(2, 2);
    harness.send(vec![SequencerCommand::Uploaded(uploaded2)]);
    assert_eq!(harness.events, vec![]);
    harness.send(vec![SequencerCommand::Uploaded(uploaded1)]);
    assert_eq!(harness.events, vec![Event::Flushed(2, 2)]);
    assert_eq!(harness.close(), Ok(()));
}

#[test]
fn should_create_checkpoint_immediately_when_no_barrier_is_required() {
    let mut harness = harness();
    let before = harness.db.core.checkpoints.len();
    harness.send(vec![checkpoint(None, 1)]);
    assert_eq!(harness.db.core.checkpoints.len(), before + 1);
    assert_eq!(harness.replies.len(), 1);
    let created = harness.replies[0].1.unwrap();
    assert!(created.manifest_id > 0);
    assert_eq!(harness.close(), Ok(()));
}

#[test]
fn should_wait_for_checkpoint_barrier_and_attach_to_flush_batch() {
    let mut harness = harness();
    let uploaded = harness.next_uploaded_memtable(1, 1);
    let before = harness.db.core.checkpoints.len();
    harness.send(vec![checkpoint(Some(1), 1)]);
    assert_eq!(harness.events, vec![]);
    assert_eq!(harness.replies, vec![]);
    harness.send(vec![SequencerCommand::Uploaded(uploaded)]);
    assert_eq!(harness.events, vec![Event::Flushed(1, 1)]);
    assert_eq!(harness.db.core.checkpoints.len(), before + 1);
    assert_eq!(harness.replies.len(), 1);
    assert!(harness.replies[0].1.unwrap().manifest_id > 0);
    // The checkpoint went into the same write as the batch.
    assert_eq!(harness.writes, 1);
    assert_eq!(harness.close(), Ok(()));
}

#[test]
fn should_emit_fatal_event_when_sequencer_is_fenced() {
    let mut harness = harness();
    let uploaded = harness.next_uploaded_memtable(1, 1);
    harness.write_errors.push_back(SlateDBError::Fenced);
    harness.send(vec![SequencerCommand::Uploaded(uploaded)]);
    assert_eq!(harness.events, vec![Event::Fatal(SlateDBError::Fenced)]);
    let refused = harness.intake.check_admission().unwrap_err();
    assert!(matches!(refused, SlateDBError::Fenced));
    assert_eq!(harness.deleted, vec![SsTableId::Compacted(501)]);
    assert_eq!(harness.durable, vec![(1001, Err(SlateDBError::Fenced))]);
    assert_eq!(harness.loads, 1);
    assert_eq!(harness.exit, Some(Err(SlateDBError::Fenced)));
    assert_eq!(harness.task.phase(), SequencerPhase::Stopped);
}

#[test]
fn contiguous_prefix_is_one_manifest_write() {
    let mut harness = harness();
    let mut uploads: Vec<UploadedMemtable> = (1..=5)
        .map(|n| harness.next_uploaded_memtable(n, n))
        .collect();
    let fifth = uploads.pop().unwrap();
    let _fourth = uploads.pop().unwrap();
    let third = uploads.pop().unwrap();
    let second = uploads.pop().unwrap();
    let first = uploads.pop().unwrap();
    harness.send(vec![
        SequencerCommand::Uploaded(third),
        SequencerCommand::Uploaded(fifth),
        SequencerCommand::Uploaded(second),
        SequencerCommand::Uploaded(first),
    ]);
    assert_eq!(harness.events, vec![Event::Flushed(3, 3)]);
    assert_eq!(harness.writes, 1);
    assert_eq!(harness.flushed, vec![1001, 1002, 1003]);
    assert_eq!(harness.flush_count, 3);
    assert_eq!(
        harness.durable,
        vec![(1001, Ok(())), (1002, Ok(())), (1003, Ok(()))]
    );
    assert_eq!(harness.durable_seq, 3);
    assert_eq!(harness.task.durable_through(), Some((FlushEpoch(3), 3)));
    // Level 0 holds the newest table first, and two memtables are still frozen.
    let ids: Vec<SsTableId> = harness.db.core.l0.iter().map(|sst| sst.id).collect();
    assert_eq!(
        ids,
        vec![
            SsTableId::Compacted(503),
            SsTableId::Compacted(502),
            SsTableId::Compacted(501)
        ]
    );
    assert_eq!(harness.db.imm_memtable.len(), 2);
}

#[test]
fn second_upload_of_a_waiting_epoch_is_fatal() {
    let mut harness = harness();
    let _first = harness.next_uploaded_memtable(1, 1);
    let second = harness.next_uploaded_memtable(2, 2);
    let again = harness.next_uploaded_memtable(2, 3);
    harness.send(vec![SequencerCommand::Uploaded(second), checkpoint(Some(2), 9)]);
    harness.send(vec![SequencerCommand::Uploaded(again), checkpoint(None, 10)]);
    assert_eq!(harness.events, vec![Event::Fatal(SlateDBError::InvalidDBState)]);
    assert_eq!(harness.exit, Some(Err(SlateDBError::InvalidDBState)));
    assert_eq!(
        harness.replies,
        vec![
            (10, Err(SlateDBError::ReadChannelError)),
            (9, Err(SlateDBError::ReadChannelError))
        ]
    );
}

#[test]
fn another_version_is_loaded_and_written_over() {
    let mut harness = harness();
    let uploaded = harness.next_uploaded_memtable(1, 1);
    harness
        .write_errors
        .push_back(SlateDBError::TransactionalObjectVersionExists);
    harness
        .write_errors
        .push_back(SlateDBError::TransactionalObjectVersionExists);
    harness.send(vec![SequencerCommand::Uploaded(uploaded)]);
    assert_eq!(harness.writes, 3);
    assert_eq!(harness.loads, 2);
    assert_eq!(harness.events, vec![Event::Flushed(1, 1)]);
}

#[test]
fn failed_load_ends_a_batch_without_a_retry() {
    let mut harness = harness();
    let uploaded = harness.next_uploaded_memtable(1, 1);
    harness
        .write_errors
        .push_back(SlateDBError::TransactionalObjectVersionExists);
    harness
        .load_errors
        .push_back(SlateDBError::TransactionalObjectVersionExists);
    harness.send(vec![SequencerCommand::Uploaded(uploaded), checkpoint(Some(1), 4)]);
    let error = SlateDBError::TransactionalObjectVersionExists;
    assert_eq!(harness.writes, 1);
    assert_eq!(harness.durable, vec![(1001, Err(error))]);
    assert_eq!(harness.events, vec![Event::Fatal(error)]);
    assert_eq!(harness.replies, vec![(4, Err(SlateDBError::ReadChannelError))]);
}

#[test]
fn failed_write_refuses_the_attached_checkpoints() {
    let mut harness = harness();
    let uploaded = harness.next_uploaded_memtable(1, 1);
    harness.write_errors.push_back(SlateDBError::Storage(12));
    harness.send(vec![checkpoint(Some(1), 5), checkpoint(Some(2), 6)]);
    harness.send(vec![SequencerCommand::Uploaded(uploaded)]);
    assert_eq!(
        harness.replies,
        vec![
            (5, Err(SlateDBError::Storage(12))),
            (6, Err(SlateDBError::ReadChannelError))
        ]
    );
    assert_eq!(harness.deleted, vec![]);
    assert_eq!(harness.exit, Some(Err(SlateDBError::Storage(12))));
}

#[test]
fn failed_load_after_fencing_is_told_to_the_batch() {
    let mut harness = harness();
    let uploaded = harness.next_uploaded_memtable(1, 1);
    harness.write_errors.push_back(SlateDBError::Fenced);
    harness.load_errors.push_back(SlateDBError::Storage(2));
    harness.send(vec![checkpoint(Some(1), 7), SequencerCommand::Uploaded(uploaded)]);
    assert_eq!(harness.durable, vec![(1001, Err(SlateDBError::Fenced))]);
    assert_eq!(harness.replies, vec![(7, Err(SlateDBError::Fenced))]);
    assert_eq!(harness.events, vec![Event::Fatal(SlateDBError::Storage(2))]);
    assert_eq!(harness.deleted.len(), 1);
    assert_eq!(harness.exit, Some(Err(SlateDBError::Storage(2))));
}

#[test]
fn clock_that_goes_back_is_fatal() {
    let mut harness = harness();
    let first = harness.freeze(1, 1, 20, 1);
    let second = harness.freeze(2, 2, 10, 2);
    let id1 = SsTableId::Compacted(1);
    let id2 = SsTableId::Compacted(2);
    harness.send(vec![
        SequencerCommand::Uploaded(UploadedMemtable::new(
            FlushEpoch(1),
            first,
            id1,
            SsTableHandle { id: id1 },
            1,
        )),
        SequencerCommand::Uploaded(UploadedMemtable::new(
            FlushEpoch(2),
            second,
            id2,
            SsTableHandle { id: id2 },
            2,
        )),
    ]);
    let error = SlateDBError::InvalidClockTick {
        last_tick: 20,
        next_tick: 10,
    };
    assert_eq!(harness.events, vec![Event::Flushed(1, 1), Event::Fatal(error)]);
    assert_eq!(harness.db.core.last_l0_clock_tick, 20);
    assert_eq!(harness.db.core.last_l0_seq, 1);
}

#[test]
fn failed_checkpoint_is_answered_and_fatal() {
    let mut harness = harness();
    harness.load_errors.push_back(SlateDBError::Storage(5));
    harness.send(vec![checkpoint(None, 1), checkpoint(None, 2)]);
    assert_eq!(
        harness.replies,
        vec![
            (1, Err(SlateDBError::Storage(5))),
            (2, Err(SlateDBError::ReadChannelError))
        ]
    );
    assert_eq!(harness.exit, Some(Err(SlateDBError::Storage(5))));
}

#[test]
fn checkpoint_retries_after_another_version() {
    let mut harness = harness();
    harness
        .write_errors
        .push_back(SlateDBError::TransactionalObjectVersionExists);
    harness.send(vec![checkpoint(None, 1)]);
    assert_eq!(harness.loads, 2);
    assert_eq!(harness.writes, 2);
    assert!(harness.replies[0].1.is_ok());
    harness.write_errors.push_back(SlateDBError::Fenced);
    harness.send(vec![checkpoint(None, 2)]);
    assert_eq!(harness.replies[1], (2, Err(SlateDBError::Fenced)));
    assert_eq!(harness.deleted, vec![]);
}

#[test]
fn failed_event_is_fatal() {
    let mut harness = harness();
    let uploaded = harness.next_uploaded_memtable(1, 1);
    harness.emit_error = Some(SlateDBError::Closed);
    harness.send(vec![SequencerCommand::Uploaded(uploaded)]);
    assert_eq!(harness.events, vec![Event::Fatal(SlateDBError::Closed)]);
    assert_eq!(harness.durable, vec![(1001, Ok(()))]);
    assert_eq!(harness.exit, Some(Err(SlateDBError::Closed)));
}

#[test]
fn shutdown_writes_the_manifest_and_drops_waiting_checkpoints() {
    let mut harness = harness();
    harness.send(vec![checkpoint(Some(3), 8)]);
    harness
        .write_errors
        .push_back(SlateDBError::TransactionalObjectVersionExists);
    assert_eq!(harness.close(), Ok(()));
    assert_eq!(harness.writes, 2);
    assert_eq!(harness.loads, 1);
    assert_eq!(harness.replies, vec![(8, Err(SlateDBError::ReadChannelError))]);
    assert_eq!(harness.events, vec![]);
}

#[test]
fn shutdown_reports_a_failed_write_without_poison() {
    let mut harness = harness();
    harness.write_errors.push_back(SlateDBError::Fenced);
    assert_eq!(harness.close(), Err(SlateDBError::Fenced));
    assert_eq!(harness.events, vec![]);
    assert_eq!(harness.intake.check_admission(), Ok(()));
    let mut reloading = harness_with_final_load_error();
    assert_eq!(reloading.close(), Err(SlateDBError::Storage(1)));
}

fn harness_with_final_load_error() -> Harness {
    let mut harness = harness();
    harness
        .write_errors
        .push_back(SlateDBError::TransactionalObjectVersionExists);
    harness.load_errors.push_back(SlateDBError::Storage(1));
    harness
}

#[test]
fn every_checkpoint_request_is_answered_once() {
    let mut harness = harness();
    let first = harness.next_uploaded_memtable(1, 1);
    let second = harness.next_uploaded_memtable(2, 2);
    harness.send(vec![
        checkpoint(Some(2), 1),
        checkpoint(None, 2),
        SequencerCommand::Uploaded(first),
        checkpoint(Some(1), 3),
        checkpoint(Some(9), 4),
    ]);
    harness.send(vec![SequencerCommand::Uploaded(second), checkpoint(Some(8), 5)]);
    assert_eq!(harness.close(), Ok(()));
    let mut answered: Vec<u64> = harness.replies.iter().map(|reply| reply.0).collect();
    answered.sort();
    assert_eq!(answered, vec![1, 2, 3, 4, 5]);
    for (sender, result) in &harness.replies {
        assert_eq!(result.is_ok(), *sender <= 3);
    }
}
