use slatedb::db_state::{
    Checkpoint, CheckpointCreateResult, CheckpointOptions, DbState, ImmutableMemtable, ManifestCore,
    SequenceTracker, SsTableHandle, SsTableId,
};
use slatedb::error::{BackgroundTask, SlateDBError};
use slatedb::memtable_flusher::flusher::{
    FlushResult, FlushTarget, FlusherAction, FlusherEffect, FlusherPhase, FlusherStep,
    OrchestratorCommand, OrchestratorTask,
};
use slatedb::memtable_flusher::intake::CommandIntake;
use slatedb::memtable_flusher::sequencer::{
    PendingCheckpoint, SequencerAction, SequencerCommand, SequencerEffect, SequencerStep,
    SequencerTask, UploadedMemtable,
};
use slatedb::memtable_flusher::{FlushEpoch, ReplyHandle};
use std::collections::VecDeque;
use std::sync::Arc;

#[derive(Debug)]
enum Event {
    Uploaded(UploadedMemtable),
    Flushed(FlushEpoch, u64),
    Fatal(SlateDBError),
}

/// An orchestrator and a sequencer, with an uploader that uploads whatever it is given.
struct Harness {
    db: DbState,
    task: OrchestratorTask,
    sequencer: SequencerTask,
    intake: CommandIntake,
    /// What the orchestrator has not been told yet.
    events: VecDeque<Event>,
    /// The number of tables that the manifest reader sees; without it the local state counts.
    remote_l0: Option<usize>,
    persisted_seq: u64,
    wal_flushes: usize,
    wal_error: Option<SlateDBError>,
    refresh_error: Option<SlateDBError>,
    submit_error: Option<SlateDBError>,
    upload_error: Option<SlateDBError>,
    /// Uploads are held back as long as this is set.
    hold_uploads: bool,
    held: Vec<UploadedMemtable>,
    submitted: Vec<u64>,
    next_sst: u128,
    manifest_id: u64,
    flush_replies: Vec<(u64, Result<FlushResult, SlateDBError>)>,
    checkpoint_replies: Vec<(u64, Result<CheckpointCreateResult, SlateDBError>)>,
    checkpoint_result: Option<Result<CheckpointCreateResult, SlateDBError>>,
    uploader_closed: usize,
    sequencer_closed: usize,
    uploader_close_error: Option<SlateDBError>,
    memtables_failed: Option<SlateDBError>,
    exit: Option<Result<(), SlateDBError>>,
}

fn harness_with(l0_max_ssts: usize, wal_enabled: bool) -> Harness {
    Harness {
        db: DbState {
            imm_memtable: VecDeque::new(),
            core: ManifestCore {
                l0: VecDeque::new(),
                replay_after_wal_id: 0,
                last_l0_clock_tick: i64::MIN,
                last_l0_seq: 0,
                recent_snapshot_min_seq: 0,
                sequence_tracker: SequenceTracker::new(Vec::new()),
                checkpoints: Vec::new(),
            },
        },
        task: OrchestratorTask::new(l0_max_ssts, wal_enabled),
        sequencer: SequencerTask::new(),
        intake: CommandIntake::new(BackgroundTask::MemtableFlusher),
        events: VecDeque::new(),
        remote_l0: Some(0),
        persisted_seq: u64::MAX,
        wal_flushes: 0,
        wal_error: None,
        refresh_error: None,
        submit_error: None,
        upload_error: None,
        hold_uploads: false,
        held: Vec::new(),
        submitted: Vec::new(),
        next_sst: 1,
        manifest_id: 1,
        flush_replies: Vec::new(),
        checkpoint_replies: Vec::new(),
        checkpoint_result: None,
        uploader_closed: 0,
        sequencer_closed: 0,
        uploader_close_error: None,
        memtables_failed: None,
        exit: None,
    }
}

fn harness() -> Harness {
    harness_with(8, true)
}

impl Harness {
    fn freeze(&mut self, seq: u64, wal_id: u64) {
        self.db.imm_memtable.push_front(Arc::new(ImmutableMemtable {
            id: 100 + seq,
            recent_flushed_wal_id: wal_id,
            last_tick: seq as i64,
            last_seq: Some(seq),
            entry_num: 1,
            entries_size_in_bytes: 10,
            sequence_tracker: SequenceTracker::new(Vec::new()),
        }));
    }

    fn flush(&mut self, target: FlushTarget, sender: u64) {
        self.command(OrchestratorCommand::Flush {
            target,
            sender: Some(ReplyHandle(sender)),
        });
    }

    fn checkpoint(&mut self, target: FlushTarget, sender: u64) {
        self.command(OrchestratorCommand::CreateCheckpoint {
            target,
            options: CheckpointOptions::default(),
            sender: ReplyHandle(sender),
        });
    }

    fn command(&mut self, command: OrchestratorCommand) {
        assert_eq!(self.intake.check_admission(), Ok(()));
        let step = self.task.command(command, &self.db.imm_memtable);
        self.drive(step);
    }

    fn tick(&mut self) {
        let step = self.task.tick();
        self.drive(step);
    }

    fn close(&mut self) -> Result<(), SlateDBError> {
        self.intake.close();
        if self.exit.is_none() {
            let step = self.task.disconnected();
            self.drive(step);
        }
        self.exit.unwrap()
    }

    /// Runs the orchestrator until it waits and there is nothing to tell it.
    fn drive(&mut self, first: FlusherStep) {
        let mut step = first;
        loop {
            for effect in step.effects {
                match effect {
                    FlusherEffect::ReplyFlush(sender, result) => {
                        self.flush_replies.push((sender.0, result))
                    }
                    FlusherEffect::ReplyCheckpoint(sender, result) => {
                        self.checkpoint_replies.push((sender.0, result))
                    }
                    FlusherEffect::Poison(error) => self.intake.poison(error),
                    FlusherEffect::WriteClosedResult(error) => {
                        self.intake.write_closed_result(Err(error))
                    }
                    FlusherEffect::FailMemtables(error) => self.memtables_failed = Some(error),
                }
            }
            step = match step.action {
                FlusherAction::Select => match self.events.pop_front() {
                    None => return,
                    Some(Event::Uploaded(uploaded)) => self.task.uploaded(uploaded),
                    Some(Event::Flushed(epoch, seq)) => self.task.flushed(epoch, seq),
                    Some(Event::Fatal(error)) => self.task.failed(error),
                },
                FlusherAction::RefreshManifest => {
                    let l0_len = match self.remote_l0 {
                        Some(remote) => remote,
                        None => self.db.core.l0.len(),
                    };
                    let result = match self.refresh_error {
                        Some(error) => Err(error),
                        None => Ok(l0_len),
                    };
                    let persisted = self.persisted_seq;
                    self.task.refreshed(result, &self.db.imm_memtable, persisted)
                }
                FlusherAction::FlushWals => {
                    self.wal_flushes += 1;
                    let result = match self.wal_error {
                        Some(error) => Err(error),
                        None => Ok(()),
                    };
                    self.task.wals_flushed(result)
                }
                FlusherAction::SubmitUpload {
                    epoch,
                    imm_memtable,
                } => {
                    let result = match self.submit_error {
                        Some(error) => Err(error),
                        None => {
                            self.submitted.push(epoch.0);
                            self.upload(epoch, imm_memtable);
                            Ok(())
                        }
                    };
                    self.task.submitted(result, self.persisted_seq)
                }
                FlusherAction::NotifySequencer(uploaded) => {
                    self.notify_uploaded(uploaded);
                    self.task.notified(Ok(()))
                }
                FlusherAction::CreateCheckpoint(options) => {
                    let result = self.create_checkpoint(options);
                    self.task.checkpoint_created(result)
                }
                FlusherAction::CloseUploader => {
                    self.uploader_closed += 1;
                    let result = match self.uploader_close_error {
                        Some(error) => Err(error),
                        None => Ok(()),
                    };
                    self.task.uploader_closed(result)
                }
                FlusherAction::CloseSequencer => {
                    self.sequencer_closed += 1;
                    self.task.sequencer_closed(Ok(()))
                }
                FlusherAction::Exit(result) => {
                    self.exit = Some(result);
                    return;
                }
            };
        }
    }

    fn upload(&mut self, epoch: FlushEpoch, imm_memtable: Arc<ImmutableMemtable>) {
        if let Some(error) = self.upload_error {
            self.events.push_back(Event::Fatal(error));
            return;
        }
        let id = SsTableId::Compacted(self.next_sst);
        self.next_sst += 1;
        let last_seq = imm_memtable.last_seq.unwrap();
        let uploaded =
            UploadedMemtable::new(epoch, imm_memtable, id, SsTableHandle { id }, last_seq);
        if self.hold_uploads {
            self.held.push(uploaded);
        } else {
            self.events.push_back(Event::Uploaded(uploaded));
        }
    }

    fn release_uploads(&mut self) {
        self.hold_uploads = false;
        while let Some(uploaded) = self.held.pop() {
            let step = self.task.uploaded(uploaded);
            self.drive(step);
        }
    }

    fn notify_uploaded(&mut self, uploaded: UploadedMemtable) {
        let step = self
            .sequencer
            .receive(VecDeque::from(vec![SequencerCommand::Uploaded(uploaded)]));
        self.drive_sequencer(step);
    }

    fn create_checkpoint(
        &mut self,
        options: CheckpointOptions,
    ) -> Result<CheckpointCreateResult, SlateDBError> {
        let command = SequencerCommand::CreateCheckpoint(PendingCheckpoint {
            through_epoch: None,
            options,
            sender: ReplyHandle(0),
        });
        let step = self.sequencer.receive(VecDeque::from(vec![command]));
        self.drive_sequencer(step);
        self.checkpoint_result.take().unwrap()
    }

    fn drive_sequencer(&mut self, first: SequencerStep) {
        let mut step = first;
        loop {
            for effect in step.effects {
                if let SequencerEffect::ReplyCheckpoint(_, result) = effect {
                    self.checkpoint_result = Some(result);
                }
            }
            step = match step.action {
                SequencerAction::Receive | SequencerAction::Exit(_) => return,
                SequencerAction::Proceed => self.sequencer.proceed(),
                SequencerAction::Retire(tables) => {
                    assert!(self.db.can_retire(&tables));
                    let result = self.db.retire(&tables, None);
                    if let Some(remote) = self.remote_l0 {
                        self.remote_l0 = Some(remote + tables.len());
                    }
                    self.sequencer.retired(result)
                }
                SequencerAction::WriteManifest(options) => {
                    self.manifest_id += 1;
                    let checkpoints = options
                        .iter()
                        .map(|_| Checkpoint {
                            id: u128::from(self.manifest_id),
                            manifest_id: self.manifest_id,
                        })
                        .collect();
                    let results = self.db.core.stage_checkpoints(&checkpoints);
                    self.sequencer.written(Ok(results))
                }
                SequencerAction::LoadManifest => self.sequencer.loaded(Ok(())),
                SequencerAction::DeleteSsts(_) => self.sequencer.deleted(),
                SequencerAction::EmitFlushed {
                    through_epoch,
                    through_seq,
                } => {
                    self.events.push_back(Event::Flushed(through_epoch, through_seq));
                    self.sequencer.emitted(Ok(()))
                }
            };
        }
    }
}

#[test]
fn best_effort_returns_immediately() {
    let mut harness = harness();
    harness.freeze(1, 11);
    harness.flush(FlushTarget::BestEffort, 1);
    let result = harness.flush_replies[0].1.unwrap();
    assert_eq!(result.durable_through_wal_id, None);
    assert_eq!(result.durable_through_seq, None);
    assert_eq!(harness.close(), Ok(()));
}

#[test]
fn through_wal_id_waits_for_durable_upload() {
    let mut harness = harness();
    harness.freeze(1, 11);
    harness.hold_uploads = true;
    harness.flush(FlushTarget::ThroughWalId(11), 1);
    assert_eq!(harness.flush_replies, vec![]);
    harness.release_uploads();
    let result = harness.flush_replies[0].1.unwrap();
    assert_eq!(result.durable_through_wal_id, Some(11));
    assert_eq!(result.durable_through_seq, Some(1));
    assert_eq!(harness.close(), Ok(()));
}

#[test]
fn through_current_imm_waits_for_durable_upload() {
    let mut harness = harness();
    harness.freeze(1, 0);
    harness.freeze(2, 0);
    harness.flush(FlushTarget::ThroughCurrentImm, 1);
    let result = harness.flush_replies[0].1.unwrap();
    assert_eq!(result.durable_through_wal_id, Some(0));
    assert_eq!(result.durable_through_seq, Some(2));
    assert_eq!(harness.close(), Ok(()));
}

#[test]
fn should_resolve_multiple_flush_waiters_on_one_durable_advance() {
    let mut harness = harness();
    harness.freeze(1, 15);
    harness.hold_uploads = true;
    harness.flush(FlushTarget::ThroughWalId(15), 1);
    harness.flush(FlushTarget::ThroughWalId(15), 2);
    assert_eq!(harness.flush_replies, vec![]);
    harness.release_uploads();
    assert_eq!(harness.flush_replies.len(), 2);
    let first = harness.flush_replies[0].1.unwrap();
    let second = harness.flush_replies[1].1.unwrap();
    assert_eq!(first.durable_through_wal_id, Some(15));
    assert_eq!(first.durable_through_seq, Some(1));
    assert_eq!(second, first);
    assert_eq!(harness.close(), Ok(()));
}

#[test]
fn checkpoint_current_imm_waits_for_flush_barrier() {
    let mut harness = harness();
    harness.freeze(1, 0);
    let before = harness.db.core.checkpoints.len();
    harness.checkpoint(FlushTarget::ThroughCurrentImm, 1);
    let checkpoint = harness.checkpoint_replies[0].1.unwrap();
    assert!(checkpoint.manifest_id > 0);
    assert_eq!(harness.db.core.checkpoints.len(), before + 1);
    // The memtable was retired before the checkpoint was created.
    assert_eq!(harness.db.imm_memtable.len(), 0);
    assert_eq!(harness.close(), Ok(()));
}

#[test]
fn checkpoint_all_waits_for_flush_barrier() {
    let mut harness = harness();
    harness.freeze(1, 21);
    let before = harness.db.core.checkpoints.len();
    harness.checkpoint(FlushTarget::ThroughWalId(21), 1);
    let checkpoint = harness.checkpoint_replies[0].1.unwrap();
    assert!(checkpoint.manifest_id > 0);
    assert_eq!(harness.db.core.checkpoints.len(), before + 1);
    assert_eq!(harness.close(), Ok(()));
}

#[test]
fn checkpoint_all_waits_for_manifest_refresh_when_l0_is_full() {
    let mut harness = harness_with(1, true);
    harness.remote_l0 = Some(1);
    harness.freeze(1, 61);
    let before = harness.db.core.checkpoints.len();
    harness.checkpoint(FlushTarget::ThroughWalId(61), 1);
    harness.tick();
    assert_eq!(harness.checkpoint_replies, vec![]);
    assert_eq!(harness.db.core.checkpoints.len(), before);

    harness.remote_l0 = Some(0);
    harness.tick();
    let checkpoint = harness.checkpoint_replies[0].1.unwrap();
    assert!(checkpoint.manifest_id > 0);
    assert_eq!(harness.db.core.checkpoints.len(), before + 1);
    assert_eq!(harness.close(), Ok(()));
}

#[test]
fn fatal_upload_failure_propagates_to_flush_waiter() {
    let mut harness = harness();
    harness.freeze(1, 31);
    harness.upload_error = Some(SlateDBError::Storage(77));
    harness.flush(FlushTarget::ThroughWalId(31), 1);
    let err = harness.flush_replies[0].1.unwrap_err();
    assert!(!matches!(err, SlateDBError::Closed));
    assert_eq!(err, SlateDBError::Storage(77));
    let close_result = harness.close();
    assert!(close_result.is_err());
}

#[test]
fn should_wait_for_manifest_refresh_before_dispatching_when_l0_is_full() {
    let mut harness = harness_with(1, true);
    harness.remote_l0 = Some(1);
    harness.freeze(1, 41);
    harness.flush(FlushTarget::ThroughWalId(41), 1);
    harness.tick();
    assert_eq!(harness.flush_replies, vec![]);
    assert_eq!(harness.submitted, vec![]);

    harness.remote_l0 = Some(0);
    harness.tick();
    let result = harness.flush_replies[0].1.unwrap();
    assert_eq!(result.durable_through_wal_id, Some(41));
    assert_eq!(result.durable_through_seq, Some(1));
    assert_eq!(harness.close(), Ok(()));
}

#[test]
fn should_fallback_to_local_l0_tracking_when_manifest_reader_is_absent() {
    let mut harness = harness_with(1, true);
    harness.remote_l0 = None;
    harness.db.core.l0.push_front(SsTableHandle {
        id: SsTableId::Compacted(900),
    });
    harness.freeze(1, 71);
    harness.flush(FlushTarget::ThroughWalId(71), 1);
    harness.tick();
    assert_eq!(harness.flush_replies, vec![]);

    harness.db.core.l0.clear();
    harness.tick();
    let result = harness.flush_replies[0].1.unwrap();
    assert_eq!(result.durable_through_wal_id, Some(71));
    assert_eq!(result.durable_through_seq, Some(1));
    assert_eq!(harness.close(), Ok(()));
}

#[test]
fn through_wal_id_covers_every_memtable_with_that_wal_id() {
    // Without a WAL all memtables have one WAL id; the first durable one is not enough.
    let mut harness = harness_with(1, false);
    harness.freeze(1, 0);
    harness.flush(FlushTarget::BestEffort, 1);
    assert_eq!(harness.db.imm_memtable.len(), 0);
    harness.freeze(2, 0);
    harness.flush(FlushTarget::ThroughWalId(0), 2);
    assert_eq!(harness.flush_replies.len(), 1);
    harness.remote_l0 = Some(0);
    harness.tick();
    assert_eq!(
        harness.flush_replies[1],
        (
            2,
            Ok(FlushResult {
                durable_through_wal_id: Some(0),
                durable_through_seq: Some(2)
            })
        )
    );
}

#[test]
fn through_current_imm_without_memtables_returns_immediately() {
    let mut harness = harness();
    harness.flush(FlushTarget::ThroughCurrentImm, 1);
    harness.flush(FlushTarget::CurrentDurable, 2);
    let nothing = FlushResult {
        durable_through_wal_id: None,
        durable_through_seq: None,
    };
    assert_eq!(harness.flush_replies, vec![(1, Ok(nothing)), (2, Ok(nothing))]);
    harness.checkpoint(FlushTarget::CurrentDurable, 3);
    harness.checkpoint(FlushTarget::ThroughCurrentImm, 4);
    harness.checkpoint(FlushTarget::BestEffort, 5);
    assert_eq!(harness.checkpoint_replies.len(), 3);
    assert_eq!(harness.db.core.checkpoints.len(), 3);
}

#[test]
fn through_wal_id_without_memtables_returns_immediately() {
    let mut harness = harness();
    harness.flush(FlushTarget::ThroughWalId(5), 1);
    let nothing = FlushResult {
        durable_through_wal_id: None,
        durable_through_seq: None,
    };
    assert_eq!(harness.flush_replies, vec![(1, Ok(nothing))]);
    harness.checkpoint(FlushTarget::ThroughWalId(5), 2);
    assert_eq!(harness.checkpoint_replies.len(), 1);
    assert_eq!(harness.db.core.checkpoints.len(), 1);
}

#[test]
fn through_wal_id_beyond_all_memtables_waits_for_these_only() {
    let mut harness = harness();
    harness.hold_uploads = true;
    harness.freeze(1, 3);
    harness.flush(FlushTarget::ThroughWalId(9), 1);
    assert_eq!(harness.flush_replies, vec![]);
    harness.release_uploads();
    let durable = FlushResult {
        durable_through_wal_id: Some(3),
        durable_through_seq: Some(1),
    };
    assert_eq!(harness.flush_replies, vec![(1, Ok(durable))]);
    // A memtable behind the target is not waited for.
    harness.hold_uploads = true;
    harness.freeze(2, 10);
    harness.flush(FlushTarget::ThroughWalId(9), 2);
    assert_eq!(harness.flush_replies[1], (2, Ok(durable)));
}

#[test]
fn registering_again_changes_nothing() {
    let mut harness = harness();
    harness.hold_uploads = true;
    harness.freeze(1, 1);
    harness.freeze(2, 2);
    harness.tick();
    harness.tick();
    harness.flush(FlushTarget::BestEffort, 1);
    assert_eq!(harness.submitted, vec![1, 2]);
    let mut task = OrchestratorTask::new(8, false);
    task.register_new_imm_memtables(&harness.db.imm_memtable);
    assert_eq!(task.epochs_left(), u64::MAX - 3);
    task.register_new_imm_memtables(&harness.db.imm_memtable);
    assert_eq!(task.epochs_left(), u64::MAX - 3);
}

#[test]
fn scheduled_flush_answers_nobody() {
    let mut harness = harness();
    harness.freeze(1, 5);
    harness.command(OrchestratorCommand::Flush {
        target: FlushTarget::ThroughWalId(5),
        sender: None,
    });
    assert_eq!(harness.flush_replies, vec![]);
    assert_eq!(harness.db.imm_memtable.len(), 0);
}

#[test]
fn uploads_in_flight_count_against_level_0() {
    let mut harness = harness_with(2, true);
    harness.hold_uploads = true;
    for seq in 1..=4 {
        harness.freeze(seq, seq);
    }
    harness.flush(FlushTarget::BestEffort, 1);
    assert_eq!(harness.submitted, vec![1, 2]);
    harness.tick();
    assert_eq!(harness.submitted, vec![1, 2]);
    // Uploads come back in another order, and are retired in the order of freezing.
    harness.release_uploads();
    assert_eq!(harness.submitted, vec![1, 2]);
    assert_eq!(harness.db.imm_memtable.len(), 2);
    harness.remote_l0 = Some(1);
    harness.tick();
    assert_eq!(harness.submitted, vec![1, 2, 3]);
}

#[test]
fn wal_is_flushed_before_an_upload() {
    let mut harness = harness();
    harness.persisted_seq = 3;
    harness.freeze(3, 1);
    harness.freeze(4, 2);
    harness.flush(FlushTarget::BestEffort, 1);
    assert_eq!(harness.wal_flushes, 1);
    assert_eq!(harness.submitted, vec![1, 2]);
    let mut without = harness_with(8, false);
    without.persisted_seq = 0;
    without.freeze(4, 2);
    without.flush(FlushTarget::BestEffort, 1);
    assert_eq!(without.wal_flushes, 0);
    assert_eq!(without.submitted, vec![1]);
}

#[test]
fn failures_on_the_way_to_the_uploader_end_the_orchestrator() {
    let mut refresh = harness();
    refresh.refresh_error = Some(SlateDBError::Storage(1));
    refresh.freeze(1, 9);
    refresh.flush(FlushTarget::ThroughWalId(9), 1);
    let dropped = SlateDBError::ReadChannelError;
    assert_eq!(refresh.flush_replies, vec![(1, Err(dropped))]);
    assert_eq!(refresh.exit, Some(Err(SlateDBError::Storage(1))));

    let mut wal = harness();
    wal.wal_error = Some(SlateDBError::Storage(2));
    wal.persisted_seq = 0;
    wal.freeze(1, 9);
    wal.checkpoint(FlushTarget::ThroughWalId(9), 1);
    assert_eq!(wal.checkpoint_replies, vec![(1, Err(dropped))]);
    assert_eq!(wal.exit, Some(Err(SlateDBError::Storage(2))));

    // The error is not made known before the orchestrator is closed.
    let mut submit = harness();
    submit.submit_error = Some(SlateDBError::Storage(3));
    submit.freeze(1, 9);
    submit.flush(FlushTarget::ThroughCurrentImm, 1);
    assert_eq!(submit.flush_replies, vec![(1, Err(dropped))]);
    assert_eq!(submit.exit, Some(Err(SlateDBError::Storage(3))));
    assert_eq!(submit.intake.check_admission(), Ok(()));
    assert_eq!(submit.intake.delivery_error(), SlateDBError::Closed);
    assert_eq!((submit.uploader_closed, submit.sequencer_closed), (0, 0));
    assert_eq!(submit.memtables_failed, None);
}

#[test]
fn failed_notification_ends_the_orchestrator() {
    let mut task = OrchestratorTask::new(8, false);
    let frozen = VecDeque::from(vec![Arc::new(ImmutableMemtable {
        id: 1,
        recent_flushed_wal_id: 1,
        last_tick: 0,
        last_seq: None,
        entry_num: 0,
        entries_size_in_bytes: 0,
        sequence_tracker: SequenceTracker::new(Vec::new()),
    })]);
    task.tick();
    let step = task.refreshed(Ok(0), &frozen, 0);
    let FlusherAction::SubmitUpload {
        epoch,
        imm_memtable,
    } = step.action
    else {
        panic!("no upload");
    };
    assert_eq!(epoch, FlushEpoch(1));
    task.submitted(Ok(()), 0);
    assert_eq!(task.phase(), FlusherPhase::Selecting);
    let id = SsTableId::Compacted(4);
    task.uploaded(UploadedMemtable::new(epoch, imm_memtable, id, SsTableHandle { id }, 0));
    assert_eq!(task.phase(), FlusherPhase::Notifying);
    let step = task.notified(Err(SlateDBError::Fenced));
    assert!(matches!(step.action, FlusherAction::Exit(Err(SlateDBError::Fenced))));
    assert!(step.effects.is_empty());
    assert_eq!(task.phase(), FlusherPhase::Stopped);
    assert_eq!(task.epochs_left(), u64::MAX - 2);
}

#[test]
fn ended_events_are_fatal() {
    let mut harness = harness();
    harness.events.push_back(Event::Fatal(SlateDBError::Closed));
    harness.tick();
    assert_eq!(harness.exit, Some(Err(SlateDBError::Closed)));
}

#[test]
fn shutdown_waits_for_what_is_in_flight() {
    let mut harness = harness_with(1, true);
    harness.hold_uploads = true;
    harness.freeze(1, 1);
    harness.freeze(2, 2);
    harness.flush(FlushTarget::ThroughWalId(1), 1);
    harness.flush(FlushTarget::ThroughWalId(2), 2);
    harness.checkpoint(FlushTarget::ThroughWalId(2), 3);
    let step = harness.task.disconnected();
    harness.drive(step);
    assert_eq!(harness.exit, None);
    assert_eq!(harness.uploader_closed, 0);
    harness.release_uploads();
    // The first memtable became durable, and the second one was not dispatched any more.
    assert_eq!(harness.submitted, vec![1]);
    assert_eq!(harness.exit, Some(Ok(())));
    assert_eq!(harness.flush_replies[0].0, 1);
    assert!(harness.flush_replies[0].1.is_ok());
    assert_eq!(harness.flush_replies[1], (2, Err(SlateDBError::Closed)));
    assert_eq!(harness.checkpoint_replies, vec![(3, Err(SlateDBError::Closed))]);
    assert_eq!((harness.uploader_closed, harness.sequencer_closed), (1, 1));
    assert_eq!(harness.memtables_failed, Some(SlateDBError::Closed));
}

#[test]
fn shutdown_reports_the_error_of_the_uploader() {
    let mut harness = harness();
    harness.uploader_close_error = Some(SlateDBError::Storage(6));
    assert_eq!(harness.close(), Err(SlateDBError::Storage(6)));
    assert_eq!(harness.sequencer_closed, 1);
    assert_eq!(harness.memtables_failed, Some(SlateDBError::Storage(6)));
    let mut task = OrchestratorTask::new(1, false);
    task.disconnected();
    task.uploader_closed(Ok(()));
    let step = task.sequencer_closed(Err(SlateDBError::Fenced));
    assert!(matches!(step.action, FlusherAction::Exit(Err(SlateDBError::Fenced))));
}
