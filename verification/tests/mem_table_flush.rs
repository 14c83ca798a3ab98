use slatedb::db_state::{
    CheckpointCreateResult, CheckpointOptions, DbState, ImmutableMemtable, ManifestCore,
    SequenceTracker, ShutdownNotice, SsTableHandle, SsTableId,
};
use slatedb::db_stats::DbStats;
use slatedb::error::SlateDBError;
use slatedb::mem_table_flush::{
    needs_manifest_retry, CleanupAction, FlushImmTableStats, FlushPipeline, FlushStart,
    MemtableFlushAction, MemtableFlushMsg, MemtableFlushReply, MemtableFlusher,
    MemtableFlusherState, PipelineAction, PipelineEffect, PipelinePhase, PipelineStep, TableUpload,
    MAX_BUILD_IN_FLIGHT, MAX_UPLOAD_IN_FLIGHT, MEMTABLE_FLUSHER_TASK_NAME,
};
use slatedb::memtable_flusher::ReplyHandle;
use slatedb::stats::{StatRegistry, StatValue};
use std::collections::VecDeque;
use std::sync::Arc;

/// A pipeline with the state that it works on. Builds and uploads end when the test says so.
struct Harness {
    db: DbState,
    pipeline: FlushPipeline,
    stats: DbStats,
    registry: StatRegistry,
    persisted_seq: u64,
    wal_flushes: usize,
    started: u128,
    builds: Vec<(u64, Arc<ImmutableMemtable>)>,
    uploads: Vec<(u64, SsTableId)>,
    most_builds: usize,
    most_uploads: usize,
    prepare_error: Option<SlateDBError>,
    write_errors: VecDeque<SlateDBError>,
    load_errors: VecDeque<SlateDBError>,
    loads: usize,
    batches: Vec<usize>,
    log: Vec<String>,
    exit: Option<Result<(), SlateDBError>>,
}

fn harness(l0_max_ssts: usize, wal_enabled: bool, memtables: u64) -> Harness {
    let mut registry = StatRegistry::new();
    let stats = DbStats::new(&mut registry);
    let mut harness = Harness {
        db: DbState {
            imm_memtable: VecDeque::new(),
            core: ManifestCore {
                l0: VecDeque::new(),
                replay_after_wal_id: 0,
                last_l0_clock_tick: i64::MIN,
                last_l0_seq: 0,
                recent_snapshot_min_seq: 0,
                sequence_tracker: SequenceTracker::new(Vec::new()),
                checkpoints: Vec::new(),
            },
        },
        pipeline: FlushPipeline::new(l0_max_ssts, wal_enabled),
        stats,
        registry,
        persisted_seq: u64::MAX,
        wal_flushes: 0,
        started: 0,
        builds: Vec::new(),
        uploads: Vec::new(),
        most_builds: 0,
        most_uploads: 0,
        prepare_error: None,
        write_errors: VecDeque::new(),
        load_errors: VecDeque::new(),
        loads: 0,
        batches: Vec::new(),
        log: Vec::new(),
        exit: None,
    };
    for seq in 1..=memtables {
        harness.freeze(seq);
    }
    harness
}

impl Harness {
    fn freeze(&mut self, seq: u64) {
        self.db.imm_memtable.push_front(Arc::new(ImmutableMemtable {
            id: seq,
            recent_flushed_wal_id: seq,
            last_tick: seq as i64,
            last_seq: Some(seq),
            entry_num: 10 * seq,
            entries_size_in_bytes: 100 * seq,
            sequence_tracker: SequenceTracker::new(Vec::new()),
        }));
    }

    fn start(&mut self) {
        let step = self.next();
        self.drive(step);
    }

    fn next(&mut self) -> PipelineStep {
        self.pipeline
            .next(&self.db, self.persisted_seq, &self.stats, &mut self.registry)
    }

    fn finish_build(&mut self, flush_seq: u64) {
        let place = self.builds.iter().position(|b| b.0 == flush_seq).unwrap();
        self.builds.remove(place);
        let step = self.pipeline.built(flush_seq);
        self.drive(step);
    }

    fn finish_upload(&mut self) {
        let (flush_seq, sst_id) = self.uploads.remove(0);
        let upload = TableUpload {
            sst_handle: SsTableHandle { id: sst_id },
            flush_stats: FlushImmTableStats {
                iter_setup_ms: 1,
                row_loop_ms: 2,
                finish_block_ms: 3,
                footer_ms: 4,
                put_ms: 5,
                cache_ms: 6,
            },
            output_bytes: 50,
        };
        let step = self.pipeline.uploaded(flush_seq, upload);
        self.drive(step);
    }

    fn drive(&mut self, first: PipelineStep) {
        let mut step = first;
        loop {
            for effect in step.effects {
                self.log.push(match effect {
                    PipelineEffect::NotifyFlushedToL0(imm) => format!("flushed {}", imm.id),
                    PipelineEffect::NotifyDurable(imm, Ok(())) => format!("durable {}", imm.id),
                    PipelineEffect::NotifyDurable(imm, Err(_)) => format!("lost {}", imm.id),
                    PipelineEffect::AdvanceDurableSeq(seq) => format!("seq {}", seq),
                    PipelineEffect::DeleteSst(id) => format!("delete {:?}", id),
                });
            }
            step = match step.action {
                PipelineAction::Proceed => self.next(),
                PipelineAction::Prepare { flush_wals, .. } => {
                    if flush_wals {
                        self.wal_flushes += 1;
                        self.persisted_seq = u64::MAX;
                    }
                    self.started += 1;
                    let result = match self.prepare_error {
                        Some(error) => Err(error),
                        None => Ok(FlushStart {
                            sst_id: SsTableId::Compacted(100 + self.started),
                            flush_start_ms: 1000,
                            wal_wait_elapsed_ms: 8,
                            last_remote_persisted_seq: self.persisted_seq,
                        }),
                    };
                    self.pipeline.prepared(result, &self.stats, &mut self.registry)
                }
                PipelineAction::Build {
                    flush_seq,
                    imm_memtable,
                } => {
                    self.builds.push((flush_seq, imm_memtable));
                    self.most_builds = self.most_builds.max(self.builds.len());
                    self.next()
                }
                PipelineAction::Upload {
                    flush_seq,
                    imm_memtable,
                    sst_id,
                } => {
                    assert!(imm_memtable.last_seq.is_some());
                    self.uploads.push((flush_seq, sst_id));
                    self.most_uploads = self.most_uploads.max(self.uploads.len());
                    self.next()
                }
                PipelineAction::Wait => return,
                PipelineAction::Publish(tables) => {
                    self.batches.push(tables.len());
                    assert!(self.db.can_retire(&tables));
                    let result = self.db.retire(&tables, None);
                    self.pipeline
                        .published(result, 21, &self.stats, &mut self.registry)
                }
                PipelineAction::WriteManifest => {
                    let result = match self.write_errors.pop_front() {
                        Some(error) => Err(error),
                        None => Ok(()),
                    };
                    self.pipeline
                        .written(result, 31, 1500, &self.stats, &mut self.registry)
                }
                PipelineAction::LoadManifest => {
                    self.loads += 1;
                    let result = match self.load_errors.pop_front() {
                        Some(error) => Err(error),
                        None => Ok(()),
                    };
                    self.pipeline.loaded(result)
                }
                PipelineAction::Exit(result) => {
                    self.exit = Some(result);
                    return;
                }
            };
        }
    }

    fn stat(&self, name: &str) -> StatValue {
        self.registry.lookup(name).unwrap()
    }
}

#[test]
fn nothing_to_flush_ends_at_once() {
    let mut harness = harness(8, false, 0);
    harness.start();
    assert_eq!(harness.exit, Some(Ok(())));
    assert_eq!(harness.pipeline.phase(), PipelinePhase::Done);
}

#[test]
fn full_level_0_ends_at_once() {
    let mut harness = harness(0, false, 3);
    harness.start();
    assert_eq!(harness.exit, Some(Ok(())));
    assert_eq!(harness.db.imm_memtable.len(), 3);
}

#[test]
fn one_memtable_goes_through_all_stages() {
    let mut harness = harness(8, false, 1);
    harness.start();
    assert_eq!(harness.builds.len(), 1);
    assert_eq!(harness.stat("db/l0_flush_input_rows_last"), StatValue::GaugeU64(10));
    assert_eq!(harness.stat("db/l0_flush_input_bytes"), StatValue::Counter(100));
    assert_eq!(harness.stat("db/l0_flush_input_bytes_last"), StatValue::GaugeU64(100));
    assert_eq!(harness.stat("db/l0_flush_wal_wait_ms"), StatValue::Counter(8));
    assert_eq!(harness.stat("db/l0_flush_wal_wait_ms_last"), StatValue::GaugeU64(8));
    harness.finish_build(0);
    assert_eq!(harness.uploads.len(), 1);
    assert_eq!(harness.stat("db/l0_flush_built_ready"), StatValue::GaugeI64(1));
    harness.finish_upload();
    assert_eq!(harness.exit, Some(Ok(())));
    assert_eq!(harness.log, vec!["flushed 1", "durable 1", "seq 1"]);
    assert_eq!(harness.db.core.l0.len(), 1);
    assert_eq!(harness.db.core.l0[0].id, SsTableId::Compacted(101));
    assert_eq!(harness.db.core.last_l0_seq, 1);
    assert_eq!(harness.stat("db/l0_flush_commit_batch_size_last"), StatValue::GaugeU64(1));
    assert_eq!(harness.stat("db/immutable_memtable_flushes"), StatValue::Counter(1));
    assert_eq!(harness.stat("db/l0_flush_iter_setup_ms"), StatValue::Counter(1));
    assert_eq!(harness.stat("db/l0_flush_row_loop_ms_last"), StatValue::GaugeU64(2));
    assert_eq!(harness.stat("db/l0_flush_finish_block_ms"), StatValue::Counter(3));
    assert_eq!(harness.stat("db/l0_flush_footer_ms"), StatValue::Counter(4));
    assert_eq!(harness.stat("db/l0_flush_put_ms"), StatValue::Counter(5));
    assert_eq!(harness.stat("db/l0_flush_cache_ms_last"), StatValue::GaugeU64(6));
    assert_eq!(harness.stat("db/l0_flush_output_bytes"), StatValue::Counter(50));
    assert_eq!(harness.stat("db/l0_flush_publish_ms_last"), StatValue::GaugeU64(21));
    assert_eq!(harness.stat("db/l0_flush_manifest_ms"), StatValue::Counter(31));
    assert_eq!(harness.stat("db/l0_flush_total_ms"), StatValue::Counter(500));
    assert_eq!(harness.stat("db/l0_flush_encode_ms"), StatValue::Counter(0));
}

#[test]
fn commits_follow_the_order_of_freezing() {
    let mut harness = harness(8, false, 3);
    harness.start();
    assert_eq!(MAX_BUILD_IN_FLIGHT, 2);
    assert_eq!(MAX_UPLOAD_IN_FLIGHT, 1);
    assert_eq!(harness.builds.len(), 2);
    // The second table is built first, and uploaded first.
    harness.finish_build(1);
    assert_eq!(harness.uploads[0].0, 1);
    assert_eq!(harness.builds.len(), 2);
    harness.finish_upload();
    assert_eq!(harness.batches, Vec::<usize>::new());
    assert_eq!(harness.stat("db/l0_flush_uploaded_ready"), StatValue::GaugeI64(1));
    harness.finish_build(0);
    harness.finish_build(2);
    assert_eq!(harness.uploads[0].0, 0);
    harness.finish_upload();
    assert_eq!(harness.batches, vec![2]);
    assert_eq!(harness.log[..2], ["flushed 1", "flushed 2"]);
    assert_eq!(harness.log[2..], ["durable 1", "seq 1", "durable 2", "seq 2"]);
    assert_eq!(harness.stat("db/l0_flush_publish_ms"), StatValue::Counter(20));
    assert_eq!(harness.stat("db/l0_flush_publish_ms_last"), StatValue::GaugeU64(10));
    assert_eq!(harness.stat("db/l0_flush_manifest_ms_last"), StatValue::GaugeU64(15));
    harness.finish_upload();
    assert_eq!(harness.exit, Some(Ok(())));
    assert_eq!(harness.batches, vec![2, 1]);
    assert_eq!((harness.most_builds, harness.most_uploads), (2, 1));
}

#[test]
fn flushes_in_flight_count_against_level_0() {
    let mut harness = harness(2, false, 4);
    harness.start();
    assert_eq!(harness.builds.len(), 2);
    harness.finish_build(0);
    harness.finish_build(1);
    assert_eq!(harness.builds.len(), 0);
    harness.finish_upload();
    harness.finish_upload();
    assert_eq!(harness.exit, Some(Ok(())));
    assert_eq!(harness.db.core.l0.len(), 2);
    assert_eq!(harness.db.imm_memtable.len(), 2);
}

#[test]
fn run_flushes_what_level_0_has_room_for() {
    // Level 0 holds one table and has room for two more.
    let mut harness = harness(3, false, 5);
    harness.db.core.l0.push_front(SsTableHandle {
        id: SsTableId::Compacted(1),
    });
    harness.start();
    while harness.exit.is_none() {
        match harness.builds.first() {
            Some(build) => {
                let flush_seq = build.0;
                harness.finish_build(flush_seq);
            }
            None => harness.finish_upload(),
        }
    }
    assert_eq!(harness.exit, Some(Ok(())));
    assert_eq!(harness.db.core.l0.len(), 3);
    let left: Vec<u64> = harness.db.imm_memtable.iter().map(|imm| imm.id).collect();
    assert_eq!(left, vec![5, 4, 3]);
}

#[test]
fn newer_memtables_join_the_run() {
    let mut harness = harness(8, false, 1);
    harness.start();
    harness.freeze(2);
    harness.finish_build(0);
    assert_eq!(harness.builds.len(), 1);
    assert_eq!(harness.builds[0].1.id, 2);
    harness.finish_upload();
    assert_eq!(harness.exit, None);
    harness.finish_build(1);
    harness.finish_upload();
    assert_eq!(harness.exit, Some(Ok(())));
    assert_eq!(harness.db.imm_memtable.len(), 0);
}

#[test]
fn wal_is_made_durable_first() {
    let mut harness = harness(8, true, 2);
    harness.persisted_seq = 1;
    harness.start();
    assert_eq!(harness.wal_flushes, 1);
    assert_eq!(harness.builds.len(), 2);
}

#[test]
fn failures_end_the_run() {
    let mut wal = harness(8, true, 1);
    wal.prepare_error = Some(SlateDBError::Storage(1));
    wal.start();
    assert_eq!(wal.exit, Some(Err(SlateDBError::Storage(1))));

    let mut build = harness(8, true, 1);
    build.start();
    let step = build.pipeline.failed(SlateDBError::Storage(2));
    build.drive(step);
    assert_eq!(build.exit, Some(Err(SlateDBError::Storage(2))));
}

#[test]
fn clock_that_goes_back_ends_the_run() {
    let mut harness = harness(8, false, 1);
    harness.db.core.last_l0_clock_tick = 9;
    harness.start();
    harness.finish_build(0);
    harness.finish_upload();
    assert_eq!(
        harness.exit,
        Some(Err(SlateDBError::InvalidClockTick {
            last_tick: 9,
            next_tick: 1
        }))
    );
    assert_eq!(harness.log, Vec::<String>::new());
}

#[test]
fn manifest_conflicts_are_retried_and_counted() {
    let mut harness = harness(8, false, 1);
    harness
        .write_errors
        .push_back(SlateDBError::TransactionalObjectVersionExists);
    harness.start();
    harness.finish_build(0);
    harness.finish_upload();
    assert_eq!(harness.exit, Some(Ok(())));
    assert_eq!(harness.loads, 1);
    assert_eq!(harness.stat("db/l0_flush_manifest_retries"), StatValue::Counter(1));
}

#[test]
fn fenced_writer_deletes_its_tables() {
    let mut harness = harness(8, false, 2);
    harness.write_errors.push_back(SlateDBError::Fenced);
    harness.start();
    harness.finish_build(1);
    harness.finish_upload();
    harness.finish_build(0);
    harness.finish_upload();
    assert_eq!(harness.exit, Some(Err(SlateDBError::Fenced)));
    assert_eq!(harness.loads, 1);
    assert_eq!(
        harness.log,
        vec![
            "flushed 1",
            "flushed 2",
            "delete Compacted(101)",
            "lost 1",
            "delete Compacted(102)",
            "lost 2"
        ]
    );
    let mut reload = self::harness(8, false, 1);
    reload.write_errors.push_back(SlateDBError::Fenced);
    reload.load_errors.push_back(SlateDBError::Storage(8));
    reload.start();
    reload.finish_build(0);
    reload.finish_upload();
    assert_eq!(reload.exit, Some(Err(SlateDBError::Storage(8))));
    assert_eq!(reload.log[2], "lost 1");
}

#[test]
fn failed_manifest_write_is_told_to_the_memtables() {
    let mut harness = harness(8, false, 1);
    harness.write_errors.push_back(SlateDBError::Storage(4));
    harness.start();
    harness.finish_build(0);
    harness.finish_upload();
    assert_eq!(harness.exit, Some(Err(SlateDBError::Storage(4))));
    assert_eq!(harness.log, vec!["flushed 1", "lost 1"]);
    let mut reload = self::harness(8, false, 1);
    reload
        .write_errors
        .push_back(SlateDBError::TransactionalObjectVersionExists);
    reload.load_errors.push_back(SlateDBError::Storage(5));
    reload.start();
    reload.finish_build(0);
    reload.finish_upload();
    assert_eq!(reload.exit, Some(Err(SlateDBError::Storage(5))));
    assert_eq!(reload.log, vec!["flushed 1", "lost 1"]);
}

#[test]
fn retry_rule_counts_only_conflicts() {
    let mut registry = StatRegistry::new();
    let stats = DbStats::new(&mut registry);
    assert!(!needs_manifest_retry(&Ok(()), &stats, &mut registry));
    assert!(!needs_manifest_retry(&Err(SlateDBError::Fenced), &stats, &mut registry));
    assert!(needs_manifest_retry(
        &Err(SlateDBError::TransactionalObjectVersionExists),
        &stats,
        &mut registry
    ));
    assert_eq!(stats.l0_flush_manifest_retries.get(&registry), 1);
}

#[test]
fn poll_loads_the_manifest_and_flushes() {
    assert_eq!(MEMTABLE_FLUSHER_TASK_NAME, "memtable_writer");
    let mut task = MemtableFlusher::new();
    let step = task.handle(MemtableFlushMsg::PollManifest);
    assert!(matches!(step.action, MemtableFlushAction::LoadManifest));
    let step = task.loaded(Ok(()));
    assert!(matches!(step.action, MemtableFlushAction::RunPipeline));
    let step = task.flushed(Ok(()));
    assert!(step.reply.is_none());
    assert!(matches!(step.action, MemtableFlushAction::Done(Ok(()))));
    task.handle(MemtableFlushMsg::PollManifest);
    let step = task.loaded(Err(SlateDBError::Fenced));
    assert!(matches!(step.action, MemtableFlushAction::Done(Err(SlateDBError::Fenced))));
    assert_eq!(task.state(), MemtableFlusherState::Idle);
}

#[test]
fn flush_request_is_answered_with_the_result_of_the_run() {
    let mut task = MemtableFlusher::new();
    for result in [Ok(()), Err(SlateDBError::Storage(3))] {
        let step = task.handle(MemtableFlushMsg::FlushImmutableMemtables {
            sender: Some(ReplyHandle(4)),
        });
        assert!(matches!(step.action, MemtableFlushAction::RunPipeline));
        let step = task.flushed(result);
        match step.reply {
            Some(MemtableFlushReply::Flush(sender, reply)) => {
                assert_eq!(sender, ReplyHandle(4));
                assert_eq!(reply, result);
            }
            _ => panic!("no reply"),
        }
    }
}

#[test]
fn checkpoint_request_retries_after_another_version() {
    let mut task = MemtableFlusher::new();
    let options = CheckpointOptions::default();
    let step = task.handle(MemtableFlushMsg::CreateCheckpoint {
        options,
        sender: ReplyHandle(2),
    });
    assert!(matches!(step.action, MemtableFlushAction::LoadManifest));
    let step = task.loaded(Ok(()));
    assert!(matches!(step.action, MemtableFlushAction::WriteCheckpoint(_)));
    let step = task.checkpoint_written(Err(SlateDBError::TransactionalObjectVersionExists));
    assert!(step.reply.is_none());
    assert!(matches!(step.action, MemtableFlushAction::LoadManifest));
    task.loaded(Ok(()));
    let created = CheckpointCreateResult {
        id: 6,
        manifest_id: 7,
    };
    let step = task.checkpoint_written(Ok(created));
    assert!(matches!(
        step.reply,
        Some(MemtableFlushReply::Checkpoint(ReplyHandle(2), Ok(result))) if result == created
    ));
    assert!(matches!(step.action, MemtableFlushAction::Done(Ok(()))));
    task.handle(MemtableFlushMsg::CreateCheckpoint {
        options,
        sender: ReplyHandle(3),
    });
    let step = task.loaded(Err(SlateDBError::Fenced));
    assert!(matches!(
        step.reply,
        Some(MemtableFlushReply::Checkpoint(ReplyHandle(3), Err(SlateDBError::Fenced)))
    ));
}

#[test]
fn cleanup_answers_what_is_left() {
    let messages = vec![
        MemtableFlushMsg::PollManifest,
        MemtableFlushMsg::FlushImmutableMemtables { sender: None },
        MemtableFlushMsg::FlushImmutableMemtables {
            sender: Some(ReplyHandle(1)),
        },
        MemtableFlushMsg::CreateCheckpoint {
            options: CheckpointOptions::default(),
            sender: ReplyHandle(2),
        },
    ];
    let mut task = MemtableFlusher::new();
    let step = task.cleanup(&messages, Ok(()));
    assert!(matches!(step.action, CleanupAction::WriteManifest));
    assert!(step.notices.is_empty());
    assert_eq!(step.replies.len(), 2);
    assert!(matches!(
        step.replies[0],
        MemtableFlushReply::Flush(ReplyHandle(1), Err(SlateDBError::Closed))
    ));
    assert!(matches!(
        step.replies[1],
        MemtableFlushReply::Checkpoint(ReplyHandle(2), Err(SlateDBError::Closed))
    ));
    assert_eq!(task.state(), MemtableFlusherState::WritingFinal(SlateDBError::Closed));
    let mut task = MemtableFlusher::new();
    let step = task.cleanup(&messages, Err(SlateDBError::Fenced));
    assert!(matches!(
        step.replies[0],
        MemtableFlushReply::Flush(_, Err(SlateDBError::Fenced))
    ));
}

#[test]
fn cleanup_tells_the_memtables_whatever_the_last_write_gives() {
    let harness = harness(8, false, 2);
    let frozen = &harness.db.imm_memtable;
    let mut registry = StatRegistry::new();
    let stats = DbStats::new(&mut registry);
    for last in [Ok(()), Err(SlateDBError::Storage(3))] {
        let mut task = MemtableFlusher::new();
        task.cleanup(&vec![], Err(SlateDBError::Fenced));
        let conflict = Err(SlateDBError::TransactionalObjectVersionExists);
        let step = task.final_written(conflict, frozen, &stats, &mut registry);
        assert!(matches!(step.action, CleanupAction::LoadManifest));
        assert!(step.notices.is_empty());
        let step = task.final_loaded(Ok(()), frozen);
        assert!(matches!(step.action, CleanupAction::WriteManifest));
        let step = task.final_written(last, frozen, &stats, &mut registry);
        assert!(matches!(step.action, CleanupAction::Done(Ok(()))));
        assert_eq!(step.notices.len(), 5);
        assert!(matches!(
            step.notices[0],
            ShutdownNotice::ActiveNotDurable(SlateDBError::Fenced)
        ));
        assert_eq!(task.state(), MemtableFlusherState::Ended);
    }
    assert_eq!(stats.l0_flush_manifest_retries.get(&registry), 2);
    let mut task = MemtableFlusher::new();
    task.cleanup(&vec![], Ok(()));
    let conflict = Err(SlateDBError::TransactionalObjectVersionExists);
    task.final_written(conflict, frozen, &stats, &mut registry);
    let step = task.final_loaded(Err(SlateDBError::Storage(4)), frozen);
    assert!(matches!(step.action, CleanupAction::Done(Ok(()))));
    assert!(matches!(
        step.notices[4],
        ShutdownNotice::NotDurable(_, SlateDBError::Closed)
    ));
}
