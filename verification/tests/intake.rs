use slatedb::error::{BackgroundTask, SlateDBError};
use slatedb::memtable_flusher::intake::{CommandIntake, TaskOutcome};

#[test]
fn open_intake_lets_commands_through() {
    let intake = CommandIntake::new(BackgroundTask::MemtableFlusher);
    assert_eq!(intake.check_admission(), Ok(()));
    assert_eq!(intake.delivery_error(), SlateDBError::Closed);
}

#[test]
fn closed_intake_refuses_commands() {
    let mut intake = CommandIntake::new(BackgroundTask::MemtableFlusher);
    intake.close();
    assert_eq!(intake.check_admission(), Err(SlateDBError::Closed));
}

#[test]
fn poisoned_intake_refuses_commands_with_its_error() {
    let mut intake = CommandIntake::new(BackgroundTask::ParallelL0FlushSequencer);
    intake.poison(SlateDBError::Fenced);
    assert_eq!(intake.check_admission(), Err(SlateDBError::Fenced));
    intake.close();
    assert_eq!(intake.check_admission(), Err(SlateDBError::Fenced));
}

#[test]
fn first_closed_result_stays() {
    let mut intake = CommandIntake::new(BackgroundTask::MemtableFlusher);
    intake.write_closed_result(Err(SlateDBError::Storage(7)));
    intake.write_closed_result(Ok(()));
    assert_eq!(intake.delivery_error(), SlateDBError::Storage(7));
    let mut clean = CommandIntake::new(BackgroundTask::MemtableFlusher);
    clean.write_closed_result(Ok(()));
    clean.write_closed_result(Err(SlateDBError::Fenced));
    assert_eq!(clean.delivery_error(), SlateDBError::Closed);
}

#[test]
fn joined_reports_how_the_task_ended() {
    let task = BackgroundTask::ParallelL0FlushSequencer;
    let cases = [
        (TaskOutcome::Taken, Ok(())),
        (TaskOutcome::Cancelled, Ok(())),
        (TaskOutcome::Finished(Ok(())), Ok(())),
        (TaskOutcome::Finished(Err(SlateDBError::Fenced)), Err(SlateDBError::Fenced)),
        (TaskOutcome::Panicked, Err(SlateDBError::BackgroundTaskPanic(task))),
        (TaskOutcome::Lost, Err(SlateDBError::BackgroundTaskCancelled(task))),
    ];
    for (outcome, expected) in cases {
        let mut intake = CommandIntake::new(task);
        assert_eq!(intake.joined(outcome), expected);
        match expected {
            Ok(()) => assert_eq!(intake.delivery_error(), SlateDBError::Closed),
            Err(error) => assert_eq!(intake.delivery_error(), error),
        }
    }
}

#[test]
fn tasks_have_their_names() {
    assert_eq!(BackgroundTask::MemtableFlusher.name(), "memtable_flusher");
    assert_eq!(
        BackgroundTask::ParallelL0FlushSequencer.name(),
        "parallel_l0_flush_sequencer"
    );
}
