//! The entrance to a background task: which commands are let through, and what is reported once
//! the task is gone.
use crate::error::{BackgroundTask, SlateDBError};
use vstd::prelude::*;

verus! {

/// How a background task ended, as far as the one that waits for it can see.
#[derive(Debug, Clone, Copy)]
pub enum TaskOutcome {
    /// Somebody else has waited for the task already.
    Taken,
    /// The task ran to its end.
    Finished(Result<(), SlateDBError>),
    /// The task was cancelled.
    Cancelled,
    /// The task panicked.
    Panicked,
    /// The task ended in another way.
    Lost,
}

/// `CommandIntake` as a mathematical value.
pub ghost struct IntakeModel {
    /// The task behind the intake.
    pub task: BackgroundTask,
    /// Whether commands are let through at all.
    pub open: bool,
    /// The error that the task died of.
    pub poisoned: Option<SlateDBError>,
    /// The result that is reported for the task. Once it is there, it stays.
    pub closed_result: Option<Result<(), SlateDBError>>,
}

impl IntakeModel {
    /// The intake once a result is reported for the task.
    pub open spec fn reporting(self, result: Result<(), SlateDBError>) -> IntakeModel {
        IntakeModel {
            closed_result: match self.closed_result {
                Some(earlier) => Some(earlier),
                None => Some(result),
            },
            ..self
        }
    }

    /// Whether a command is let through.
    pub open spec fn admission(self) -> Result<(), SlateDBError> {
        match self.poisoned {
            Some(error) => Err(error),
            None => if self.open {
                Ok(())
            } else {
                Err(SlateDBError::Closed)
            },
        }
    }

    /// What a caller is told whose command could not be delivered.
    pub open spec fn delivery_error(self) -> SlateDBError {
        match self.closed_result {
            Some(Err(error)) => error,
            _ => SlateDBError::Closed,
        }
    }
}

/// The result of a task that ended in a given way.
pub open spec fn task_result(outcome: TaskOutcome, task: BackgroundTask) -> Result<
    (),
    SlateDBError,
> {
    match outcome {
        TaskOutcome::Taken | TaskOutcome::Cancelled => Ok(()),
        TaskOutcome::Finished(result) => result,
        TaskOutcome::Panicked => Err(SlateDBError::BackgroundTaskPanic(task)),
        TaskOutcome::Lost => Err(SlateDBError::BackgroundTaskCancelled(task)),
    }
}

/// The entrance to a background task.
#[derive(Debug)]
pub struct CommandIntake {
    task: BackgroundTask,
    is_open: bool,
    poisoned: Option<SlateDBError>,
    closed_result: Option<Result<(), SlateDBError>>,
}

impl View for CommandIntake {
    type V = IntakeModel;

    closed spec fn view(&self) -> IntakeModel {
        IntakeModel {
            task: self.task,
            open: self.is_open,
            poisoned: self.poisoned,
            closed_result: self.closed_result,
        }
    }
}

impl CommandIntake {
    /// An open intake to a task that runs.
    pub fn new(task: BackgroundTask) -> (intake: Self)
        ensures
            intake@ == (IntakeModel { task, open: true, poisoned: None, closed_result: None }),
    {
        CommandIntake { task, is_open: true, poisoned: None, closed_result: None }
    }

    /// Whether a command is let through: not once the task has died, nor once the intake is closed.
    pub fn check_admission(&self) -> (admission: Result<(), SlateDBError>)
        ensures
            admission == self@.admission(),
    {
        match self.poisoned {
            Some(error) => Err(error),
            None => if self.is_open {
                Ok(())
            } else {
                Err(SlateDBError::Closed)
            },
        }
    }

    /// What a caller is told whose command could not be delivered.
    pub fn delivery_error(&self) -> (error: SlateDBError)
        ensures
            error == self@.delivery_error(),
    {
        match self.closed_result {
            Some(Err(error)) => error,
            _ => SlateDBError::Closed,
        }
    }

    /// The task has died of an error.
    pub fn poison(&mut self, error: SlateDBError)
        ensures
            final(self)@ == (IntakeModel { poisoned: Some(error), ..old(self)@ }),
    {
        self.poisoned = Some(error);
    }

    /// Reports a result for the task, unless one is there already.
    pub fn write_closed_result(&mut self, result: Result<(), SlateDBError>)
        ensures
            final(self)@ == old(self)@.reporting(result),
    {
        if self.closed_result.is_none() {
            self.closed_result = Some(result);
        }
    }

    /// Lets no further command through. The task ends when it has handled those before.
    pub fn close(&mut self)
        ensures
            final(self)@ == (IntakeModel { open: false, ..old(self)@ }),
    {
        self.is_open = false;
    }

    /// The task has ended: returns its result and reports it.
    pub fn joined(&mut self, outcome: TaskOutcome) -> (result: Result<(), SlateDBError>)
        ensures
            result == task_result(outcome, old(self)@.task),
            final(self)@ == old(self)@.reporting(result),
    {
        let result = match outcome {
            TaskOutcome::Taken | TaskOutcome::Cancelled => Ok(()),
            TaskOutcome::Finished(result) => result,
            TaskOutcome::Panicked => Err(SlateDBError::BackgroundTaskPanic(self.task)),
            TaskOutcome::Lost => Err(SlateDBError::BackgroundTaskCancelled(self.task)),
        };
        self.write_closed_result(result);
        result
    }
}

/// The first reported result stays: whatever is reported later, callers are told the same.
pub proof fn law_first_closed_result_stays(
    intake: IntakeModel,
    first: Result<(), SlateDBError>,
    second: Result<(), SlateDBError>,
)
    ensures
        intake.reporting(first).reporting(second) == intake.reporting(first),
        intake.reporting(first).reporting(second).delivery_error() == intake.reporting(
            first,
        ).delivery_error(),
{
}

/// A dead task refuses every command with the error that it died of, whether or not the intake is
/// closed afterwards.
pub proof fn law_poisoned_intake_admits_nothing(intake: IntakeModel, error: SlateDBError)
    ensures
        (IntakeModel { poisoned: Some(error), ..intake }).admission() == Err::<(), SlateDBError>(error),
        (IntakeModel { open: false, poisoned: Some(error), ..intake }).admission() == Err::<
            (),
            SlateDBError,
        >(error),
{
}

/// A command is let through exactly as long as the task has not died and the intake is open. A
/// refused command is told what the task died of, and `Closed` if it did not die.
pub proof fn law_open_intake_admits_everything(intake: IntakeModel)
    ensures
        intake.admission() is Ok <==> intake.poisoned is None && intake.open,
        intake.poisoned matches Some(error) ==> intake.admission() == Err::<(), SlateDBError>(
            error,
        ),
        intake.poisoned is None && !intake.open ==> intake.admission() == Err::<(), SlateDBError>(
            SlateDBError::Closed,
        ),
{
}

/// Whose command could not be delivered is told the error that was reported for the task, and
/// `Closed` if none was or the task ended without one.
pub proof fn law_undelivered_commands_are_told_the_result(
    intake: IntakeModel,
    result: Result<(), SlateDBError>,
)
    ensures
        intake.closed_result is None ==> intake.delivery_error() == SlateDBError::Closed,
        intake.closed_result matches Some(Ok(())) ==> intake.delivery_error()
            == SlateDBError::Closed,
        intake.closed_result matches Some(Err(error)) ==> intake.delivery_error() == error,
        intake.closed_result is None ==> intake.reporting(result).closed_result == Some(result),
        intake.closed_result is Some ==> intake.reporting(result) == intake,
        intake.reporting(result).open == intake.open,
        intake.reporting(result).poisoned == intake.poisoned,
        intake.reporting(result).task == intake.task,
{
}

/// A task that finished has the result that it returned. One that was cancelled or had ended before
/// is no failure, and one that panicked or was lost is reported under its own name.
pub proof fn law_task_results(
    outcome: TaskOutcome,
    task: BackgroundTask,
    result: Result<(), SlateDBError>,
)
    ensures
        task_result(TaskOutcome::Finished(result), task) == result,
        outcome is Taken || outcome is Cancelled ==> task_result(outcome, task) is Ok,
        outcome is Panicked ==> task_result(outcome, task) == Err::<(), SlateDBError>(
            SlateDBError::BackgroundTaskPanic(task),
        ),
        outcome is Lost ==> task_result(outcome, task) == Err::<(), SlateDBError>(
            SlateDBError::BackgroundTaskCancelled(task),
        ),
{
}

} // verus!
