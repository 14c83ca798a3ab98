use vstd::prelude::*;

verus! {

/// A background task whose failure can be reported to callers.
#[derive(Debug, Clone, Copy, PartialEq, Eq, Structural)]
pub enum BackgroundTask {
    MemtableFlusher,
    ParallelL0FlushSequencer,
}

impl BackgroundTask {
    pub open spec fn spec_name(self) -> Seq<char> {
        match self {
            BackgroundTask::MemtableFlusher => "memtable_flusher"@,
            BackgroundTask::ParallelL0FlushSequencer => "parallel_l0_flush_sequencer"@,
        }
    }

    /// The name under which the task is reported.
    pub fn name(&self) -> (name: &'static str)
        ensures
            name@ == self.spec_name(),
    {
        match self {
            BackgroundTask::MemtableFlusher => "memtable_flusher",
            BackgroundTask::ParallelL0FlushSequencer => "parallel_l0_flush_sequencer",
        }
    }
}

/// Errors that the flush pipelines and the scan iterator report.
#[derive(Debug, Clone, Copy, PartialEq, Eq, Structural)]
pub enum SlateDBError {
    /// The component was shut down.
    Closed,
    /// A second writer took the manifest over.
    Fenced,
    /// A flush epoch was reported twice.
    InvalidDBState,
    /// A memtable's clock is behind the clock already in the manifest.
    InvalidClockTick { last_tick: i64, next_tick: i64 },
    /// Another process wrote the same manifest version first.
    TransactionalObjectVersionExists,
    /// The iterator met an error earlier and cannot be used any more.
    InvalidatedIterator,
    /// A caller passed an argument that the operation does not accept.
    InvalidArgument,
    /// The party that owed a reply went away without sending one.
    ReadChannelError,
    BackgroundTaskPanic(BackgroundTask),
    BackgroundTaskCancelled(BackgroundTask),
    /// A failure of the storage layer, by the number under which the caller keeps its details.
    Storage(u64),
}

/// The two tasks are reported under names of their own.
pub proof fn law_tasks_have_their_own_names(task: BackgroundTask)
    ensures
        task is MemtableFlusher ==> task.spec_name() == "memtable_flusher"@,
        task is ParallelL0FlushSequencer ==> task.spec_name() == "parallel_l0_flush_sequencer"@,
{
}

} // verus!
