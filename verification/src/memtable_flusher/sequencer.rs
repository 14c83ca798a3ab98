//! The manifest sequencer.
//!
//! The sequencer owns the ordered retirement of uploaded level-0 tables: it restores the flush
//! order with [`FlushEpoch`], has the manifest written, reports durable progress and creates
//! checkpoints. It does not upload anything and knows nothing of flush requests.
use std::collections::{BTreeMap, VecDeque};
use std::sync::Arc;

use super::{FlushEpoch, ReplyHandle};
use crate::db_state::{
    CheckpointCreateResult, CheckpointOptions, FlushedTable, ImmutableMemtable, SsTableHandle,
    SsTableId,
};
use crate::error::SlateDBError;
use vstd::multiset::Multiset;
use vstd::prelude::*;

verus! {

/// Successful upload, handed to the sequencer for ordered retirement.
#[derive(Debug)]
pub struct UploadedMemtable {
    /// Ordering token that the flusher assigned.
    pub epoch: FlushEpoch,
    /// The memtable that was uploaded.
    pub imm_memtable: Arc<ImmutableMemtable>,
    /// Id of the uploaded table.
    pub sst_id: SsTableId,
    /// Handle of the uploaded table in object storage.
    pub sst_handle: SsTableHandle,
    /// Highest sequence number present in the memtable.
    pub last_seq: u64,
}

impl UploadedMemtable {
    pub fn new(
        epoch: FlushEpoch,
        imm_memtable: Arc<ImmutableMemtable>,
        sst_id: SsTableId,
        sst_handle: SsTableHandle,
        last_seq: u64,
    ) -> (uploaded: Self)
        ensures
            uploaded == (UploadedMemtable { epoch, imm_memtable, sst_id, sst_handle, last_seq }),
    {
        UploadedMemtable { epoch, imm_memtable, sst_id, sst_handle, last_seq }
    }
}

/// A checkpoint request that waits for its turn.
#[derive(Debug, Clone, Copy)]
pub struct PendingCheckpoint {
    /// The epoch that has to be durable first.
    pub through_epoch: Option<FlushEpoch>,
    pub options: CheckpointOptions,
    pub sender: ReplyHandle,
}

/// Command submitted to the sequencer.
#[derive(Debug)]
pub enum SequencerCommand {
    /// One uploaded table is ready for ordered retirement.
    Uploaded(UploadedMemtable),
    /// Create a checkpoint against the durable manifest state.
    CreateCheckpoint(PendingCheckpoint),
}

/// What has to be told to others, in this order, before the next action.
#[derive(Debug)]
pub enum SequencerEffect {
    /// The memtable left the queue of frozen memtables.
    NotifyFlushedToL0(Arc<ImmutableMemtable>),
    /// Count one flushed memtable.
    CountMemtableFlush,
    /// The memtable's table is in the durable manifest, or will never be.
    NotifyDurable(Arc<ImmutableMemtable>, Result<(), SlateDBError>),
    /// Everything up to this sequence number is durable.
    AdvanceDurableSeq(u64),
    /// The answer to a checkpoint request.
    ReplyCheckpoint(ReplyHandle, Result<CheckpointCreateResult, SlateDBError>),
    /// Refuse every further command with this error.
    Poison(SlateDBError),
    /// Report this error as the result of the sequencer, unless one is there already.
    WriteClosedResult(SlateDBError),
    /// Send the fatal event.
    EmitFatal(SlateDBError),
}

/// What has to be done next.
#[derive(Debug)]
pub enum SequencerAction {
    /// Wait for commands, then call `receive` with all that are there, or `disconnected`.
    Receive,
    /// Call `proceed`.
    Proceed,
    /// Put the tables in the place of their memtables, then call `retired`.
    Retire(Vec<FlushedTable>),
    /// Write the local manifest with new checkpoints, then call `written`.
    WriteManifest(Vec<CheckpointOptions>),
    /// Read the remote manifest and merge it, then call `loaded`.
    LoadManifest,
    /// Delete the tables as far as possible, then call `deleted`.
    DeleteSsts(Vec<SsTableId>),
    /// Send the event that everything through this epoch is durable, then call `emitted`.
    EmitFlushed { through_epoch: FlushEpoch, through_seq: u64 },
    /// The sequencer is done.
    Exit(Result<(), SlateDBError>),
}

/// What one call of the sequencer asks for.
#[derive(Debug)]
pub struct SequencerStep {
    pub effects: Vec<SequencerEffect>,
    pub action: SequencerAction,
}

/// What the sequencer waits for.
#[derive(Debug, Clone, Copy, PartialEq, Eq, Structural)]
pub enum SequencerPhase {
    Receiving,
    Working,
    /// A batch is being put into the local state.
    Retiring,
    /// The manifest is being written with a batch in it.
    WritingBatch,
    /// The manifest is being reloaded because another version got in first.
    ReloadingBatch,
    /// The tables of a batch are being deleted because the writer was fenced.
    DeletingBatch,
    /// The manifest is being reloaded after the writer was fenced.
    ReloadingFenced,
    /// The event for a durable batch is being sent.
    Emitting,
    /// The manifest is being reloaded for a checkpoint.
    LoadingCheckpoint,
    /// The manifest is being written with one checkpoint.
    WritingCheckpoint,
    /// The manifest is being written for the last time.
    WritingFinal,
    /// The manifest is being reloaded before the last write.
    ReloadingFinal,
    Stopped,
}

/// Whether a phase has a batch in flight.
pub open spec fn has_batch(phase: SequencerPhase) -> bool {
    phase is Retiring || phase is WritingBatch || phase is ReloadingBatch || phase is DeletingBatch
        || phase is ReloadingFenced
}

/// Whether a phase has a checkpoint of its own in flight.
pub open spec fn has_checkpoint(phase: SequencerPhase) -> bool {
    phase is LoadingCheckpoint || phase is WritingCheckpoint
}

/// The sequencer as a mathematical value.
#[verifier::ext_equal]
pub ghost struct SequencerModel {
    pub phase: SequencerPhase,
    /// Uploads whose turn has not come, by their epoch.
    pub ready: Map<u64, UploadedMemtable>,
    /// The epoch that is retired next.
    pub next_epoch: u64,
    /// The last durable epoch and its sequence number.
    pub durable_through: Option<(FlushEpoch, u64)>,
    /// Checkpoints that wait for an epoch to become durable.
    pub pending: Seq<PendingCheckpoint>,
    /// Commands that were received and not yet looked at.
    pub queue: Seq<SequencerCommand>,
    /// The batch in flight.
    pub batch: Seq<UploadedMemtable>,
    /// The checkpoints that are written together with the batch in flight.
    pub attached: Seq<PendingCheckpoint>,
    /// The checkpoint that is written on its own.
    pub current: Option<PendingCheckpoint>,
}

/// Whether a barrier has been passed once everything through `through` is durable.
pub open spec fn barrier_passed(barrier: Option<FlushEpoch>, through: u64) -> bool {
    barrier matches Some(required) ==> required.0 <= through
}

/// Whether a barrier has been passed by what is durable.
pub open spec fn requirement_met(
    durable: Option<(FlushEpoch, u64)>,
    barrier: Option<FlushEpoch>,
) -> bool {
    match barrier {
        None => true,
        Some(required) => durable matches Some((epoch, _)) && epoch.0 >= required.0,
    }
}

/// The checkpoints whose barrier is passed once everything through `through` is durable.
pub open spec fn satisfied_by(pending: Seq<PendingCheckpoint>, through: u64) -> Seq<
    PendingCheckpoint,
> {
    pending.filter(|c: PendingCheckpoint| barrier_passed(c.through_epoch, through))
}

/// The checkpoints whose barrier is not passed once everything through `through` is durable.
pub open spec fn unsatisfied_by(pending: Seq<PendingCheckpoint>, through: u64) -> Seq<
    PendingCheckpoint,
> {
    pending.filter(|c: PendingCheckpoint| !barrier_passed(c.through_epoch, through))
}

/// Whether a batch holds the epochs from `first` on, one after the other.
pub open spec fn consecutive(batch: Seq<UploadedMemtable>, first: int) -> bool {
    forall|i: int| 0 <= i < batch.len() ==> (#[trigger] batch[i]).epoch.0 == first + i
}

/// The upload of an epoch, if it is there.
pub open spec fn upload_of(ready: Map<u64, UploadedMemtable>, epoch: int) -> Option<
    UploadedMemtable,
> {
    if 0 <= epoch <= u64::MAX && ready.contains_key(epoch as u64) {
        Some(ready[epoch as u64])
    } else {
        None
    }
}

/// Whether `batch` holds the uploads of consecutive epochs from `next_epoch` on.
pub open spec fn is_run(
    ready: Map<u64, UploadedMemtable>,
    next_epoch: u64,
    batch: Seq<UploadedMemtable>,
) -> bool {
    forall|i: int|
        0 <= i < batch.len() ==> upload_of(ready, next_epoch + i) == Some(#[trigger] batch[i])
}

/// Whether `batch` is the longest run of consecutive uploads from `next_epoch` on.
pub open spec fn is_maximal_run(
    ready: Map<u64, UploadedMemtable>,
    next_epoch: u64,
    batch: Seq<UploadedMemtable>,
) -> bool {
    &&& is_run(ready, next_epoch, batch)
    &&& upload_of(ready, next_epoch + batch.len()) is None
}

/// The uploads that are left when the run of `n` epochs from `next_epoch` on has been taken.
pub open spec fn without_run(ready: Map<u64, UploadedMemtable>, next_epoch: u64, n: nat) -> Map<
    u64,
    UploadedMemtable,
> {
    ready.remove_keys(Set::new(|e: u64| next_epoch <= e < next_epoch + n))
}

/// The tables of a batch.
pub open spec fn flushed_tables(batch: Seq<UploadedMemtable>) -> Seq<FlushedTable> {
    batch.map_values(
        |u: UploadedMemtable|
            FlushedTable {
                imm_memtable: u.imm_memtable,
                sst_handle: u.sst_handle,
                last_seq: u.last_seq,
            },
    )
}

/// The table ids of a batch.
pub open spec fn table_ids(batch: Seq<UploadedMemtable>) -> Seq<SsTableId> {
    batch.map_values(|u: UploadedMemtable| u.sst_id)
}

/// What a list of checkpoints asks for.
pub open spec fn options_of(checkpoints: Seq<PendingCheckpoint>) -> Seq<CheckpointOptions> {
    checkpoints.map_values(|c: PendingCheckpoint| c.options)
}

/// Every memtable of a batch has left the queue of frozen memtables: each is told so and counted.
pub open spec fn flushed_effects(batch: Seq<UploadedMemtable>) -> Seq<SequencerEffect>
    decreases batch.len(),
{
    if batch.len() == 0 {
        Seq::empty()
    } else {
        flushed_effects(batch.drop_last()).push(
            SequencerEffect::NotifyFlushedToL0(batch.last().imm_memtable),
        ).push(SequencerEffect::CountMemtableFlush)
    }
}

/// Every memtable of a batch is durable: each is told so, and then its sequence number advances.
pub open spec fn durable_effects(batch: Seq<UploadedMemtable>) -> Seq<SequencerEffect>
    decreases batch.len(),
{
    if batch.len() == 0 {
        Seq::empty()
    } else {
        durable_effects(batch.drop_last()).push(
            SequencerEffect::NotifyDurable(batch.last().imm_memtable, Ok(())),
        ).push(SequencerEffect::AdvanceDurableSeq(batch.last().last_seq))
    }
}

/// No memtable of a batch will be durable.
pub open spec fn failed_effects(batch: Seq<UploadedMemtable>, error: SlateDBError) -> Seq<
    SequencerEffect,
> {
    batch.map_values(
        |u: UploadedMemtable| SequencerEffect::NotifyDurable(u.imm_memtable, Err(error)),
    )
}

/// Every checkpoint request is answered with its own result.
pub open spec fn granted_effects(
    checkpoints: Seq<PendingCheckpoint>,
    results: Seq<CheckpointCreateResult>,
) -> Seq<SequencerEffect> {
    checkpoints.map(
        |i: int, c: PendingCheckpoint| SequencerEffect::ReplyCheckpoint(c.sender, Ok(results[i])),
    )
}

/// Every checkpoint request is answered with one error.
pub open spec fn refused_effects(checkpoints: Seq<PendingCheckpoint>, error: SlateDBError) -> Seq<
    SequencerEffect,
> {
    checkpoints.map_values(
        |c: PendingCheckpoint| SequencerEffect::ReplyCheckpoint(c.sender, Err(error)),
    )
}

/// How an error that ends the sequencer is made known.
pub open spec fn fatal_notices(error: SlateDBError) -> Seq<SequencerEffect> {
    seq![
        SequencerEffect::Poison(error),
        SequencerEffect::WriteClosedResult(error),
        SequencerEffect::EmitFatal(error),
    ]
}

/// The checkpoint requests in a list of commands.
pub open spec fn checkpoints_in(queue: Seq<SequencerCommand>) -> Seq<PendingCheckpoint>
    decreases queue.len(),
{
    if queue.len() == 0 {
        Seq::empty()
    } else {
        match queue[0] {
            SequencerCommand::CreateCheckpoint(checkpoint) => seq![checkpoint] + checkpoints_in(
                queue.drop_first(),
            ),
            SequencerCommand::Uploaded(_) => checkpoints_in(queue.drop_first()),
        }
    }
}

/// The places that wait for the answer to one of these requests.
pub open spec fn owed(checkpoints: Seq<PendingCheckpoint>) -> Multiset<ReplyHandle> {
    checkpoints.map_values(|c: PendingCheckpoint| c.sender).to_multiset()
}

/// The places to which these effects send an answer.
pub open spec fn answered(effects: Seq<SequencerEffect>) -> Multiset<ReplyHandle>
    decreases effects.len(),
{
    if effects.len() == 0 {
        Multiset::empty()
    } else {
        match effects.last() {
            SequencerEffect::ReplyCheckpoint(sender, _) => answered(effects.drop_last()).insert(
                sender,
            ),
            _ => answered(effects.drop_last()),
        }
    }
}

impl SequencerModel {
    /// The checkpoint that is written on its own, as a list.
    pub open spec fn current_checkpoint(self) -> Seq<PendingCheckpoint> {
        match self.current {
            Some(checkpoint) => seq![checkpoint],
            None => Seq::empty(),
        }
    }

    /// The places that still wait for the answer to a checkpoint request.
    pub open spec fn unanswered(self) -> Multiset<ReplyHandle> {
        owed(self.current_checkpoint()).add(owed(self.attached)).add(
            owed(checkpoints_in(self.queue)),
        ).add(owed(self.pending))
    }

    /// Whether a step to `next` loses no checkpoint request and answers none twice: what was
    /// unanswered or has just arrived is either answered by the effects or still unanswered.
    pub open spec fn conserves(
        self,
        arrived: Seq<PendingCheckpoint>,
        effects: Seq<SequencerEffect>,
        next: SequencerModel,
    ) -> bool {
        self.unanswered().add(owed(arrived)) == answered(effects).add(next.unanswered())
    }

    /// What is told to others when the sequencer dies of an error: requests that were being
    /// handled are dropped, the error is made known, and requests that waited are dropped.
    pub open spec fn fatal_effects(self, error: SlateDBError) -> Seq<SequencerEffect> {
        refused_effects(
            self.attached + checkpoints_in(self.queue),
            SlateDBError::ReadChannelError,
        ) + fatal_notices(error) + refused_effects(self.pending, SlateDBError::ReadChannelError)
    }

    /// The sequencer after it stopped: nothing is left to answer.
    pub open spec fn stopped(self) -> SequencerModel {
        SequencerModel {
            phase: SequencerPhase::Stopped,
            pending: Seq::empty(),
            queue: Seq::empty(),
            batch: Seq::empty(),
            attached: Seq::empty(),
            current: None,
            ..self
        }
    }

    /// Whether the sequencer is in a state that its operations can reach.
    pub open spec fn wf(self) -> bool {
        &&& 1 <= self.next_epoch
        &&& forall|e: u64| #[trigger]
            self.ready.contains_key(e) ==> e < u64::MAX && self.ready[e].epoch.0 == e
        &&& forall|i: int|
            0 <= i < self.queue.len() ==> (#[trigger] self.queue[i] matches SequencerCommand::Uploaded(
                uploaded,
            ) ==> uploaded.epoch.0 < u64::MAX)
        // A batch is in flight exactly in the phases that need one. It ends just before the next
        // epoch, and the checkpoints attached to it wait for nothing later than it.
        &&& has_batch(self.phase) <==> self.batch.len() > 0
        &&& self.batch.len() < self.next_epoch
        &&& consecutive(self.batch, self.next_epoch - self.batch.len())
        &&& !has_batch(self.phase) ==> self.attached.len() == 0
        &&& forall|i: int|
            0 <= i < self.attached.len() ==> barrier_passed(
                (#[trigger] self.attached[i]).through_epoch,
                (self.next_epoch - 1) as u64,
            )
        &&& has_checkpoint(self.phase) <==> self.current is Some
        &&& self.current matches Some(checkpoint) ==> requirement_met(
            self.durable_through,
            checkpoint.through_epoch,
        )
        // Everything before the batch in flight is durable.
        &&& !(self.phase is Stopped) ==> match self.durable_through {
            None => self.next_epoch - self.batch.len() == 1,
            Some((epoch, _)) => self.next_epoch - self.batch.len() == epoch.0 + 1,
        }
        // A checkpoint only waits for an epoch that is not even in flight.
        &&& forall|i: int|
            0 <= i < self.pending.len() ==> ((#[trigger] self.pending[i]).through_epoch matches Some(
                required,
            ) && (self.next_epoch <= required.0 || self.next_epoch == 1))
        &&& self.phase is Receiving || self.phase is WritingFinal || self.phase is ReloadingFinal
            ==> self.queue.len() == 0 && !self.ready.contains_key(self.next_epoch)
        // The end leaves nothing unanswered.
        &&& self.phase is Stopped ==> self.queue.len() == 0 && self.pending.len() == 0
    }

    /// The longest run of uploads from the next epoch on becomes the batch in flight, and the
    /// checkpoints that wait for nothing later are attached to it.
    pub open spec fn starts_batch(self, step: SequencerStep, next: SequencerModel) -> bool {
        let through = (next.next_epoch - 1) as u64;
        &&& is_maximal_run(self.ready, self.next_epoch, next.batch)
        &&& next == (SequencerModel {
            phase: SequencerPhase::Retiring,
            ready: without_run(self.ready, self.next_epoch, next.batch.len()),
            next_epoch: (self.next_epoch + next.batch.len()) as u64,
            pending: unsatisfied_by(self.pending, through),
            batch: next.batch,
            attached: satisfied_by(self.pending, through),
            ..self
        })
        &&& step.effects@.len() == 0
        &&& step.action matches SequencerAction::Retire(tables) && tables@ == flushed_tables(
            next.batch,
        )
    }

    /// An upload waits for its turn; a second upload of a waiting epoch is fatal.
    pub open spec fn takes_upload(
        self,
        uploaded: UploadedMemtable,
        step: SequencerStep,
        next: SequencerModel,
    ) -> bool {
        let taken = SequencerModel {
            ready: self.ready.insert(uploaded.epoch.0, uploaded),
            queue: self.queue.drop_first(),
            ..self
        };
        if self.ready.contains_key(uploaded.epoch.0) {
            taken.dies(Seq::empty(), SlateDBError::InvalidDBState, step, next)
        } else {
            &&& next == taken
            &&& step.effects@.len() == 0
            &&& step.action is Proceed
        }
    }

    /// A checkpoint request is handled at once, if what it waits for is durable, or waits.
    pub open spec fn takes_checkpoint(
        self,
        checkpoint: PendingCheckpoint,
        step: SequencerStep,
        next: SequencerModel,
    ) -> bool {
        &&& step.effects@.len() == 0
        &&& if requirement_met(self.durable_through, checkpoint.through_epoch) {
            &&& next == (SequencerModel {
                phase: SequencerPhase::LoadingCheckpoint,
                queue: self.queue.drop_first(),
                current: Some(checkpoint),
                ..self
            })
            &&& step.action is LoadManifest
        } else {
            &&& next == (SequencerModel {
                queue: self.queue.drop_first(),
                pending: self.pending.push(checkpoint),
                ..self
            })
            &&& step.action is Proceed
        }
    }

    /// The sequencer ends with an error after it told others `first`.
    pub open spec fn dies(
        self,
        first: Seq<SequencerEffect>,
        error: SlateDBError,
        step: SequencerStep,
        next: SequencerModel,
    ) -> bool {
        &&& next == self.stopped()
        &&& step.effects@ == first + self.fatal_effects(error)
        &&& step.action == SequencerAction::Exit(Err(error))
    }

    /// The sequencer goes on in another phase, and only tells others `effects`.
    pub open spec fn moves(
        self,
        phase: SequencerPhase,
        effects: Seq<SequencerEffect>,
        step: SequencerStep,
        next: SequencerModel,
    ) -> bool {
        &&& next == (SequencerModel { phase, ..self })
        &&& step.effects@ == effects
    }

    /// The sequencer ends without making an error known; requests that waited are dropped.
    pub open spec fn exits(
        self,
        result: Result<(), SlateDBError>,
        step: SequencerStep,
        next: SequencerModel,
    ) -> bool {
        &&& next == self.stopped()
        &&& step.effects@ == refused_effects(self.pending, SlateDBError::ReadChannelError)
        &&& step.action == SequencerAction::Exit(result)
    }

    /// What follows when a batch was put into the local state, or could not be.
    pub open spec fn after_retirement(
        self,
        result: Result<(), SlateDBError>,
        step: SequencerStep,
        next: SequencerModel,
    ) -> bool {
        match result {
            Ok(()) => {
                &&& self.moves(
                    SequencerPhase::WritingBatch,
                    flushed_effects(self.batch),
                    step,
                    next,
                )
                &&& step.action matches SequencerAction::WriteManifest(options) && options@
                    == options_of(self.attached)
            },
            Err(error) => self.dies(Seq::empty(), error, step, next),
        }
    }

    /// A batch that cannot be made durable: its memtables and checkpoints are told the error that
    /// the write failed with, and the sequencer ends with `fatal`.
    pub open spec fn fails_batch(
        self,
        error: SlateDBError,
        fatal: SlateDBError,
        step: SequencerStep,
        next: SequencerModel,
    ) -> bool {
        SequencerModel { attached: Seq::empty(), ..self }.dies(
            failed_effects(self.batch, error) + refused_effects(self.attached, error),
            fatal,
            step,
            next,
        )
    }

    /// What follows an error with a batch in flight: a fenced writer first deletes the tables.
    pub open spec fn after_batch_error(
        self,
        error: SlateDBError,
        step: SequencerStep,
        next: SequencerModel,
    ) -> bool {
        if error is Fenced {
            &&& self.moves(SequencerPhase::DeletingBatch, Seq::empty(), step, next)
            &&& step.action matches SequencerAction::DeleteSsts(ids) && ids@ == table_ids(
                self.batch,
            )
        } else {
            self.fails_batch(error, error, step, next)
        }
    }

    /// A batch has become durable: its memtables and checkpoints are told, and then the event is
    /// sent.
    pub open spec fn finishes_batch(
        self,
        results: Seq<CheckpointCreateResult>,
        step: SequencerStep,
        next: SequencerModel,
    ) -> bool {
        let through_epoch = FlushEpoch((self.next_epoch - 1) as u64);
        let through_seq = self.batch.last().last_seq;
        &&& next == (SequencerModel {
            phase: SequencerPhase::Emitting,
            durable_through: Some((through_epoch, through_seq)),
            batch: Seq::empty(),
            attached: Seq::empty(),
            ..self
        })
        &&& step.effects@ == durable_effects(self.batch) + granted_effects(self.attached, results)
        &&& step.action == SequencerAction::EmitFlushed { through_epoch, through_seq }
    }

    /// The answer to the checkpoint that is written on its own.
    pub open spec fn answer(self, result: Result<CheckpointCreateResult, SlateDBError>) -> Seq<
        SequencerEffect,
    > {
        seq![SequencerEffect::ReplyCheckpoint(self.current->0.sender, result)]
    }

    /// A checkpoint that could not be created: its request gets the error, which is fatal.
    pub open spec fn fails_checkpoint(
        self,
        error: SlateDBError,
        step: SequencerStep,
        next: SequencerModel,
    ) -> bool {
        self.dies(self.answer(Err(error)), error, step, next)
    }

    /// The number of checkpoints in the manifest that is being written.
    pub open spec fn requested(self) -> nat {
        self.attached.len() + self.current_checkpoint().len()
    }

    /// What follows a write of the manifest. A version that another process wrote first is loaded
    /// and written over.
    pub open spec fn after_write(
        self,
        result: Result<Vec<CheckpointCreateResult>, SlateDBError>,
        step: SequencerStep,
        next: SequencerModel,
    ) -> bool {
        match (self.phase, result) {
            (
                SequencerPhase::WritingBatch,
                Err(SlateDBError::TransactionalObjectVersionExists),
            ) => {
                &&& self.moves(SequencerPhase::ReloadingBatch, Seq::empty(), step, next)
                &&& step.action is LoadManifest
            },
            (SequencerPhase::WritingBatch, Ok(results)) => self.finishes_batch(
                results@,
                step,
                next,
            ),
            (SequencerPhase::WritingBatch, Err(error)) => self.after_batch_error(
                error,
                step,
                next,
            ),
            (
                SequencerPhase::WritingCheckpoint,
                Err(SlateDBError::TransactionalObjectVersionExists),
            ) => {
                &&& self.moves(SequencerPhase::LoadingCheckpoint, Seq::empty(), step, next)
                &&& step.action is LoadManifest
            },
            (SequencerPhase::WritingCheckpoint, Ok(results)) => {
                &&& next == (SequencerModel {
                    phase: SequencerPhase::Working,
                    current: None,
                    ..self
                })
                &&& step.effects@ == self.answer(Ok(results@[0]))
                &&& step.action is Proceed
            },
            (SequencerPhase::WritingCheckpoint, Err(error)) => self.fails_checkpoint(
                error,
                step,
                next,
            ),
            (_, Err(SlateDBError::TransactionalObjectVersionExists)) => {
                &&& self.moves(SequencerPhase::ReloadingFinal, Seq::empty(), step, next)
                &&& step.action is LoadManifest
            },
            (_, Ok(_)) => self.exits(Ok(()), step, next),
            (_, Err(error)) => self.exits(Err(error), step, next),
        }
    }

    /// What follows a load of the manifest.
    pub open spec fn after_load(
        self,
        result: Result<(), SlateDBError>,
        step: SequencerStep,
        next: SequencerModel,
    ) -> bool {
        match (self.phase, result) {
            (SequencerPhase::ReloadingBatch, Ok(())) => {
                &&& self.moves(SequencerPhase::WritingBatch, Seq::empty(), step, next)
                &&& step.action matches SequencerAction::WriteManifest(options) && options@
                    == options_of(self.attached)
            },
            (SequencerPhase::ReloadingBatch, Err(error)) => self.after_batch_error(
                error,
                step,
                next,
            ),
            (SequencerPhase::ReloadingFenced, Ok(())) => self.fails_batch(
                SlateDBError::Fenced,
                SlateDBError::Fenced,
                step,
                next,
            ),
            (SequencerPhase::ReloadingFenced, Err(error)) => self.fails_batch(
                SlateDBError::Fenced,
                error,
                step,
                next,
            ),
            (SequencerPhase::LoadingCheckpoint, Ok(())) => {
                &&& self.moves(SequencerPhase::WritingCheckpoint, Seq::empty(), step, next)
                &&& step.action matches SequencerAction::WriteManifest(options) && options@
                    == options_of(self.current_checkpoint())
            },
            (SequencerPhase::LoadingCheckpoint, Err(error)) => self.fails_checkpoint(
                error,
                step,
                next,
            ),
            (_, Ok(())) => {
                &&& self.moves(SequencerPhase::WritingFinal, Seq::empty(), step, next)
                &&& step.action matches SequencerAction::WriteManifest(options) && options@.len()
                    == 0
            },
            (_, Err(error)) => self.exits(Err(error), step, next),
        }
    }
}

/// Adds the notices that the memtables of a batch have left the queue of frozen memtables.
fn push_flushed(effects: &mut Vec<SequencerEffect>, batch: &Vec<UploadedMemtable>)
    ensures
        final(effects)@ == old(effects)@ + flushed_effects(batch@),
{
    let ghost before = effects@;
    let mut i: usize = 0;
    assert(effects@ =~= before + flushed_effects(batch@.take(0)));
    while i < batch.len()
        invariant
            i <= batch.len(),
            effects@ == before + flushed_effects(batch@.take(i as int)),
        decreases batch.len() - i,
    {
        effects.push(SequencerEffect::NotifyFlushedToL0(Arc::clone(&batch[i].imm_memtable)));
        effects.push(SequencerEffect::CountMemtableFlush);
        proof {
            let next = batch@.take(i + 1);
            assert(next.drop_last() =~= batch@.take(i as int));
            assert(next.last() == batch@[i as int]);
            assert(effects@ =~= before + flushed_effects(next));
        }
        i = i + 1;
    }
    assert(batch@.take(i as int) =~= batch@);
}

/// Adds the notices that the memtables of a batch are durable.
fn push_durable(effects: &mut Vec<SequencerEffect>, batch: &Vec<UploadedMemtable>)
    ensures
        final(effects)@ == old(effects)@ + durable_effects(batch@),
{
    let ghost before = effects@;
    let mut i: usize = 0;
    assert(effects@ =~= before + durable_effects(batch@.take(0)));
    while i < batch.len()
        invariant
            i <= batch.len(),
            effects@ == before + durable_effects(batch@.take(i as int)),
        decreases batch.len() - i,
    {
        effects.push(SequencerEffect::NotifyDurable(Arc::clone(&batch[i].imm_memtable), Ok(())));
        effects.push(SequencerEffect::AdvanceDurableSeq(batch[i].last_seq));
        proof {
            let next = batch@.take(i + 1);
            assert(next.drop_last() =~= batch@.take(i as int));
            assert(next.last() == batch@[i as int]);
            assert(effects@ =~= before + durable_effects(next));
        }
        i = i + 1;
    }
    assert(batch@.take(i as int) =~= batch@);
}

/// Adds the notices that the memtables of a batch will not become durable.
fn push_failed(
    effects: &mut Vec<SequencerEffect>,
    batch: &Vec<UploadedMemtable>,
    error: SlateDBError,
)
    ensures
        final(effects)@ == old(effects)@ + failed_effects(batch@, error),
{
    let ghost before = effects@;
    let mut i: usize = 0;
    assert(effects@ =~= before + failed_effects(batch@.take(0), error));
    while i < batch.len()
        invariant
            i <= batch.len(),
            effects@ == before + failed_effects(batch@.take(i as int), error),
        decreases batch.len() - i,
    {
        effects.push(SequencerEffect::NotifyDurable(Arc::clone(&batch[i].imm_memtable), Err(error)));
        assert(effects@ =~= before + failed_effects(batch@.take(i + 1), error));
        i = i + 1;
    }
    assert(batch@.take(i as int) =~= batch@);
}

/// Adds the answers that grant a list of checkpoint requests.
fn push_granted(
    effects: &mut Vec<SequencerEffect>,
    checkpoints: &Vec<PendingCheckpoint>,
    results: &Vec<CheckpointCreateResult>,
)
    requires
        results@.len() == checkpoints@.len(),
    ensures
        final(effects)@ == old(effects)@ + granted_effects(checkpoints@, results@),
{
    let ghost before = effects@;
    let mut i: usize = 0;
    assert(effects@ =~= before + granted_effects(checkpoints@.take(0), results@));
    while i < checkpoints.len()
        invariant
            i <= checkpoints.len(),
            results@.len() == checkpoints@.len(),
            effects@ == before + granted_effects(checkpoints@.take(i as int), results@),
        decreases checkpoints.len() - i,
    {
        effects.push(SequencerEffect::ReplyCheckpoint(checkpoints[i].sender, Ok(results[i])));
        assert(effects@ =~= before + granted_effects(checkpoints@.take(i + 1), results@));
        i = i + 1;
    }
    assert(checkpoints@.take(i as int) =~= checkpoints@);
}

/// Adds the answers that refuse a list of checkpoint requests.
fn push_refused(
    effects: &mut Vec<SequencerEffect>,
    checkpoints: &Vec<PendingCheckpoint>,
    error: SlateDBError,
)
    ensures
        final(effects)@ == old(effects)@ + refused_effects(checkpoints@, error),
{
    let ghost before = effects@;
    let mut i: usize = 0;
    assert(effects@ =~= before + refused_effects(checkpoints@.take(0), error));
    while i < checkpoints.len()
        invariant
            i <= checkpoints.len(),
            effects@ == before + refused_effects(checkpoints@.take(i as int), error),
        decreases checkpoints.len() - i,
    {
        effects.push(SequencerEffect::ReplyCheckpoint(checkpoints[i].sender, Err(error)));
        assert(effects@ =~= before + refused_effects(checkpoints@.take(i + 1), error));
        i = i + 1;
    }
    assert(checkpoints@.take(i as int) =~= checkpoints@);
}

/// Ordered retirement of uploaded tables and the only writer of the manifest.
#[derive(Debug)]
pub struct SequencerTask {
    phase: SequencerPhase,
    ready: BTreeMap<u64, UploadedMemtable>,
    next_epoch: FlushEpoch,
    durable_through: Option<(FlushEpoch, u64)>,
    pending_checkpoints: Vec<PendingCheckpoint>,
    queue: VecDeque<SequencerCommand>,
    batch: Vec<UploadedMemtable>,
    attached_checkpoints: Vec<PendingCheckpoint>,
    current_checkpoint: Option<PendingCheckpoint>,
}

impl View for SequencerTask {
    type V = SequencerModel;

    closed spec fn view(&self) -> SequencerModel {
        SequencerModel {
            phase: self.phase,
            ready: self.ready@,
            next_epoch: self.next_epoch.0,
            durable_through: self.durable_through,
            pending: self.pending_checkpoints@,
            queue: self.queue@,
            batch: self.batch@,
            attached: self.attached_checkpoints@,
            current: self.current_checkpoint,
        }
    }
}

impl SequencerTask {
    /// A sequencer that waits for its first commands. Epochs start at 1.
    pub fn new() -> (task: Self)
        ensures
            task@.wf(),
            task@ == (SequencerModel {
                phase: SequencerPhase::Receiving,
                ready: Map::empty(),
                next_epoch: 1,
                durable_through: None,
                pending: Seq::empty(),
                queue: Seq::empty(),
                batch: Seq::empty(),
                attached: Seq::empty(),
                current: None,
            }),
    {
        SequencerTask {
            phase: SequencerPhase::Receiving,
            ready: BTreeMap::new(),
            next_epoch: FlushEpoch(1),
            durable_through: None,
            pending_checkpoints: Vec::new(),
            queue: VecDeque::new(),
            batch: Vec::new(),
            attached_checkpoints: Vec::new(),
            current_checkpoint: None,
        }
    }

    /// What the sequencer waits for.
    pub fn phase(&self) -> (phase: SequencerPhase)
        ensures
            phase == self@.phase,
    {
        self.phase
    }

    /// The last durable epoch and its sequence number.
    pub fn durable_through(&self) -> (durable: Option<(FlushEpoch, u64)>)
        ensures
            durable == self@.durable_through,
    {
        self.durable_through
    }

    /// Takes the longest run of consecutive uploads that starts at the next epoch, if there is one.
    fn take_next_ready_batch(&mut self) -> (taken: Option<Vec<UploadedMemtable>>)
        requires
            old(self)@.wf(),
        ensures
            match taken {
                None => {
                    &&& !old(self)@.ready.contains_key(old(self)@.next_epoch)
                    &&& final(self)@ == old(self)@
                },
                Some(batch) => {
                    &&& batch@.len() > 0
                    &&& is_maximal_run(old(self)@.ready, old(self)@.next_epoch, batch@)
                    &&& consecutive(batch@, old(self)@.next_epoch as int)
                    &&& old(self)@.next_epoch + batch@.len() <= u64::MAX
                    &&& final(self)@ == (SequencerModel {
                        ready: without_run(old(self)@.ready, old(self)@.next_epoch, batch@.len()),
                        next_epoch: (old(self)@.next_epoch + batch@.len()) as u64,
                        ..old(self)@
                    })
                },
            },
    {
        broadcast use vstd::std_specs::btree::group_btree_axioms;

        let ghost before = self@;
        let mut epoch: u64 = self.next_epoch.0;
        let mut batch: Vec<UploadedMemtable> = Vec::new();
        let mut more: bool = true;
        assert(without_run(before.ready, before.next_epoch, 0) =~= before.ready);
        while more
            invariant
                before.wf(),
                epoch == before.next_epoch + batch@.len(),
                is_run(before.ready, before.next_epoch, batch@),
                consecutive(batch@, before.next_epoch as int),
                !more ==> !before.ready.contains_key(epoch),
                self@ == (SequencerModel {
                    ready: without_run(before.ready, before.next_epoch, batch@.len()),
                    ..before
                }),
            decreases u64::MAX - epoch + (if more { 1int } else { 0int }),
        {
            match self.ready.remove(&epoch) {
                Some(uploaded) => {
                    proof {
                        assert(before.ready.contains_key(epoch));
                        assert(uploaded == before.ready[epoch]);
                        assert(self@.ready =~= without_run(
                            before.ready,
                            before.next_epoch,
                            batch@.len() + 1,
                        ));
                    }
                    let ghost taken = batch@;
                    batch.push(uploaded);
                    assert forall|i: int| 0 <= i < batch@.len() implies upload_of(
                        before.ready,
                        before.next_epoch + i,
                    ) == Some(#[trigger] batch@[i]) by {
                        if i < taken.len() {
                            assert(batch@[i] == taken[i]);
                        }
                    }
                    epoch = epoch + 1;
                },
                None => {
                    proof {
                        assert(!without_run(
                            before.ready,
                            before.next_epoch,
                            batch@.len(),
                        ).contains_key(epoch));
                        assert(self@.ready =~= without_run(
                            before.ready,
                            before.next_epoch,
                            batch@.len(),
                        ));
                    }
                    more = false;
                },
            }
        }
        if batch.len() == 0 {
            assert(self@ =~= before);
            return None;
        }
        self.next_epoch = FlushEpoch(epoch);
        Some(batch)
    }

    /// Splits off the waiting checkpoints whose barrier is passed by `through_epoch`.
    fn take_satisfied_pending_checkpoints(&mut self, through_epoch: FlushEpoch) -> (satisfied: Vec<
        PendingCheckpoint,
    >)
        ensures
            satisfied@ == satisfied_by(old(self)@.pending, through_epoch.0),
            final(self)@ == (SequencerModel {
                pending: unsatisfied_by(old(self)@.pending, through_epoch.0),
                ..old(self)@
            }),
    {
        let ghost all = self.pending_checkpoints@;
        let ghost passed = |c: PendingCheckpoint|
            barrier_passed(c.through_epoch, through_epoch.0);
        let ghost waits = |c: PendingCheckpoint|
            !barrier_passed(c.through_epoch, through_epoch.0);
        let mut satisfied: Vec<PendingCheckpoint> = Vec::new();
        let mut pending: Vec<PendingCheckpoint> = Vec::new();
        let mut i: usize = 0;
        assert(all.take(0) =~= Seq::<PendingCheckpoint>::empty());
        reveal(Seq::filter);
        while i < self.pending_checkpoints.len()
            invariant
                all == self.pending_checkpoints@,
                self@ == old(self)@,
                passed == (|c: PendingCheckpoint|
                    barrier_passed(c.through_epoch, through_epoch.0)),
                waits == (|c: PendingCheckpoint|
                    !barrier_passed(c.through_epoch, through_epoch.0)),
                i <= all.len(),
                satisfied@ == all.take(i as int).filter(passed),
                pending@ == all.take(i as int).filter(waits),
            decreases all.len() - i,
        {
            let checkpoint = self.pending_checkpoints[i];
            let past: bool = match checkpoint.through_epoch {
                Some(required) => required.0 <= through_epoch.0,
                None => true,
            };
            proof {
                let next = all.take(i + 1);
                assert(next.drop_last() =~= all.take(i as int));
                assert(next.last() == all[i as int]);
                reveal(Seq::filter);
            }
            if past {
                satisfied.push(checkpoint);
            } else {
                pending.push(checkpoint);
            }
            i = i + 1;
        }
        assert(all.take(i as int) =~= all);
        self.pending_checkpoints = pending;
        satisfied
    }

    /// Whether everything that a checkpoint waits for is durable.
    fn checkpoint_requirement_satisfied(&self, through_epoch: Option<FlushEpoch>) -> (satisfied:
        bool)
        ensures
            satisfied == requirement_met(self@.durable_through, through_epoch),
    {
        match through_epoch {
            None => true,
            Some(required) => match self.durable_through {
                Some((epoch, _)) => epoch.0 >= required.0,
                None => false,
            },
        }
    }

    /// Takes the checkpoint requests out of the commands that were not looked at, and forgets the
    /// other commands.
    fn take_queued_checkpoints(&mut self) -> (checkpoints: Vec<PendingCheckpoint>)
        ensures
            checkpoints@ == checkpoints_in(old(self)@.queue),
            final(self)@ == (SequencerModel { queue: Seq::empty(), ..old(self)@ }),
    {
        let ghost before = self@;
        let mut checkpoints: Vec<PendingCheckpoint> = Vec::new();
        let mut more: bool = true;
        assert(checkpoints@ + checkpoints_in(self@.queue) =~= checkpoints_in(before.queue));
        while more
            invariant
                before == old(self)@,
                checkpoints@ + checkpoints_in(self@.queue) == checkpoints_in(before.queue),
                self@ == (SequencerModel { queue: self@.queue, ..before }),
                !more ==> self@.queue.len() == 0,
            decreases self@.queue.len() + (if more { 1int } else { 0int }),
        {
            let ghost queue = self@.queue;
            let ghost found = checkpoints@;
            match self.queue.pop_front() {
                Some(SequencerCommand::CreateCheckpoint(checkpoint)) => {
                    checkpoints.push(checkpoint);
                    proof {
                        assert(self@.queue =~= queue.drop_first());
                        assert(checkpoints@ + checkpoints_in(self@.queue) =~= found
                            + checkpoints_in(queue));
                    }
                },
                Some(SequencerCommand::Uploaded(_)) => {
                    assert(self@.queue =~= queue.drop_first());
                },
                None => {
                    more = false;
                },
            }
        }
        assert(checkpoints@ =~= checkpoints@ + checkpoints_in(self@.queue));
        assert(self@.queue =~= Seq::empty());
        checkpoints
    }

    /// Ends the sequencer with an error: the error is made known and nothing is left to answer.
    fn handle_fatal_error(&mut self, effects: Vec<SequencerEffect>, error: SlateDBError) -> (step:
        SequencerStep)
        ensures
            final(self)@ == old(self)@.stopped(),
            step.effects@ == effects@ + old(self)@.fatal_effects(error),
            step.action == SequencerAction::Exit(Err(error)),
    {
        let ghost before = self@;
        let mut effects = effects;
        let ghost told = effects@;
        let queued = self.take_queued_checkpoints();
        push_refused(&mut effects, &self.attached_checkpoints, SlateDBError::ReadChannelError);
        push_refused(&mut effects, &queued, SlateDBError::ReadChannelError);
        effects.push(SequencerEffect::Poison(error));
        effects.push(SequencerEffect::WriteClosedResult(error));
        effects.push(SequencerEffect::EmitFatal(error));
        push_refused(&mut effects, &self.pending_checkpoints, SlateDBError::ReadChannelError);
        assert(effects@ =~= told + before.fatal_effects(error));
        self.phase = SequencerPhase::Stopped;
        self.pending_checkpoints = Vec::new();
        self.batch = Vec::new();
        self.attached_checkpoints = Vec::new();
        self.current_checkpoint = None;
        assert(self@ =~= before.stopped());
        SequencerStep { effects, action: SequencerAction::Exit(Err(error)) }
    }

    /// Commands have arrived.
    pub fn receive(&mut self, commands: VecDeque<SequencerCommand>) -> (step: SequencerStep)
        requires
            old(self)@.wf(),
            old(self)@.phase is Receiving,
            forall|i: int|
                0 <= i < commands@.len() ==> (#[trigger] commands@[i] matches SequencerCommand::Uploaded(
                    uploaded,
                ) ==> uploaded.epoch.0 < u64::MAX),
        ensures
            final(self)@.wf(),
            old(self)@.conserves(checkpoints_in(commands@), step.effects@, final(self)@),
            final(self)@ == (SequencerModel {
                phase: SequencerPhase::Working,
                queue: commands@,
                ..old(self)@
            }),
            step.effects@.len() == 0,
            step.action is Proceed,
    {
        self.queue = commands;
        self.phase = SequencerPhase::Working;
        proof {
            lemma_owed_empty();
            assert(checkpoints_in(old(self)@.queue) =~= Seq::empty());
            assert(old(self)@.unanswered().add(owed(checkpoints_in(commands@)))
                =~= Multiset::empty().add(self@.unanswered()));
        }
        SequencerStep { effects: Vec::new(), action: SequencerAction::Proceed }
    }

    /// No command will arrive any more: the manifest is written one last time.
    pub fn disconnected(&mut self) -> (step: SequencerStep)
        requires
            old(self)@.wf(),
            old(self)@.phase is Receiving,
        ensures
            final(self)@.wf(),
            old(self)@.conserves(Seq::empty(), step.effects@, final(self)@),
            final(self)@ == (SequencerModel { phase: SequencerPhase::WritingFinal, ..old(self)@ }),
            step.effects@.len() == 0,
            step.action matches SequencerAction::WriteManifest(options) && options@.len() == 0,
    {
        self.phase = SequencerPhase::WritingFinal;
        proof {
            lemma_owed_empty();
            assert(old(self)@.unanswered().add(owed(Seq::empty())) =~= Multiset::empty().add(
                self@.unanswered(),
            ));
        }
        SequencerStep {
            effects: Vec::new(),
            action: SequencerAction::WriteManifest(Vec::new()),
        }
    }

    /// Puts the longest run of uploads into flight, if there is one.
    fn process_ready_work(&mut self) -> (step: Option<SequencerStep>)
        requires
            old(self)@.wf(),
            old(self)@.phase is Working,
        ensures
            final(self)@.wf(),
            match step {
                Some(step) => {
                    &&& upload_of(old(self)@.ready, old(self)@.next_epoch as int) is Some
                    &&& old(self)@.starts_batch(step, final(self)@)
                    &&& old(self)@.conserves(Seq::empty(), step.effects@, final(self)@)
                },
                None => {
                    &&& upload_of(old(self)@.ready, old(self)@.next_epoch as int) is None
                    &&& final(self)@ == old(self)@
                },
            },
    {
        let ghost before = self@;
        let batch = match self.take_next_ready_batch() {
            Some(batch) => batch,
            None => {
                return None;
            },
        };
        let through_epoch = FlushEpoch(self.next_epoch.0 - 1);
        let attached = self.take_satisfied_pending_checkpoints(through_epoch);
        let mut tables: Vec<FlushedTable> = Vec::new();
        let mut i: usize = 0;
        while i < batch.len()
            invariant
                i <= batch.len(),
                tables@ == flushed_tables(batch@.take(i as int)),
            decreases batch.len() - i,
        {
            tables.push(
                FlushedTable {
                    imm_memtable: Arc::clone(&batch[i].imm_memtable),
                    sst_handle: batch[i].sst_handle,
                    last_seq: batch[i].last_seq,
                },
            );
            assert(tables@ =~= flushed_tables(batch@.take(i + 1)));
            i = i + 1;
        }
        assert(batch@.take(i as int) =~= batch@);
        self.batch = batch;
        self.attached_checkpoints = attached;
        self.phase = SequencerPhase::Retiring;
        proof {
            assert(upload_of(before.ready, before.next_epoch as int) == Some(self@.batch[0]));
            lemma_filtered(before.pending, through_epoch.0);
            lemma_owed_split(before.pending, through_epoch.0);
            lemma_owed_empty();
            assert(before.attached =~= Seq::empty());
            assert(before.unanswered().add(owed(Seq::empty())) =~= Multiset::empty().add(
                self@.unanswered(),
            ));
        }
        Some(SequencerStep { effects: Vec::new(), action: SequencerAction::Retire(tables) })
    }

    /// Looks at the next command.
    pub fn proceed(&mut self) -> (step: SequencerStep)
        requires
            old(self)@.wf(),
            old(self)@.phase is Working,
        ensures
            final(self)@.wf(),
            old(self)@.conserves(Seq::empty(), step.effects@, final(self)@),
            step.action is Retire <==> old(self)@.ready.contains_key(old(self)@.next_epoch),
            if upload_of(old(self)@.ready, old(self)@.next_epoch as int) is Some {
                old(self)@.starts_batch(step, final(self)@)
            } else if old(self)@.queue.len() == 0 {
                &&& final(self)@ == (SequencerModel {
                    phase: SequencerPhase::Receiving,
                    ..old(self)@
                })
                &&& step.effects@.len() == 0
                &&& step.action is Receive
            } else {
                match old(self)@.queue[0] {
                    SequencerCommand::Uploaded(uploaded) => old(self)@.takes_upload(
                        uploaded,
                        step,
                        final(self)@,
                    ),
                    SequencerCommand::CreateCheckpoint(checkpoint) => old(self)@.takes_checkpoint(
                        checkpoint,
                        step,
                        final(self)@,
                    ),
                }
            },
    {
        if let Some(step) = self.process_ready_work() {
            return step;
        }
        let ghost before = self@;
        match self.queue.pop_front() {
            None => {
                self.phase = SequencerPhase::Receiving;
                proof {
                    lemma_owed_empty();
                    assert(before.unanswered().add(owed(Seq::empty())) =~= Multiset::empty().add(
                        self@.unanswered(),
                    ));
                }
                SequencerStep { effects: Vec::new(), action: SequencerAction::Receive }
            },
            Some(SequencerCommand::Uploaded(uploaded)) => {
                assert(self@.queue =~= before.queue.drop_first());
                self.handle_uploaded(uploaded, Ghost(before))
            },
            Some(SequencerCommand::CreateCheckpoint(checkpoint)) => {
                assert(self@.queue =~= before.queue.drop_first());
                self.handle_create_checkpoint(checkpoint, Ghost(before))
            },
        }
    }

    fn handle_uploaded(
        &mut self,
        uploaded: UploadedMemtable,
        Ghost(before): Ghost<SequencerModel>,
    ) -> (step: SequencerStep)
        requires
            before.wf(),
            before.phase is Working,
            before.queue.len() > 0,
            before.queue[0] == SequencerCommand::Uploaded(uploaded),
            old(self)@ == (SequencerModel { queue: before.queue.drop_first(), ..before }),
        ensures
            final(self)@.wf(),
            before.conserves(Seq::empty(), step.effects@, final(self)@),
            before.takes_upload(uploaded, step, final(self)@),
    {
        broadcast use vstd::std_specs::btree::group_btree_axioms;

        let epoch = uploaded.epoch.0;
        let displaced = self.ready.insert(epoch, uploaded);
        let ghost taken = self@;
        proof {
            lemma_owed_empty();
            assert(taken.ready =~= before.ready.insert(epoch, uploaded));
            assert(checkpoints_in(before.queue) == checkpoints_in(taken.queue));
        }
        if displaced.is_some() {
            let step = self.handle_fatal_error(Vec::new(), SlateDBError::InvalidDBState);
            proof {
                let told = taken.fatal_effects(SlateDBError::InvalidDBState);
                assert(step.effects@ =~= told);
                lemma_answered_fatal(taken, SlateDBError::InvalidDBState);
                lemma_stopped_owes_nothing(taken);
                assert(before.unanswered().add(owed(Seq::empty())) =~= answered(told).add(
                    self@.unanswered(),
                ));
            }
            return step;
        }
        assert(before.unanswered().add(owed(Seq::empty())) =~= Multiset::empty().add(
            self@.unanswered(),
        ));
        SequencerStep { effects: Vec::new(), action: SequencerAction::Proceed }
    }

    fn handle_create_checkpoint(
        &mut self,
        checkpoint: PendingCheckpoint,
        Ghost(before): Ghost<SequencerModel>,
    ) -> (step: SequencerStep)
        requires
            before.wf(),
            before.phase is Working,
            before.queue.len() > 0,
            before.queue[0] == SequencerCommand::CreateCheckpoint(checkpoint),
            old(self)@ == (SequencerModel { queue: before.queue.drop_first(), ..before }),
        ensures
            final(self)@.wf(),
            before.conserves(Seq::empty(), step.effects@, final(self)@),
            before.takes_checkpoint(checkpoint, step, final(self)@),
    {
        proof {
            lemma_owed_empty();
            lemma_owed_add(seq![checkpoint], checkpoints_in(before.queue.drop_first()));
            lemma_owed_push(Seq::empty(), checkpoint);
            lemma_owed_push(before.pending, checkpoint);
            assert(Seq::empty().push(checkpoint) =~= seq![checkpoint]);
        }
        if self.checkpoint_requirement_satisfied(checkpoint.through_epoch) {
            self.current_checkpoint = Some(checkpoint);
            self.phase = SequencerPhase::LoadingCheckpoint;
            assert(before.unanswered().add(owed(Seq::empty())) =~= Multiset::empty().add(
                self@.unanswered(),
            ));
            return SequencerStep { effects: Vec::new(), action: SequencerAction::LoadManifest };
        }
        self.pending_checkpoints.push(checkpoint);
        assert(before.unanswered().add(owed(Seq::empty())) =~= Multiset::empty().add(
            self@.unanswered(),
        ));
        SequencerStep { effects: Vec::new(), action: SequencerAction::Proceed }
    }

    /// What the checkpoints attached to the batch ask for.
    fn attached_options(&self) -> (options: Vec<CheckpointOptions>)
        ensures
            options@ == options_of(self@.attached),
    {
        let mut options: Vec<CheckpointOptions> = Vec::new();
        let mut i: usize = 0;
        while i < self.attached_checkpoints.len()
            invariant
                i <= self.attached_checkpoints.len(),
                options@ == options_of(self@.attached.take(i as int)),
            decreases self.attached_checkpoints.len() - i,
        {
            options.push(self.attached_checkpoints[i].options);
            assert(options@ =~= options_of(self@.attached.take(i + 1)));
            i = i + 1;
        }
        assert(self@.attached.take(i as int) =~= self@.attached);
        options
    }

    /// Goes on in another phase, with one action.
    fn go_on(&mut self, phase: SequencerPhase, action: SequencerAction) -> (step: SequencerStep)
        ensures
            old(self)@.moves(phase, Seq::empty(), step, final(self)@),
            old(self)@.conserves(Seq::empty(), step.effects@, final(self)@),
            step.action == action,
    {
        self.phase = phase;
        proof {
            lemma_owed_empty();
            assert(old(self)@.unanswered().add(owed(Seq::empty())) =~= Multiset::empty().add(
                self@.unanswered(),
            ));
        }
        SequencerStep { effects: Vec::new(), action }
    }

    /// Ends the sequencer with an error when nothing has been answered.
    fn die(&mut self, error: SlateDBError) -> (step: SequencerStep)
        requires
            old(self)@.current is None,
        ensures
            old(self)@.dies(Seq::empty(), error, step, final(self)@),
            old(self)@.conserves(Seq::empty(), step.effects@, final(self)@),
    {
        let ghost before = self@;
        let step = self.handle_fatal_error(Vec::new(), error);
        proof {
            lemma_owed_empty();
            assert(step.effects@ =~= before.fatal_effects(error));
            lemma_answered_fatal(before, error);
            lemma_stopped_owes_nothing(before);
            assert(before.unanswered().add(owed(Seq::empty())) =~= answered(step.effects@).add(
                self@.unanswered(),
            ));
        }
        step
    }

    /// Ends the sequencer at shutdown.
    fn exit(&mut self, result: Result<(), SlateDBError>) -> (step: SequencerStep)
        requires
            old(self)@.current is None,
            old(self)@.attached.len() == 0,
            old(self)@.queue.len() == 0,
        ensures
            old(self)@.exits(result, step, final(self)@),
            old(self)@.conserves(Seq::empty(), step.effects@, final(self)@),
    {
        let ghost before = self@;
        let mut effects: Vec<SequencerEffect> = Vec::new();
        push_refused(&mut effects, &self.pending_checkpoints, SlateDBError::ReadChannelError);
        self.phase = SequencerPhase::Stopped;
        self.pending_checkpoints = Vec::new();
        self.batch = Vec::new();
        proof {
            assert(effects@ =~= refused_effects(before.pending, SlateDBError::ReadChannelError));
            assert(before.attached =~= Seq::empty());
            assert(before.queue =~= Seq::empty());
            assert(self@ =~= before.stopped());
            lemma_owed_empty();
            assert(checkpoints_in(before.queue) =~= Seq::empty());
            lemma_answered_refused(before.pending, SlateDBError::ReadChannelError);
            lemma_stopped_owes_nothing(before);
            assert(before.unanswered().add(owed(Seq::empty())) =~= answered(effects@).add(
                self@.unanswered(),
            ));
        }
        SequencerStep { effects, action: SequencerAction::Exit(result) }
    }

    /// The batch in flight was put into the local state, or could not be.
    pub fn retired(&mut self, result: Result<(), SlateDBError>) -> (step: SequencerStep)
        requires
            old(self)@.wf(),
            old(self)@.phase is Retiring,
        ensures
            final(self)@.wf(),
            old(self)@.conserves(Seq::empty(), step.effects@, final(self)@),
            old(self)@.after_retirement(result, step, final(self)@),
    {
        match result {
            Ok(()) => {
                let mut effects: Vec<SequencerEffect> = Vec::new();
                push_flushed(&mut effects, &self.batch);
                let options = self.attached_options();
                self.phase = SequencerPhase::WritingBatch;
                proof {
                    lemma_owed_empty();
                    assert(effects@ =~= flushed_effects(self@.batch));
                    lemma_notices_answer_nothing(self@.batch);
                    assert(old(self)@.unanswered().add(owed(Seq::empty())) =~= answered(
                        effects@,
                    ).add(self@.unanswered()));
                }
                SequencerStep { effects, action: SequencerAction::WriteManifest(options) }
            },
            Err(error) => self.die(error),
        }
    }

    /// The batch in flight is durable.
    fn finish_ready_batch(&mut self, results: Vec<CheckpointCreateResult>) -> (step: SequencerStep)
        requires
            old(self)@.wf(),
            old(self)@.phase is WritingBatch,
            results@.len() == old(self)@.attached.len(),
        ensures
            final(self)@.wf(),
            old(self)@.conserves(Seq::empty(), step.effects@, final(self)@),
            old(self)@.finishes_batch(results@, step, final(self)@),
    {
        let ghost before = self@;
        let last = self.batch.len() - 1;
        let through_epoch = self.batch[last].epoch;
        let through_seq = self.batch[last].last_seq;
        self.durable_through = Some((through_epoch, through_seq));
        let mut effects: Vec<SequencerEffect> = Vec::new();
        push_durable(&mut effects, &self.batch);
        push_granted(&mut effects, &self.attached_checkpoints, &results);
        self.batch = Vec::new();
        self.attached_checkpoints = Vec::new();
        self.phase = SequencerPhase::Emitting;
        proof {
            assert(through_epoch.0 == before.next_epoch - 1);
            assert(effects@ =~= durable_effects(before.batch) + granted_effects(
                before.attached,
                results@,
            ));
            lemma_owed_empty();
            lemma_answered_add(
                durable_effects(before.batch),
                granted_effects(before.attached, results@),
            );
            lemma_notices_answer_nothing(before.batch);
            lemma_answered_granted(before.attached, results@);
            assert(before.unanswered().add(owed(Seq::empty())) =~= answered(effects@).add(
                self@.unanswered(),
            ));
        }
        SequencerStep {
            effects,
            action: SequencerAction::EmitFlushed { through_epoch, through_seq },
        }
    }

    /// The batch in flight will not become durable because of `error`, and the sequencer ends with
    /// `fatal`.
    fn fail_ready_batch(&mut self, error: SlateDBError, fatal: SlateDBError) -> (step:
        SequencerStep)
        requires
            old(self)@.wf(),
            has_batch(old(self)@.phase),
        ensures
            final(self)@.wf(),
            old(self)@.conserves(Seq::empty(), step.effects@, final(self)@),
            old(self)@.fails_batch(error, fatal, step, final(self)@),
    {
        let ghost before = self@;
        let mut effects: Vec<SequencerEffect> = Vec::new();
        push_failed(&mut effects, &self.batch, error);
        push_refused(&mut effects, &self.attached_checkpoints, error);
        let ghost told = failed_effects(before.batch, error) + refused_effects(
            before.attached,
            error,
        );
        assert(effects@ =~= told);
        self.attached_checkpoints = Vec::new();
        let ghost left = self@;
        let step = self.handle_fatal_error(effects, fatal);
        proof {
            assert(left =~= SequencerModel { attached: Seq::empty(), ..before });
            lemma_owed_empty();
            lemma_answered_add(told, left.fatal_effects(fatal));
            lemma_answered_add(
                failed_effects(before.batch, error),
                refused_effects(before.attached, error),
            );
            lemma_answered_none(failed_effects(before.batch, error));
            lemma_answered_refused(before.attached, error);
            lemma_answered_fatal(left, fatal);
            lemma_stopped_owes_nothing(left);
            assert(before.unanswered().add(owed(Seq::empty())) =~= answered(step.effects@).add(
                self@.unanswered(),
            ));
        }
        step
    }

    /// An error came up while the batch in flight was being made durable.
    fn handle_batch_error(&mut self, error: SlateDBError) -> (step: SequencerStep)
        requires
            old(self)@.wf(),
            has_batch(old(self)@.phase),
        ensures
            final(self)@.wf(),
            old(self)@.conserves(Seq::empty(), step.effects@, final(self)@),
            old(self)@.after_batch_error(error, step, final(self)@),
    {
        if matches!(error, SlateDBError::Fenced) {
            let mut ids: Vec<SsTableId> = Vec::new();
            let mut i: usize = 0;
            while i < self.batch.len()
                invariant
                    self@ == old(self)@,
                    i <= self.batch.len(),
                    ids@ == table_ids(self@.batch.take(i as int)),
                decreases self.batch.len() - i,
            {
                ids.push(self.batch[i].sst_id);
                assert(ids@ =~= table_ids(self@.batch.take(i + 1)));
                i = i + 1;
            }
            assert(self@.batch.take(i as int) =~= self@.batch);
            return self.go_on(SequencerPhase::DeletingBatch, SequencerAction::DeleteSsts(ids));
        }
        self.fail_ready_batch(error, error)
    }

    /// The checkpoint that is written on its own could not be created.
    fn fail_checkpoint(&mut self, checkpoint: PendingCheckpoint, error: SlateDBError) -> (step:
        SequencerStep)
        requires
            old(self)@.wf(),
            old(self)@.current == Some(checkpoint),
        ensures
            final(self)@.wf(),
            old(self)@.conserves(Seq::empty(), step.effects@, final(self)@),
            old(self)@.fails_checkpoint(error, step, final(self)@),
    {
        let ghost before = self@;
        let mut effects: Vec<SequencerEffect> = Vec::new();
        effects.push(SequencerEffect::ReplyCheckpoint(checkpoint.sender, Err(error)));
        assert(effects@ =~= before.answer(Err(error)));
        let step = self.handle_fatal_error(effects, error);
        proof {
            lemma_one_answer(checkpoint, Err(error));
            lemma_owed_empty();
            lemma_answered_add(before.answer(Err(error)), before.fatal_effects(error));
            lemma_answered_fatal(before, error);
            lemma_stopped_owes_nothing(before);
            assert(before.unanswered().add(owed(Seq::empty())) =~= answered(step.effects@).add(
                self@.unanswered(),
            ));
        }
        step
    }

    /// The manifest was written, or could not be.
    ///
    /// A successful write comes with one result for each checkpoint that was asked for.
    pub fn written(&mut self, result: Result<Vec<CheckpointCreateResult>, SlateDBError>) -> (step:
        SequencerStep)
        requires
            old(self)@.wf(),
            old(self)@.phase is WritingBatch || old(self)@.phase is WritingCheckpoint || old(
                self
            )@.phase is WritingFinal,
            result matches Ok(results) ==> results@.len() == old(self)@.requested(),
        ensures
            final(self)@.wf(),
            old(self)@.conserves(Seq::empty(), step.effects@, final(self)@),
            old(self)@.after_write(result, step, final(self)@),
    {
        let another_version = matches!(result, Err(SlateDBError::TransactionalObjectVersionExists));
        match self.phase {
            SequencerPhase::WritingBatch => {
                if another_version {
                    return self.go_on(
                        SequencerPhase::ReloadingBatch,
                        SequencerAction::LoadManifest,
                    );
                }
                match result {
                    Ok(results) => self.finish_ready_batch(results),
                    Err(error) => self.handle_batch_error(error),
                }
            },
            SequencerPhase::WritingCheckpoint => {
                if another_version {
                    return self.go_on(
                        SequencerPhase::LoadingCheckpoint,
                        SequencerAction::LoadManifest,
                    );
                }
                let checkpoint = self.current_checkpoint.unwrap();
                match result {
                    Ok(results) => {
                        let mut effects: Vec<SequencerEffect> = Vec::new();
                        effects.push(
                            SequencerEffect::ReplyCheckpoint(checkpoint.sender, Ok(results[0])),
                        );
                        self.current_checkpoint = None;
                        self.phase = SequencerPhase::Working;
                        proof {
                            assert(effects@ =~= old(self)@.answer(Ok(results@[0])));
                            lemma_one_answer(checkpoint, Ok(results@[0]));
                            lemma_owed_empty();
                            assert(old(self)@.unanswered().add(owed(Seq::empty())) =~= answered(
                                effects@,
                            ).add(self@.unanswered()));
                        }
                        SequencerStep { effects, action: SequencerAction::Proceed }
                    },
                    Err(error) => self.fail_checkpoint(checkpoint, error),
                }
            },
            _ => {
                if another_version {
                    return self.go_on(
                        SequencerPhase::ReloadingFinal,
                        SequencerAction::LoadManifest,
                    );
                }
                match result {
                    Ok(_) => self.exit(Ok(())),
                    Err(error) => self.exit(Err(error)),
                }
            },
        }
    }

    /// The manifest was loaded and merged, or could not be.
    pub fn loaded(&mut self, result: Result<(), SlateDBError>) -> (step: SequencerStep)
        requires
            old(self)@.wf(),
            old(self)@.phase is ReloadingBatch || old(self)@.phase is ReloadingFenced || old(
                self
            )@.phase is LoadingCheckpoint || old(self)@.phase is ReloadingFinal,
        ensures
            final(self)@.wf(),
            old(self)@.conserves(Seq::empty(), step.effects@, final(self)@),
            old(self)@.after_load(result, step, final(self)@),
    {
        match self.phase {
            SequencerPhase::ReloadingBatch => match result {
                Ok(()) => {
                    let options = self.attached_options();
                    self.go_on(
                        SequencerPhase::WritingBatch,
                        SequencerAction::WriteManifest(options),
                    )
                },
                Err(error) => self.handle_batch_error(error),
            },
            SequencerPhase::ReloadingFenced => match result {
                Ok(()) => self.fail_ready_batch(SlateDBError::Fenced, SlateDBError::Fenced),
                Err(error) => self.fail_ready_batch(SlateDBError::Fenced, error),
            },
            SequencerPhase::LoadingCheckpoint => {
                let checkpoint = self.current_checkpoint.unwrap();
                match result {
                    Ok(()) => {
                        let mut options: Vec<CheckpointOptions> = Vec::new();
                        options.push(checkpoint.options);
                        assert(options@ =~= options_of(self@.current_checkpoint()));
                        self.go_on(
                            SequencerPhase::WritingCheckpoint,
                            SequencerAction::WriteManifest(options),
                        )
                    },
                    Err(error) => self.fail_checkpoint(checkpoint, error),
                }
            },
            _ => match result {
                Ok(()) => {
                    self.go_on(
                        SequencerPhase::WritingFinal,
                        SequencerAction::WriteManifest(Vec::new()),
                    )
                },
                Err(error) => self.exit(Err(error)),
            },
        }
    }

    /// The tables of a fenced batch were deleted, as far as that was possible.
    pub fn deleted(&mut self) -> (step: SequencerStep)
        requires
            old(self)@.wf(),
            old(self)@.phase is DeletingBatch,
        ensures
            final(self)@.wf(),
            old(self)@.conserves(Seq::empty(), step.effects@, final(self)@),
            old(self)@.moves(
                SequencerPhase::ReloadingFenced,
                Seq::empty(),
                step,
                final(self)@,
            ),
            step.action is LoadManifest,
    {
        self.go_on(SequencerPhase::ReloadingFenced, SequencerAction::LoadManifest)
    }

    /// The event for a durable batch was sent, or could not be.
    pub fn emitted(&mut self, result: Result<(), SlateDBError>) -> (step: SequencerStep)
        requires
            old(self)@.wf(),
            old(self)@.phase is Emitting,
        ensures
            final(self)@.wf(),
            old(self)@.conserves(Seq::empty(), step.effects@, final(self)@),
            match result {
                Ok(()) => {
                    &&& old(self)@.moves(
                        SequencerPhase::Working,
                        Seq::empty(),
                        step,
                        final(self)@,
                    )
                    &&& step.action is Proceed
                },
                Err(error) => old(self)@.dies(Seq::empty(), error, step, final(self)@),
            },
    {
        match result {
            Ok(()) => self.go_on(SequencerPhase::Working, SequencerAction::Proceed),
            Err(error) => self.die(error),
        }
    }
}

proof fn lemma_owed_add(a: Seq<PendingCheckpoint>, b: Seq<PendingCheckpoint>)
    ensures
        owed(a + b) == owed(a).add(owed(b)),
{
    let sender = |c: PendingCheckpoint| c.sender;
    assert((a + b).map_values(sender) =~= a.map_values(sender) + b.map_values(sender));
    vstd::seq_lib::lemma_multiset_commutative(a.map_values(sender), b.map_values(sender));
}

proof fn lemma_owed_empty()
    ensures
        owed(Seq::empty()) == Multiset::<ReplyHandle>::empty(),
{
    broadcast use vstd::seq_lib::group_to_multiset_ensures;

    let none = Seq::<PendingCheckpoint>::empty().map_values(|c: PendingCheckpoint| c.sender);
    assert(none =~= Seq::<ReplyHandle>::empty());
    assert(none.to_multiset().len() == 0);
    assert(none.to_multiset() =~= Multiset::empty());
}

proof fn lemma_owed_push(a: Seq<PendingCheckpoint>, c: PendingCheckpoint)
    ensures
        owed(a.push(c)) == owed(a).insert(c.sender),
{
    broadcast use vstd::seq_lib::group_to_multiset_ensures;

    let sender = |c: PendingCheckpoint| c.sender;
    assert(a.push(c).map_values(sender) =~= a.map_values(sender).push(c.sender));
}

proof fn lemma_answered_add(a: Seq<SequencerEffect>, b: Seq<SequencerEffect>)
    ensures
        answered(a + b) == answered(a).add(answered(b)),
    decreases b.len(),
{
    if b.len() == 0 {
        assert(a + b =~= a);
        assert(answered(a).add(answered(b)) =~= answered(a));
    } else {
        lemma_answered_add(a, b.drop_last());
        assert((a + b).drop_last() =~= a + b.drop_last());
        assert((a + b).last() == b.last());
        assert(answered(a + b) =~= answered(a).add(answered(b)));
    }
}

proof fn lemma_answered_none(effects: Seq<SequencerEffect>)
    requires
        forall|i: int| 0 <= i < effects.len() ==> !(#[trigger] effects[i] is ReplyCheckpoint),
    ensures
        answered(effects) == Multiset::<ReplyHandle>::empty(),
    decreases effects.len(),
{
    if effects.len() > 0 {
        assert(!(effects[effects.len() - 1] is ReplyCheckpoint));
        lemma_answered_none(effects.drop_last());
    }
}

proof fn lemma_answered_refused(checkpoints: Seq<PendingCheckpoint>, error: SlateDBError)
    ensures
        answered(refused_effects(checkpoints, error)) == owed(checkpoints),
    decreases checkpoints.len(),
{
    if checkpoints.len() == 0 {
        lemma_owed_empty();
        assert(checkpoints =~= Seq::empty());
    } else {
        let fewer = checkpoints.drop_last();
        lemma_answered_refused(fewer, error);
        lemma_owed_push(fewer, checkpoints.last());
        assert(fewer.push(checkpoints.last()) =~= checkpoints);
        assert(refused_effects(checkpoints, error).drop_last() =~= refused_effects(fewer, error));
    }
}

proof fn lemma_answered_granted(
    checkpoints: Seq<PendingCheckpoint>,
    results: Seq<CheckpointCreateResult>,
)
    ensures
        answered(granted_effects(checkpoints, results)) == owed(checkpoints),
    decreases checkpoints.len(),
{
    if checkpoints.len() == 0 {
        lemma_owed_empty();
        assert(checkpoints =~= Seq::empty());
    } else {
        let fewer = checkpoints.drop_last();
        lemma_answered_granted(fewer, results);
        lemma_owed_push(fewer, checkpoints.last());
        assert(fewer.push(checkpoints.last()) =~= checkpoints);
        assert(granted_effects(checkpoints, results).drop_last() =~= granted_effects(
            fewer,
            results,
        ));
    }
}

proof fn lemma_owed_split(pending: Seq<PendingCheckpoint>, through: u64)
    ensures
        owed(pending) == owed(satisfied_by(pending, through)).add(
            owed(unsatisfied_by(pending, through)),
        ),
    decreases pending.len(),
{
    reveal(Seq::filter);
    if pending.len() == 0 {
        lemma_owed_empty();
        assert(pending =~= Seq::empty());
        assert(satisfied_by(pending, through) =~= Seq::empty());
        assert(unsatisfied_by(pending, through) =~= Seq::empty());
        assert(owed(pending) =~= owed(satisfied_by(pending, through)).add(
            owed(unsatisfied_by(pending, through)),
        ));
    } else {
        let fewer = pending.drop_last();
        lemma_owed_split(fewer, through);
        lemma_owed_push(fewer, pending.last());
        assert(fewer.push(pending.last()) =~= pending);
        lemma_owed_push(satisfied_by(fewer, through), pending.last());
        lemma_owed_push(unsatisfied_by(fewer, through), pending.last());
        assert(owed(pending) =~= owed(satisfied_by(pending, through)).add(
            owed(unsatisfied_by(pending, through)),
        ));
    }
}

proof fn lemma_answered_fatal(model: SequencerModel, error: SlateDBError)
    ensures
        answered(model.fatal_effects(error)) == owed(model.attached).add(
            owed(checkpoints_in(model.queue)),
        ).add(owed(model.pending)),
{
    let dropped = SlateDBError::ReadChannelError;
    let first = refused_effects(model.attached + checkpoints_in(model.queue), dropped);
    lemma_answered_add(first + fatal_notices(error), refused_effects(model.pending, dropped));
    lemma_answered_add(first, fatal_notices(error));
    lemma_answered_none(fatal_notices(error));
    lemma_answered_refused(model.attached + checkpoints_in(model.queue), dropped);
    lemma_answered_refused(model.pending, dropped);
    lemma_owed_add(model.attached, checkpoints_in(model.queue));
    assert(answered(model.fatal_effects(error)) =~= owed(model.attached).add(
        owed(checkpoints_in(model.queue)),
    ).add(owed(model.pending)));
}

proof fn lemma_stopped_owes_nothing(model: SequencerModel)
    ensures
        model.stopped().unanswered() == Multiset::<ReplyHandle>::empty(),
{
    lemma_owed_empty();
    assert(checkpoints_in(model.stopped().queue) =~= Seq::empty());
    assert(model.stopped().unanswered() =~= Multiset::empty());
}

/// Each of the two lists holds only requests of its own kind, out of the list that was split.
proof fn lemma_filtered(pending: Seq<PendingCheckpoint>, through: u64)
    ensures
        forall|i: int|
            0 <= i < satisfied_by(pending, through).len() ==> barrier_passed(
                (#[trigger] satisfied_by(pending, through)[i]).through_epoch,
                through,
            ),
        forall|i: int|
            0 <= i < unsatisfied_by(pending, through).len() ==> {
                &&& !barrier_passed(
                    (#[trigger] unsatisfied_by(pending, through)[i]).through_epoch,
                    through,
                )
                &&& pending.contains(unsatisfied_by(pending, through)[i])
            },
    decreases pending.len(),
{
    reveal(Seq::filter);
    if pending.len() > 0 {
        let fewer = pending.drop_last();
        lemma_filtered(fewer, through);
        let left = unsatisfied_by(pending, through);
        assert forall|i: int| 0 <= i < left.len() implies pending.contains(#[trigger] left[i]) by {
            if i < unsatisfied_by(fewer, through).len() {
                let j = choose|j: int|
                    0 <= j < fewer.len() && fewer[j] == unsatisfied_by(fewer, through)[i];
                assert(pending[j] == left[i]);
            } else {
                assert(pending[pending.len() - 1] == left[i]);
            }
        }
        assert forall|i: int| 0 <= i < left.len() implies !barrier_passed(
            (#[trigger] left[i]).through_epoch,
            through,
        ) by {
            if i < unsatisfied_by(fewer, through).len() {
                assert(left[i] == unsatisfied_by(fewer, through)[i]);
            }
        }
        let taken = satisfied_by(pending, through);
        assert forall|i: int| 0 <= i < taken.len() implies barrier_passed(
            (#[trigger] taken[i]).through_epoch,
            through,
        ) by {
            if i < satisfied_by(fewer, through).len() {
                assert(taken[i] == satisfied_by(fewer, through)[i]);
            }
        }
    }
}

proof fn lemma_notices_answer_nothing(batch: Seq<UploadedMemtable>)
    ensures
        answered(flushed_effects(batch)) == Multiset::<ReplyHandle>::empty(),
        answered(durable_effects(batch)) == Multiset::<ReplyHandle>::empty(),
    decreases batch.len(),
{
    if batch.len() > 0 {
        let fewer = batch.drop_last();
        lemma_notices_answer_nothing(fewer);
        reveal_with_fuel(answered, 3);
        let flushed = flushed_effects(fewer).push(
            SequencerEffect::NotifyFlushedToL0(batch.last().imm_memtable),
        );
        assert(flushed_effects(batch).drop_last() =~= flushed);
        assert(flushed.drop_last() =~= flushed_effects(fewer));
        let durable = durable_effects(fewer).push(
            SequencerEffect::NotifyDurable(batch.last().imm_memtable, Ok(())),
        );
        assert(durable_effects(batch).drop_last() =~= durable);
        assert(durable.drop_last() =~= durable_effects(fewer));
    }
}

proof fn lemma_durable_notices(batch: Seq<UploadedMemtable>)
    ensures
        forall|i: int|
            0 <= i < durable_effects(batch).len() ==> !(#[trigger] durable_effects(
                batch,
            )[i] is ReplyCheckpoint),
    decreases batch.len(),
{
    if batch.len() > 0 {
        lemma_durable_notices(batch.drop_last());
    }
}

proof fn lemma_one_answer(
    checkpoint: PendingCheckpoint,
    result: Result<CheckpointCreateResult, SlateDBError>,
)
    ensures
        answered(seq![SequencerEffect::ReplyCheckpoint(checkpoint.sender, result)]) == owed(
            seq![checkpoint],
        ),
{
    lemma_owed_empty();
    lemma_owed_push(Seq::empty(), checkpoint);
    assert(Seq::empty().push(checkpoint) =~= seq![checkpoint]);
    let one = seq![SequencerEffect::ReplyCheckpoint(checkpoint.sender, result)];
    assert(one.drop_last() =~= Seq::empty());
    reveal_with_fuel(answered, 2);
}

/// No checkpoint request is lost and none is answered twice, however long the sequencer runs:
/// the requests that were open at first or arrived later are those that were answered, together
/// with those that are still open. Once the sequencer has stopped, none is open.
pub proof fn law_every_checkpoint_is_answered_once(
    models: Seq<SequencerModel>,
    arrived: Seq<Seq<PendingCheckpoint>>,
    effects: Seq<Seq<SequencerEffect>>,
)
    requires
        models.len() == effects.len() + 1,
        arrived.len() == effects.len(),
        forall|i: int|
            0 <= i < effects.len() ==> models[i].conserves(
                #[trigger] arrived[i],
                effects[i],
                models[i + 1],
            ),
    ensures
        models.first().unanswered().add(owed(arrived.flatten())) == answered(effects.flatten()).add(
            models.last().unanswered(),
        ),
        models.last().wf() && models.last().phase is Stopped ==> models.last().unanswered()
            == Multiset::<ReplyHandle>::empty(),
    decreases effects.len(),
{
    let n = effects.len();
    if n == 0 {
        lemma_owed_empty();
        assert(arrived.flatten() =~= Seq::empty());
        assert(effects.flatten() =~= Seq::empty());
        assert(models.first().unanswered().add(owed(arrived.flatten())) =~= answered(
            effects.flatten(),
        ).add(models.last().unanswered()));
    } else {
        let earlier = models.drop_last();
        law_every_checkpoint_is_answered_once(earlier, arrived.drop_last(), effects.drop_last());
        assert(models[n - 1].conserves(arrived[n - 1], effects[n - 1], models[n as int]));
        arrived.drop_last().lemma_flatten_push(arrived.last());
        effects.drop_last().lemma_flatten_push(effects.last());
        assert(arrived.drop_last().push(arrived.last()) =~= arrived);
        assert(effects.drop_last().push(effects.last()) =~= effects);
        lemma_owed_add(arrived.drop_last().flatten(), arrived.last());
        lemma_answered_add(effects.drop_last().flatten(), effects.last());
        let (old_in, new_in) = (owed(arrived.drop_last().flatten()), owed(arrived.last()));
        let (old_out, new_out) = (
            answered(effects.drop_last().flatten()),
            answered(effects.last()),
        );
        let middle = models[n - 1].unanswered();
        assert(earlier.last() == models[n - 1]);
        assert(earlier.first() == models.first());
        assert(models.first().unanswered().add(old_in) == old_out.add(middle));
        assert(middle.add(new_in) == new_out.add(models.last().unanswered()));
        super::lemma_replies_chain(
            models.first().unanswered(),
            old_in,
            old_out,
            middle,
            new_in,
            new_out,
            models.last().unanswered(),
        );
        assert(models.first().unanswered().add(owed(arrived.flatten())) =~= answered(
            effects.flatten(),
        ).add(models.last().unanswered()));
    }
    let last = models.last();
    if last.wf() && last.phase is Stopped {
        assert(last.attached =~= Seq::empty());
        assert(last.pending =~= Seq::empty());
        assert(checkpoints_in(last.queue) =~= Seq::empty());
        lemma_owed_empty();
        assert(last.unanswered() =~= Multiset::empty());
    }
}

/// Durable progress has no gaps and never goes back: a batch that becomes durable holds exactly
/// the epochs after the last durable one, in order, up to the new last durable one.
pub proof fn law_durable_epochs_are_consecutive(
    model: SequencerModel,
    results: Seq<CheckpointCreateResult>,
    step: SequencerStep,
    next: SequencerModel,
)
    requires
        model.wf(),
        model.phase is WritingBatch,
        model.finishes_batch(results, step, next),
    ensures
        ({
            let first = match model.durable_through {
                Some((epoch, _)) => epoch.0 + 1,
                None => 1,
            };
            &&& model.batch.len() > 0
            &&& forall|i: int|
                0 <= i < model.batch.len() ==> (#[trigger] model.batch[i]).epoch.0 == first + i
            &&& next.durable_through == Some((model.batch.last().epoch, model.batch.last().last_seq))
            &&& next.next_epoch == model.batch.last().epoch.0 + 1
        }),
{
    assert(model.batch.last().epoch.0 == model.next_epoch - 1);
}

/// A checkpoint request is granted only once everything that it waits for is durable.
pub proof fn law_checkpoint_is_granted_behind_its_barrier(
    model: SequencerModel,
    result: Result<Vec<CheckpointCreateResult>, SlateDBError>,
    step: SequencerStep,
    next: SequencerModel,
    i: int,
)
    requires
        model.wf(),
        model.phase is WritingBatch || model.phase is WritingCheckpoint || model.phase is WritingFinal,
        result matches Ok(results) ==> results@.len() == model.requested(),
        model.after_write(result, step, next),
        0 <= i < step.effects@.len(),
        step.effects@[i] matches SequencerEffect::ReplyCheckpoint(_, Ok(_)),
    ensures
        exists|c: PendingCheckpoint|
            {
                &&& model.attached.contains(c) || model.current == Some(c)
                &&& #[trigger] requirement_met(next.durable_through, c.through_epoch)
                &&& step.effects@[i]->ReplyCheckpoint_0 == c.sender
            },
{
    let effect = step.effects@[i];
    lemma_durable_notices(model.batch);
    if model.phase is WritingBatch && result is Ok {
        let notices = durable_effects(model.batch);
        let c = model.attached[i - notices.len()];
        assert(model.attached.contains(c));
        assert(requirement_met(next.durable_through, c.through_epoch));
    } else if model.phase is WritingCheckpoint && result is Ok {
        assert(requirement_met(next.durable_through, model.current->0.through_epoch));
    } else if model.phase is WritingCheckpoint {
        assert(effect matches SequencerEffect::ReplyCheckpoint(_, Err(_)) || !(effect is ReplyCheckpoint));
    }
}

/// Whether these effects tell a memtable that it is durable.
pub open spec fn reports_durable(effects: Seq<SequencerEffect>) -> bool {
    exists|i: int|
        0 <= i < effects.len() && (#[trigger] effects[i] matches SequencerEffect::NotifyDurable(
            _,
            Ok(()),
        ))
}

/// A memtable is told that it is durable only when the manifest with its table in it has been
/// written: neither a failed write, nor a load, nor a retirement reports anything as durable.
pub proof fn law_durable_means_written(
    model: SequencerModel,
    written: Result<Vec<CheckpointCreateResult>, SlateDBError>,
    other: Result<(), SlateDBError>,
    step: SequencerStep,
    next: SequencerModel,
)
    requires
        reports_durable(step.effects@),
        model.after_write(written, step, next) || model.after_load(other, step, next)
            || model.after_retirement(other, step, next),
    ensures
        model.after_write(written, step, next),
        model.phase is WritingBatch,
        written is Ok,
{
    lemma_flushed_notices(model.batch);
}

proof fn lemma_flushed_notices(batch: Seq<UploadedMemtable>)
    ensures
        forall|i: int|
            0 <= i < flushed_effects(batch).len() ==> !(#[trigger] flushed_effects(
                batch,
            )[i] is NotifyDurable),
    decreases batch.len(),
{
    if batch.len() > 0 {
        lemma_flushed_notices(batch.drop_last());
    }
}

/// A batch that was not made durable is told so: when the sequencer ends because the manifest with
/// the batch in it could not be written, every memtable of the batch and every checkpoint attached
/// to it first get the error that the write failed with, also if the reload after fencing fails.
pub proof fn law_failed_batch_is_told(
    model: SequencerModel,
    written: Result<Vec<CheckpointCreateResult>, SlateDBError>,
    loaded: Result<(), SlateDBError>,
    step: SequencerStep,
    next: SequencerModel,
)
    requires
        model.phase is WritingBatch && model.after_write(written, step, next) || (
        model.phase is ReloadingBatch || model.phase is ReloadingFenced) && model.after_load(
            loaded,
            step,
            next,
        ),
        step.action is Exit,
    ensures
        ({
            let error = match model.phase {
                SequencerPhase::WritingBatch => written->Err_0,
                SequencerPhase::ReloadingBatch => loaded->Err_0,
                _ => SlateDBError::Fenced,
            };
            let told = failed_effects(model.batch, error) + refused_effects(model.attached, error);
            told.is_prefix_of(step.effects@)
        }),
{
}

/// A batch is determined by the uploads that are there: two batches that are the longest run of
/// consecutive uploads from the same epoch on are equal. Every upload of the run is taken, and all
/// others stay.
pub proof fn law_longest_run_is_unique(
    ready: Map<u64, UploadedMemtable>,
    next_epoch: u64,
    batch: Seq<UploadedMemtable>,
    other: Seq<UploadedMemtable>,
)
    requires
        is_maximal_run(ready, next_epoch, batch),
        is_maximal_run(ready, next_epoch, other),
    ensures
        batch == other,
        batch.len() == 0 <==> !ready.contains_key(next_epoch),
        forall|e: u64| #[trigger]
            without_run(ready, next_epoch, batch.len()).contains_key(e) <==> ready.contains_key(e)
                && !(next_epoch <= e < next_epoch + batch.len()),
{
    assert forall|i: int| 0 <= i < batch.len() && i < other.len() implies batch[i] == other[i] by {
        assert(upload_of(ready, next_epoch + i) == Some(batch[i]));
        assert(upload_of(ready, next_epoch + i) == Some(other[i]));
    }
    if batch.len() < other.len() {
        assert(upload_of(ready, next_epoch + batch.len()) == Some(other[batch.len() as int]));
    }
    if other.len() < batch.len() {
        assert(upload_of(ready, next_epoch + other.len()) == Some(batch[other.len() as int]));
    }
    assert(batch =~= other);
    if batch.len() > 0 {
        assert(upload_of(ready, next_epoch + 0) == Some(batch[0]));
    }
}

/// Every epoch is handed out at most once, and in order: a batch that is started later holds only
/// epochs after those of an earlier one, and the first upload of a batch follows the last one of
/// the batch before without a gap.
pub proof fn law_batches_follow_one_another(
    first: SequencerModel,
    first_step: SequencerStep,
    after_first: SequencerModel,
    second: SequencerModel,
    second_step: SequencerStep,
    after_second: SequencerModel,
)
    requires
        first.wf(),
        second.wf(),
        first.starts_batch(first_step, after_first),
        second.starts_batch(second_step, after_second),
        first.next_epoch + after_first.batch.len() <= u64::MAX,
        after_first.next_epoch <= second.next_epoch,
    ensures
        consecutive(after_first.batch, first.next_epoch as int),
        consecutive(after_second.batch, second.next_epoch as int),
        forall|i: int, j: int|
            0 <= i < after_first.batch.len() && 0 <= j < after_second.batch.len()
                ==> #[trigger] after_first.batch[i].epoch.0
                < #[trigger] after_second.batch[j].epoch.0,
        after_first.next_epoch == second.next_epoch && after_first.batch.len() > 0
            && after_second.batch.len() > 0 ==> after_second.batch[0].epoch.0
            == after_first.batch.last().epoch.0 + 1,
{
    lemma_run_is_consecutive(first, after_first.batch);
    lemma_run_is_consecutive(second, after_second.batch);
}

proof fn lemma_run_is_consecutive(model: SequencerModel, batch: Seq<UploadedMemtable>)
    requires
        model.wf(),
        is_run(model.ready, model.next_epoch, batch),
    ensures
        consecutive(batch, model.next_epoch as int),
{
    assert forall|i: int| 0 <= i < batch.len() implies (#[trigger] batch[i]).epoch.0
        == model.next_epoch + i by {
        assert(upload_of(model.ready, model.next_epoch + i) == Some(batch[i]));
        assert(model.ready.contains_key((model.next_epoch + i) as u64));
    }
}

} // verus!
