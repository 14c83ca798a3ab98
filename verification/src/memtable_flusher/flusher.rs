//! The flush orchestrator.
//!
//! The orchestrator is the control plane of the flush pipeline: it gives every frozen memtable its
//! epoch, decides when a memtable may be uploaded, and answers flush and checkpoint requests once
//! the memtables that they cover are durable. It builds no tables and writes no manifest.
use std::collections::VecDeque;
use std::sync::Arc;

use super::sequencer::UploadedMemtable;
use super::{FlushEpoch, ReplyHandle};
use crate::db_state::{CheckpointCreateResult, CheckpointOptions, ImmutableMemtable};
use crate::error::SlateDBError;
use vstd::multiset::Multiset;
use vstd::prelude::*;

verus! {

/// What a flush request waits for.
#[derive(Debug, Clone, Copy, PartialEq, Eq, Structural)]
pub enum FlushTarget {
    /// Make progress without waiting for anything.
    BestEffort,
    /// Work with what is durable now.
    CurrentDurable,
    /// Wait until every frozen memtable whose newest flushed WAL table is not after this one is
    /// durable.
    ThroughWalId(u64),
    /// Wait until every memtable that is frozen now is durable.
    ThroughCurrentImm,
}

/// The answer to a flush request.
#[derive(Debug, Clone, Copy, PartialEq, Eq, Structural)]
pub struct FlushResult {
    /// Highest durable WAL id.
    pub durable_through_wal_id: Option<u64>,
    /// Highest durable sequence number.
    pub durable_through_seq: Option<u64>,
}

/// What the sequencer has reported as durable.
#[derive(Debug, Clone, Copy, PartialEq, Eq, Structural)]
pub struct DurableState {
    pub epoch: Option<FlushEpoch>,
    pub wal_id: Option<u64>,
    pub seq: Option<u64>,
}

/// How far a frozen memtable has come.
#[derive(Debug, Clone, Copy, PartialEq, Eq, Structural)]
pub enum TrackedImmState {
    /// It waits to be uploaded.
    PendingDispatch,
    /// The uploader has it.
    Uploading,
    /// It was uploaded, and the sequencer has it.
    Sequencing,
}

/// A frozen memtable that is not durable.
#[derive(Debug)]
pub struct TrackedImm {
    pub epoch: FlushEpoch,
    pub imm_memtable: Arc<ImmutableMemtable>,
    pub state: TrackedImmState,
}

/// What has to be durable before a request is answered.
#[derive(Debug, Clone, Copy, PartialEq, Eq, Structural)]
pub struct FlushRequirement {
    /// Every memtable up to this epoch; without it, nothing.
    pub epoch: Option<FlushEpoch>,
}

/// A flush request that waits.
#[derive(Debug, Clone, Copy)]
pub struct PendingFlush {
    pub requirement: FlushRequirement,
    pub sender: ReplyHandle,
}

/// A checkpoint request that waits.
#[derive(Debug, Clone, Copy)]
pub struct PendingCheckpoint {
    pub requirement: FlushRequirement,
    pub options: CheckpointOptions,
    pub sender: ReplyHandle,
}

/// A request to the orchestrator.
#[derive(Debug, Clone, Copy)]
pub enum OrchestratorCommand {
    /// Flush memtables; without a sender nobody waits for the answer.
    Flush { target: FlushTarget, sender: Option<ReplyHandle> },
    /// Flush memtables, then create a checkpoint.
    CreateCheckpoint { target: FlushTarget, options: CheckpointOptions, sender: ReplyHandle },
}

/// What has to be told to others, in this order, before the next action.
#[derive(Debug, Clone, Copy)]
pub enum FlusherEffect {
    /// The answer to a flush request.
    ReplyFlush(ReplyHandle, Result<FlushResult, SlateDBError>),
    /// The answer to a checkpoint request.
    ReplyCheckpoint(ReplyHandle, Result<CheckpointCreateResult, SlateDBError>),
    /// Refuse every further command with this error.
    Poison(SlateDBError),
    /// Report this error as the result of the orchestrator, unless one is there already.
    WriteClosedResult(SlateDBError),
    /// Tell every memtable that is still in memory that it will not be flushed, as
    /// `db_state::shutdown_notices` says.
    FailMemtables(SlateDBError),
}

/// What has to be done next.
#[derive(Debug)]
pub enum FlusherAction {
    /// Wait for the poll timer (`tick`), a command (`command`), the end of the commands
    /// (`disconnected`), an upload (`uploaded`), durable progress (`flushed`) or a failure
    /// (`failed`), whichever comes first.
    Select,
    /// Read the manifest and merge it, then call `refreshed`.
    RefreshManifest,
    /// Make the WAL durable, then call `wals_flushed`.
    FlushWals,
    /// Hand a memtable to the uploader, then call `submitted`.
    SubmitUpload { epoch: FlushEpoch, imm_memtable: Arc<ImmutableMemtable> },
    /// Hand an upload to the sequencer, then call `notified`.
    NotifySequencer(UploadedMemtable),
    /// Have the sequencer create a checkpoint that waits for nothing, then call
    /// `checkpoint_created`.
    CreateCheckpoint(CheckpointOptions),
    /// Close the uploader, then call `uploader_closed`.
    CloseUploader,
    /// Close the sequencer, then call `sequencer_closed`.
    CloseSequencer,
    /// The orchestrator is done.
    Exit(Result<(), SlateDBError>),
}

/// What one call of the orchestrator asks for.
#[derive(Debug)]
pub struct FlusherStep {
    pub effects: Vec<FlusherEffect>,
    pub action: FlusherAction,
}

/// What the orchestrator waits for.
#[derive(Debug, Clone, Copy, PartialEq, Eq, Structural)]
pub enum FlusherPhase {
    Selecting,
    Refreshing,
    FlushingWals,
    Submitting,
    Notifying,
    CreatingCheckpoint,
    ClosingUploader,
    ClosingSequencer,
    Stopped,
}

/// The orchestrator as a mathematical value.
#[verifier::ext_equal]
pub ghost struct FlusherModel {
    pub phase: FlusherPhase,
    /// The number of tables at which level 0 is full.
    pub l0_max_ssts: usize,
    pub wal_enabled: bool,
    /// The epoch that the next new memtable gets.
    pub next_epoch: u64,
    /// The memtables that are not durable, in the order of their epochs.
    pub live: Seq<TrackedImm>,
    pub durable: DurableState,
    pub pending_flushes: Seq<PendingFlush>,
    pub pending_checkpoints: Seq<PendingCheckpoint>,
    /// The checkpoints that are created one after the other now.
    pub due: Seq<PendingCheckpoint>,
    /// The number of tables in level 0.
    pub durable_l0_len: usize,
    /// Whether the manifest is refreshed once no checkpoint is due any more.
    pub reconcile_next: bool,
    /// Whether no command comes any more and nothing new is dispatched.
    pub draining: bool,
    /// The error that ends the orchestrator.
    pub failure: Option<SlateDBError>,
    /// The error with which the uploader closed.
    pub uploader_error: Option<SlateDBError>,
}

/// What one call of the orchestrator does.
#[verifier::ext_equal]
pub ghost struct FlusherOutcome {
    pub next: FlusherModel,
    pub effects: Seq<FlusherEffect>,
    pub action: FlusherAction,
}

/// The outcome of a step that leads to `next`.
pub open spec fn outcome(step: FlusherStep, next: FlusherModel) -> FlusherOutcome {
    FlusherOutcome { next, effects: step.effects@, action: step.action }
}

/// Whether a requirement is met by what is durable.
pub open spec fn requirement_met(requirement: FlushRequirement, durable: DurableState) -> bool {
    requirement.epoch matches Some(required) ==> durable.epoch matches Some(epoch) && epoch.0
        >= required.0
}

/// Whether a memtable is with the uploader or the sequencer.
pub open spec fn is_in_flight(imm: TrackedImm) -> bool {
    imm.state is Uploading || imm.state is Sequencing
}

/// The number of memtables that are with the uploader or the sequencer.
pub open spec fn in_flight(live: Seq<TrackedImm>) -> nat
    decreases live.len(),
{
    if live.len() == 0 {
        0
    } else {
        in_flight(live.drop_last()) + (if is_in_flight(live.last()) {
            1nat
        } else {
            0nat
        })
    }
}

/// The number of memtables before the first one that waits to be uploaded.
pub open spec fn first_pending(live: Seq<TrackedImm>) -> nat
    decreases live.len(),
{
    if live.len() == 0 || live[0].state is PendingDispatch {
        0
    } else {
        1 + first_pending(live.drop_first())
    }
}

/// Whether a memtable is tracked.
pub open spec fn is_tracked(live: Seq<TrackedImm>, id: u64) -> bool {
    exists|i: int| 0 <= i < live.len() && (#[trigger] live[i]).imm_memtable.id == id
}

/// The epoch of the last memtable whose newest flushed WAL table is not after `wal_id`.
pub open spec fn wal_barrier(live: Seq<TrackedImm>, wal_id: u64) -> Option<FlushEpoch>
    decreases live.len(),
{
    if live.len() == 0 {
        None
    } else if live.last().imm_memtable.recent_flushed_wal_id <= wal_id {
        Some(live.last().epoch)
    } else {
        wal_barrier(live.drop_last(), wal_id)
    }
}

/// What has to be durable before a request with this target is answered.
pub open spec fn requirement_of(live: Seq<TrackedImm>, target: FlushTarget) -> FlushRequirement {
    match target {
        FlushTarget::BestEffort | FlushTarget::CurrentDurable => FlushRequirement { epoch: None },
        FlushTarget::ThroughWalId(wal_id) => FlushRequirement { epoch: wal_barrier(live, wal_id) },
        FlushTarget::ThroughCurrentImm => FlushRequirement {
            epoch: if live.len() > 0 {
                Some(live.last().epoch)
            } else {
                None
            },
        },
    }
}

/// The number of tracked memtables up to an epoch.
pub open spec fn count_through(live: Seq<TrackedImm>, through: FlushEpoch) -> nat
    decreases live.len(),
{
    if live.len() == 0 || live[0].epoch.0 > through.0 {
        0
    } else {
        1 + count_through(live.drop_first(), through)
    }
}

/// The flush requests whose requirement is met.
pub open spec fn met_flushes(pending: Seq<PendingFlush>, durable: DurableState) -> Seq<
    PendingFlush,
> {
    pending.filter(|p: PendingFlush| requirement_met(p.requirement, durable))
}

/// The flush requests whose requirement is not met.
pub open spec fn unmet_flushes(pending: Seq<PendingFlush>, durable: DurableState) -> Seq<
    PendingFlush,
> {
    pending.filter(|p: PendingFlush| !requirement_met(p.requirement, durable))
}

/// The checkpoint requests whose requirement is met.
pub open spec fn met_checkpoints(pending: Seq<PendingCheckpoint>, durable: DurableState) -> Seq<
    PendingCheckpoint,
> {
    pending.filter(|p: PendingCheckpoint| requirement_met(p.requirement, durable))
}

/// The checkpoint requests whose requirement is not met.
pub open spec fn unmet_checkpoints(pending: Seq<PendingCheckpoint>, durable: DurableState) -> Seq<
    PendingCheckpoint,
> {
    pending.filter(|p: PendingCheckpoint| !requirement_met(p.requirement, durable))
}

/// Every flush request gets the same answer.
pub open spec fn flush_replies(
    flushes: Seq<PendingFlush>,
    result: Result<FlushResult, SlateDBError>,
) -> Seq<FlusherEffect> {
    flushes.map_values(|p: PendingFlush| FlusherEffect::ReplyFlush(p.sender, result))
}

/// Every checkpoint request gets the same error.
pub open spec fn checkpoint_refusals(
    checkpoints: Seq<PendingCheckpoint>,
    error: SlateDBError,
) -> Seq<FlusherEffect> {
    checkpoints.map_values(|p: PendingCheckpoint| FlusherEffect::ReplyCheckpoint(p.sender, Err(error)))
}

/// The highest sequence number of a memtable, 0 if it is empty.
pub open spec fn last_seq_of(imm_memtable: ImmutableMemtable) -> u64 {
    match imm_memtable.last_seq {
        Some(seq) => seq,
        None => 0,
    }
}

/// Whether a command looks at the memtables that are frozen when it arrives.
pub open spec fn captures(command: OrchestratorCommand) -> bool {
    match command {
        OrchestratorCommand::Flush { .. } => true,
        OrchestratorCommand::CreateCheckpoint { target, .. } => target is ThroughWalId
            || target is ThroughCurrentImm,
    }
}

/// The memtables once the one of an epoch has been uploaded.
pub open spec fn with_uploaded(live: Seq<TrackedImm>, epoch: FlushEpoch) -> Seq<TrackedImm> {
    live.map_values(
        |imm: TrackedImm|
            if imm.epoch == epoch {
                TrackedImm { state: TrackedImmState::Sequencing, ..imm }
            } else {
                imm
            },
    )
}

/// The places that wait for the answer to one of these flush requests.
pub open spec fn owed_flushes(pending: Seq<PendingFlush>) -> Multiset<ReplyHandle> {
    pending.map_values(|p: PendingFlush| p.sender).to_multiset()
}

/// The places that wait for the answer to one of these checkpoint requests.
pub open spec fn owed_checkpoints(pending: Seq<PendingCheckpoint>) -> Multiset<ReplyHandle> {
    pending.map_values(|p: PendingCheckpoint| p.sender).to_multiset()
}

/// The place that waits for the answer to a command.
pub open spec fn owed_by(command: OrchestratorCommand) -> Multiset<ReplyHandle> {
    match command {
        OrchestratorCommand::Flush { sender: Some(sender), .. } => Multiset::singleton(sender),
        OrchestratorCommand::Flush { sender: None, .. } => Multiset::empty(),
        OrchestratorCommand::CreateCheckpoint { sender, .. } => Multiset::singleton(sender),
    }
}

/// The places to which these effects send an answer.
pub open spec fn answered(effects: Seq<FlusherEffect>) -> Multiset<ReplyHandle>
    decreases effects.len(),
{
    if effects.len() == 0 {
        Multiset::empty()
    } else {
        match effects.last() {
            FlusherEffect::ReplyFlush(sender, _) => answered(effects.drop_last()).insert(sender),
            FlusherEffect::ReplyCheckpoint(sender, _) => answered(effects.drop_last()).insert(
                sender,
            ),
            _ => answered(effects.drop_last()),
        }
    }
}

impl FlusherModel {
    /// Whether the orchestrator is in a state that its operations can reach.
    pub open spec fn wf(self) -> bool {
        // The tracked memtables have the epochs just before the next one.
        &&& self.live.len() < self.next_epoch
        &&& forall|i: int|
            0 <= i < self.live.len() ==> (#[trigger] self.live[i]).epoch.0 == self.next_epoch
                - self.live.len() + i
        &&& forall|i: int, j: int|
            0 <= i < j < self.live.len() ==> (#[trigger] self.live[i]).imm_memtable.id != (
            #[trigger] self.live[j]).imm_memtable.id
        &&& self.phase is CreatingCheckpoint <==> self.due.len() > 0
        &&& self.reconcile_next ==> self.phase is CreatingCheckpoint
        &&& self.phase is FlushingWals || self.phase is Submitting ==> self.can_dispatch()
        // Once it has failed, nothing is left to answer.
        &&& self.failure is Some || self.phase is Stopped ==> self.pending_flushes.len() == 0
            && self.pending_checkpoints.len() == 0
        &&& self.failure is Some ==> self.phase is ClosingUploader || self.phase is ClosingSequencer
            || self.phase is Stopped
    }

    /// The answer to a flush request that is granted now.
    pub open spec fn flush_result(self) -> FlushResult {
        FlushResult {
            durable_through_wal_id: self.durable.wal_id,
            durable_through_seq: self.durable.seq,
        }
    }

    /// Whether another memtable may be uploaded: level 0 has room for it beside the memtables in
    /// flight, and one waits.
    pub open spec fn can_dispatch(self) -> bool {
        &&& !self.draining
        &&& self.durable_l0_len + in_flight(self.live) < self.l0_max_ssts
        &&& first_pending(self.live) < self.live.len()
    }

    /// Starts to track a memtable.
    pub open spec fn track(self, imm_memtable: Arc<ImmutableMemtable>) -> FlusherModel {
        if is_tracked(self.live, imm_memtable.id) {
            self
        } else {
            FlusherModel {
                next_epoch: (self.next_epoch + 1) as u64,
                live: self.live.push(
                    TrackedImm {
                        epoch: FlushEpoch(self.next_epoch),
                        imm_memtable,
                        state: TrackedImmState::PendingDispatch,
                    },
                ),
                ..self
            }
        }
    }

    /// Starts to track every frozen memtable, from the oldest on. `imms` holds the newest first.
    pub open spec fn register(self, imms: Seq<Arc<ImmutableMemtable>>) -> FlusherModel
        decreases imms.len(),
    {
        if imms.len() == 0 {
            self
        } else {
            self.track(imms.last()).register(imms.drop_last())
        }
    }

    /// Waits for the next event, or closes down if that is all that is left to do.
    pub open spec fn settle(self, effects: Seq<FlusherEffect>) -> FlusherOutcome {
        if self.draining && in_flight(self.live) == 0 {
            FlusherOutcome {
                next: FlusherModel { phase: FlusherPhase::ClosingUploader, ..self },
                effects,
                action: FlusherAction::CloseUploader,
            }
        } else {
            FlusherOutcome {
                next: FlusherModel { phase: FlusherPhase::Selecting, ..self },
                effects,
                action: FlusherAction::Select,
            }
        }
    }

    /// Creates the next checkpoint that is due, or goes on when none is.
    pub open spec fn advance(self, effects: Seq<FlusherEffect>) -> FlusherOutcome {
        if self.due.len() > 0 {
            FlusherOutcome {
                next: FlusherModel { phase: FlusherPhase::CreatingCheckpoint, ..self },
                effects,
                action: FlusherAction::CreateCheckpoint(self.due[0].options),
            }
        } else if self.reconcile_next && !self.draining {
            FlusherOutcome {
                next: FlusherModel {
                    phase: FlusherPhase::Refreshing,
                    reconcile_next: false,
                    ..self
                },
                effects,
                action: FlusherAction::RefreshManifest,
            }
        } else {
            FlusherModel { reconcile_next: false, ..self }.settle(effects)
        }
    }

    /// Answers the flush requests whose requirement is met, and makes the checkpoints whose
    /// requirement is met due.
    pub open spec fn resolve(self) -> FlusherOutcome {
        FlusherModel {
            pending_flushes: unmet_flushes(self.pending_flushes, self.durable),
            pending_checkpoints: unmet_checkpoints(self.pending_checkpoints, self.durable),
            due: met_checkpoints(self.pending_checkpoints, self.durable),
            ..self
        }.advance(
            flush_replies(
                met_flushes(self.pending_flushes, self.durable),
                Ok(self.flush_result()),
            ),
        )
    }

    /// Hands the first memtable that waits to the uploader.
    pub open spec fn submit(self) -> FlusherOutcome {
        let first = self.live[first_pending(self.live) as int];
        FlusherOutcome {
            next: FlusherModel { phase: FlusherPhase::Submitting, ..self },
            effects: Seq::empty(),
            action: FlusherAction::SubmitUpload {
                epoch: first.epoch,
                imm_memtable: first.imm_memtable,
            },
        }
    }

    /// Uploads another memtable, if one may be uploaded. Its entries have to be in the durable WAL
    /// first.
    pub open spec fn dispatch(self, last_remote_persisted_seq: u64) -> FlusherOutcome {
        let first = self.live[first_pending(self.live) as int];
        if !self.can_dispatch() {
            self.resolve()
        } else if self.wal_enabled && last_remote_persisted_seq < last_seq_of(
            *first.imm_memtable,
        ) {
            FlusherOutcome {
                next: FlusherModel { phase: FlusherPhase::FlushingWals, ..self },
                effects: Seq::empty(),
                action: FlusherAction::FlushWals,
            }
        } else {
            self.submit()
        }
    }

    /// Ends the orchestrator because the uploader or the sequencer has failed: the error is made known, every request gets it, and
    /// the uploader and the sequencer are closed.
    pub open spec fn fail(self, error: SlateDBError) -> FlusherOutcome {
        FlusherOutcome {
            next: FlusherModel {
                phase: FlusherPhase::ClosingUploader,
                pending_flushes: Seq::empty(),
                pending_checkpoints: Seq::empty(),
                failure: Some(error),
                ..self
            },
            effects: seq![FlusherEffect::Poison(error), FlusherEffect::WriteClosedResult(error)]
                + flush_replies(self.pending_flushes, Err(error)) + checkpoint_refusals(
                self.pending_checkpoints,
                error,
            ),
            action: FlusherAction::CloseUploader,
        }
    }

    /// Ends the orchestrator on the spot because work that it does itself has failed: requests that
    /// wait are dropped, and the error is known only as the orchestrator's result.
    pub open spec fn leave(self, error: SlateDBError) -> FlusherOutcome {
        FlusherOutcome {
            next: FlusherModel {
                phase: FlusherPhase::Stopped,
                pending_flushes: Seq::empty(),
                pending_checkpoints: Seq::empty(),
                ..self
            },
            effects: flush_replies(self.pending_flushes, Err(SlateDBError::ReadChannelError))
                + checkpoint_refusals(self.pending_checkpoints, SlateDBError::ReadChannelError),
            action: FlusherAction::Exit(Err(error)),
        }
    }

    /// Answers a flush request, or lets it wait; then the manifest is refreshed.
    pub open spec fn on_flush(self, target: FlushTarget, sender: Option<ReplyHandle>)
        -> FlusherOutcome {
        let requirement = requirement_of(self.live, target);
        let met = requirement_met(requirement, self.durable);
        FlusherOutcome {
            next: FlusherModel {
                phase: FlusherPhase::Refreshing,
                pending_flushes: match sender {
                    Some(sender) if !met => self.pending_flushes.push(
                        PendingFlush { requirement, sender },
                    ),
                    _ => self.pending_flushes,
                },
                ..self
            },
            effects: match sender {
                Some(sender) if met => seq![
                    FlusherEffect::ReplyFlush(sender, Ok(self.flush_result())),
                ],
                _ => Seq::empty(),
            },
            action: FlusherAction::RefreshManifest,
        }
    }

    /// Creates a checkpoint, or lets it wait; then the manifest is refreshed.
    pub open spec fn on_checkpoint(
        self,
        target: FlushTarget,
        options: CheckpointOptions,
        sender: ReplyHandle,
    ) -> FlusherOutcome {
        let requirement = requirement_of(self.live, target);
        let checkpoint = PendingCheckpoint { requirement, options, sender };
        if requirement_met(requirement, self.durable) {
            FlusherModel { due: seq![checkpoint], reconcile_next: true, ..self }.advance(
                Seq::empty(),
            )
        } else {
            FlusherModel {
                pending_checkpoints: self.pending_checkpoints.push(checkpoint),
                reconcile_next: true,
                ..self
            }.advance(Seq::empty())
        }
    }

    /// What follows a command. `frozen` holds the frozen memtables, the newest first.
    pub open spec fn on_command(
        self,
        command: OrchestratorCommand,
        frozen: Seq<Arc<ImmutableMemtable>>,
    ) -> FlusherOutcome {
        let captured = if captures(command) {
            self.register(frozen)
        } else {
            self
        };
        match command {
            OrchestratorCommand::Flush { target, sender } => captured.on_flush(target, sender),
            OrchestratorCommand::CreateCheckpoint {
                target,
                options,
                sender,
            } => captured.on_checkpoint(target, options, sender),
        }
    }

    /// What follows a refresh of the manifest.
    pub open spec fn on_refreshed(
        self,
        result: Result<usize, SlateDBError>,
        frozen: Seq<Arc<ImmutableMemtable>>,
        last_remote_persisted_seq: u64,
    ) -> FlusherOutcome {
        match result {
            Ok(l0_len) => FlusherModel { durable_l0_len: l0_len, ..self }.register(frozen).dispatch(
                last_remote_persisted_seq,
            ),
            Err(error) => self.leave(error),
        }
    }

    /// What follows when a memtable was handed to the uploader.
    pub open spec fn on_submitted(
        self,
        result: Result<(), SlateDBError>,
        last_remote_persisted_seq: u64,
    ) -> FlusherOutcome {
        let first = first_pending(self.live) as int;
        match result {
            Ok(()) => FlusherModel {
                live: self.live.update(
                    first,
                    TrackedImm { state: TrackedImmState::Uploading, ..self.live[first] },
                ),
                ..self
            }.dispatch(last_remote_persisted_seq),
            Err(error) => self.leave(error),
        }
    }

    /// What follows when everything through an epoch has become durable.
    pub open spec fn on_flushed(self, through_epoch: FlushEpoch, through_seq: u64)
        -> FlusherOutcome {
        let n = count_through(self.live, through_epoch) as int;
        FlusherModel {
            live: self.live.skip(n),
            durable: DurableState {
                epoch: Some(through_epoch),
                wal_id: if n > 0 {
                    Some(self.live[n - 1].imm_memtable.recent_flushed_wal_id)
                } else {
                    self.durable.wal_id
                },
                seq: Some(through_seq),
            },
            reconcile_next: true,
            ..self
        }.resolve()
    }

    /// What follows when the sequencer has answered a checkpoint request.
    pub open spec fn on_checkpoint_created(
        self,
        result: Result<CheckpointCreateResult, SlateDBError>,
    ) -> FlusherOutcome {
        FlusherModel { due: self.due.drop_first(), ..self }.advance(
            seq![FlusherEffect::ReplyCheckpoint(self.due[0].sender, result)],
        )
    }

    /// The result of the orchestrator once the sequencer has closed.
    pub open spec fn exit_result(self, sequencer: Result<(), SlateDBError>) -> Result<
        (),
        SlateDBError,
    > {
        match (self.failure, self.uploader_error) {
            (Some(error), _) => Err(error),
            (None, Some(error)) => Err(error),
            (None, None) => sequencer,
        }
    }

    /// What follows when the sequencer has closed: requests that still wait are answered that the
    /// orchestrator is closed, and memtables that are still in memory are told.
    pub open spec fn on_sequencer_closed(self, sequencer: Result<(), SlateDBError>)
        -> FlusherOutcome {
        let result = self.exit_result(sequencer);
        let error = match result {
            Ok(()) => SlateDBError::Closed,
            Err(error) => error,
        };
        FlusherOutcome {
            next: FlusherModel {
                phase: FlusherPhase::Stopped,
                pending_flushes: Seq::empty(),
                pending_checkpoints: Seq::empty(),
                ..self
            },
            effects: (flush_replies(self.pending_flushes, Err(SlateDBError::Closed))
                + checkpoint_refusals(self.pending_checkpoints, SlateDBError::Closed)).push(
                FlusherEffect::FailMemtables(error),
            ),
            action: FlusherAction::Exit(result),
        }
    }

    /// The places that still wait for an answer.
    pub open spec fn unanswered(self) -> Multiset<ReplyHandle> {
        owed_flushes(self.pending_flushes).add(owed_checkpoints(self.pending_checkpoints)).add(
            owed_checkpoints(self.due),
        )
    }

    /// Whether an outcome loses no request and answers none twice: what was unanswered or has just
    /// arrived is either answered by the effects or still unanswered.
    pub open spec fn conserves(self, arrived: Multiset<ReplyHandle>, outcome: FlusherOutcome)
        -> bool {
        self.unanswered().add(arrived) == answered(outcome.effects).add(outcome.next.unanswered())
    }
}

/// Decides which memtable is uploaded next, and answers flush and checkpoint requests.
#[derive(Debug)]
pub struct OrchestratorTask {
    phase: FlusherPhase,
    l0_max_ssts: usize,
    wal_enabled: bool,
    next_epoch: FlushEpoch,
    tracked_imms: VecDeque<TrackedImm>,
    durable_state: DurableState,
    pending_flushes: Vec<PendingFlush>,
    pending_checkpoints: Vec<PendingCheckpoint>,
    due_checkpoints: VecDeque<PendingCheckpoint>,
    durable_l0_len: usize,
    reconcile_next: bool,
    draining: bool,
    failure: Option<SlateDBError>,
    uploader_error: Option<SlateDBError>,
}

impl View for OrchestratorTask {
    type V = FlusherModel;

    closed spec fn view(&self) -> FlusherModel {
        FlusherModel {
            phase: self.phase,
            l0_max_ssts: self.l0_max_ssts,
            wal_enabled: self.wal_enabled,
            next_epoch: self.next_epoch.0,
            live: self.tracked_imms@,
            durable: self.durable_state,
            pending_flushes: self.pending_flushes@,
            pending_checkpoints: self.pending_checkpoints@,
            due: self.due_checkpoints@,
            durable_l0_len: self.durable_l0_len,
            reconcile_next: self.reconcile_next,
            draining: self.draining,
            failure: self.failure,
            uploader_error: self.uploader_error,
        }
    }
}

impl OrchestratorTask {
    /// An orchestrator that tracks nothing. Epochs start at 1.
    pub fn new(l0_max_ssts: usize, wal_enabled: bool) -> (task: Self)
        ensures
            task@.wf(),
            task@ == (FlusherModel {
                phase: FlusherPhase::Selecting,
                l0_max_ssts,
                wal_enabled,
                next_epoch: 1,
                live: Seq::empty(),
                durable: DurableState { epoch: None, wal_id: None, seq: None },
                pending_flushes: Seq::empty(),
                pending_checkpoints: Seq::empty(),
                due: Seq::empty(),
                durable_l0_len: 0,
                reconcile_next: false,
                draining: false,
                failure: None,
                uploader_error: None,
            }),
    {
        OrchestratorTask {
            phase: FlusherPhase::Selecting,
            l0_max_ssts,
            wal_enabled,
            next_epoch: FlushEpoch(1),
            tracked_imms: VecDeque::new(),
            durable_state: DurableState { epoch: None, wal_id: None, seq: None },
            pending_flushes: Vec::new(),
            pending_checkpoints: Vec::new(),
            due_checkpoints: VecDeque::new(),
            durable_l0_len: 0,
            reconcile_next: false,
            draining: false,
            failure: None,
            uploader_error: None,
        }
    }

    /// What the orchestrator waits for.
    pub fn phase(&self) -> (phase: FlusherPhase)
        ensures
            phase == self@.phase,
    {
        self.phase
    }

    /// The number of epochs that can still be given out.
    pub fn epochs_left(&self) -> (left: u64)
        ensures
            left == u64::MAX - self@.next_epoch,
    {
        u64::MAX - self.next_epoch.0
    }

    fn flush_result(&self) -> (result: FlushResult)
        ensures
            result == self@.flush_result(),
    {
        FlushResult {
            durable_through_wal_id: self.durable_state.wal_id,
            durable_through_seq: self.durable_state.seq,
        }
    }

    fn requirement_satisfied(&self, requirement: FlushRequirement) -> (satisfied: bool)
        ensures
            satisfied == requirement_met(requirement, self@.durable),
    {
        match requirement.epoch {
            Some(required) => match self.durable_state.epoch {
                Some(epoch) => epoch.0 >= required.0,
                None => false,
            },
            None => true,
        }
    }

    /// Counts the memtables that are with the uploader or the sequencer.
    fn reserved_l0_slots(&self) -> (count: usize)
        ensures
            count == in_flight(self@.live),
    {
        let mut count: usize = 0;
        let mut i: usize = 0;
        while i < self.tracked_imms.len()
            invariant
                i <= self.tracked_imms.len(),
                count <= i,
                count == in_flight(self@.live.take(i as int)),
            decreases self.tracked_imms.len() - i,
        {
            proof {
                let next = self@.live.take(i + 1);
                assert(next.drop_last() =~= self@.live.take(i as int));
                assert(next.last() == self@.live[i as int]);
            }
            match self.tracked_imms[i].state {
                TrackedImmState::Uploading | TrackedImmState::Sequencing => {
                    count = count + 1;
                },
                TrackedImmState::PendingDispatch => {},
            }
            i = i + 1;
        }
        assert(self@.live.take(i as int) =~= self@.live);
        count
    }

    /// The place of the first memtable that waits to be uploaded.
    fn next_pending_index(&self) -> (index: usize)
        ensures
            index == first_pending(self@.live),
            index <= self@.live.len(),
    {
        let mut i: usize = 0;
        assert(self@.live.skip(0) =~= self@.live);
        while i < self.tracked_imms.len()
            invariant
                i <= self.tracked_imms.len(),
                first_pending(self@.live) == i + first_pending(self@.live.skip(i as int)),
            decreases self.tracked_imms.len() - i,
        {
            assert(self@.live.skip(i as int)[0] == self@.live[i as int]);
            assert(self@.live.skip(i as int).drop_first() =~= self@.live.skip(i + 1));
            if matches!(self.tracked_imms[i].state, TrackedImmState::PendingDispatch) {
                return i;
            }
            i = i + 1;
        }
        i
    }

    /// Starts to track every frozen memtable that is new. `imms` holds the newest first.
    pub fn register_new_imm_memtables(&mut self, imms: &VecDeque<Arc<ImmutableMemtable>>)
        requires
            old(self)@.wf(),
            old(self)@.next_epoch + imms@.len() <= u64::MAX,
            old(self)@.phase is Selecting || old(self)@.phase is Refreshing,
        ensures
            final(self)@ == old(self)@.register(imms@),
            final(self)@.wf(),
    {
        let mut left: usize = imms.len();
        assert(imms@.take(left as int) =~= imms@);
        while left > 0
            invariant
                left <= imms@.len(),
                self@.wf(),
                self@.phase is Selecting || self@.phase is Refreshing,
                self@.next_epoch + left <= u64::MAX,
                self@.register(imms@.take(left as int)) == old(self)@.register(imms@),
            decreases left,
        {
            let imm_memtable = &imms[left - 1];
            let ghost before = self@;
            proof {
                let rest = imms@.take(left as int);
                assert(rest.last() == imms@[left - 1]);
                assert(rest.drop_last() =~= imms@.take(left - 1));
            }
            let mut found: bool = false;
            let mut i: usize = 0;
            while i < self.tracked_imms.len()
                invariant
                    i <= self.tracked_imms.len(),
                    found == exists|j: int|
                        0 <= j < i && (#[trigger] self@.live[j]).imm_memtable.id
                            == imm_memtable.id,
                decreases self.tracked_imms.len() - i,
            {
                if self.tracked_imms[i].imm_memtable.id == imm_memtable.id {
                    assert(self@.live[i as int].imm_memtable.id == imm_memtable.id);
                    found = true;
                }
                i = i + 1;
            }
            if !found {
                assert(!is_tracked(self@.live, imm_memtable.id));
                self.tracked_imms.push_back(
                    TrackedImm {
                        epoch: self.next_epoch,
                        imm_memtable: Arc::clone(imm_memtable),
                        state: TrackedImmState::PendingDispatch,
                    },
                );
                self.next_epoch = FlushEpoch(self.next_epoch.0 + 1);
                assert(self@ =~= before.track(*imm_memtable));
            } else {
                assert(is_tracked(self@.live, imm_memtable.id));
            }
            assert(self@ == before.track(*imm_memtable));
            left = left - 1;
        }
        assert(imms@.take(0).len() == 0);
    }

    /// Changes how far a memtable has come.
    fn set_state(&mut self, index: usize, state: TrackedImmState)
        requires
            index < old(self)@.live.len(),
        ensures
            final(self)@ == (FlusherModel {
                live: old(self)@.live.update(
                    index as int,
                    TrackedImm { state, ..old(self)@.live[index as int] },
                ),
                ..old(self)@
            }),
    {
        let ghost before = self@.live;
        let imm = self.tracked_imms.remove(index).unwrap();
        self.tracked_imms.insert(
            index,
            TrackedImm { epoch: imm.epoch, imm_memtable: imm.imm_memtable, state },
        );
        assert(self@.live =~= before.update(
            index as int,
            TrackedImm { state, ..before[index as int] },
        ));
    }

    /// What has to be durable before a request with this target is answered.
    fn requirement_for(&self, target: FlushTarget) -> (requirement: FlushRequirement)
        ensures
            requirement == requirement_of(self@.live, target),
    {
        match target {
            FlushTarget::BestEffort | FlushTarget::CurrentDurable => FlushRequirement {
                epoch: None,
            },
            FlushTarget::ThroughWalId(wal_id) => {
                let mut left: usize = self.tracked_imms.len();
                assert(self@.live.take(left as int) =~= self@.live);
                while left > 0
                    invariant
                        target == FlushTarget::ThroughWalId(wal_id),
                        left <= self@.live.len(),
                        wal_barrier(self@.live.take(left as int), wal_id) == wal_barrier(
                            self@.live,
                            wal_id,
                        ),
                    decreases left,
                {
                    proof {
                        let rest = self@.live.take(left as int);
                        assert(rest.last() == self@.live[left - 1]);
                        assert(rest.drop_last() =~= self@.live.take(left - 1));
                    }
                    let imm = &self.tracked_imms[left - 1];
                    if imm.imm_memtable.recent_flushed_wal_id <= wal_id {
                        return FlushRequirement { epoch: Some(imm.epoch) };
                    }
                    left = left - 1;
                }
                FlushRequirement { epoch: None }
            },
            FlushTarget::ThroughCurrentImm => {
                let n = self.tracked_imms.len();
                if n > 0 {
                    FlushRequirement { epoch: Some(self.tracked_imms[n - 1].epoch) }
                } else {
                    FlushRequirement { epoch: None }
                }
            },
        }
    }

    /// Waits for the next event, or closes down if that is all that is left to do.
    fn settle(&mut self, effects: Vec<FlusherEffect>) -> (step: FlusherStep)
        ensures
            outcome(step, final(self)@) == old(self)@.settle(effects@),
    {
        if self.draining && self.reserved_l0_slots() == 0 {
            self.phase = FlusherPhase::ClosingUploader;
            return FlusherStep { effects, action: FlusherAction::CloseUploader };
        }
        self.phase = FlusherPhase::Selecting;
        FlusherStep { effects, action: FlusherAction::Select }
    }

    /// Creates the next checkpoint that is due, or goes on when none is.
    fn advance(&mut self, effects: Vec<FlusherEffect>) -> (step: FlusherStep)
        ensures
            outcome(step, final(self)@) == old(self)@.advance(effects@),
    {
        if self.due_checkpoints.len() > 0 {
            self.phase = FlusherPhase::CreatingCheckpoint;
            let options = self.due_checkpoints[0].options;
            return FlusherStep { effects, action: FlusherAction::CreateCheckpoint(options) };
        }
        let reconcile = self.reconcile_next && !self.draining;
        self.reconcile_next = false;
        if reconcile {
            self.phase = FlusherPhase::Refreshing;
            return FlusherStep { effects, action: FlusherAction::RefreshManifest };
        }
        self.settle(effects)
    }

    /// Answers the flush requests whose requirement is met.
    fn resolve_flush_waiters(&mut self) -> (effects: Vec<FlusherEffect>)
        ensures
            effects@ == flush_replies(
                met_flushes(old(self)@.pending_flushes, old(self)@.durable),
                Ok(old(self)@.flush_result()),
            ),
            final(self)@ == (FlusherModel {
                pending_flushes: unmet_flushes(old(self)@.pending_flushes, old(self)@.durable),
                ..old(self)@
            }),
    {
        let ghost all = self.pending_flushes@;
        let ghost durable = self@.durable;
        let result = self.flush_result();
        let mut effects: Vec<FlusherEffect> = Vec::new();
        let mut pending: Vec<PendingFlush> = Vec::new();
        let mut i: usize = 0;
        reveal(Seq::filter);
        assert(effects@ =~= flush_replies(met_flushes(all.take(0), durable), Ok(result)));
        while i < self.pending_flushes.len()
            invariant
                all == self.pending_flushes@,
                durable == self@.durable,
                self@ == old(self)@,
                i <= all.len(),
                effects@ == flush_replies(met_flushes(all.take(i as int), durable), Ok(result)),
                pending@ == unmet_flushes(all.take(i as int), durable),
            decreases all.len() - i,
        {
            let flush = self.pending_flushes[i];
            proof {
                let next = all.take(i + 1);
                assert(next.drop_last() =~= all.take(i as int));
                assert(next.last() == all[i as int]);
                reveal(Seq::filter);
            }
            if self.requirement_satisfied(flush.requirement) {
                effects.push(FlusherEffect::ReplyFlush(flush.sender, Ok(result)));
                assert(effects@ =~= flush_replies(
                    met_flushes(all.take(i + 1), durable),
                    Ok(result),
                ));
            } else {
                pending.push(flush);
            }
            i = i + 1;
        }
        assert(all.take(i as int) =~= all);
        self.pending_flushes = pending;
        effects
    }

    /// Makes the checkpoints whose requirement is met due.
    fn resolve_checkpoint_waiters(&mut self)
        ensures
            final(self)@ == (FlusherModel {
                pending_checkpoints: unmet_checkpoints(
                    old(self)@.pending_checkpoints,
                    old(self)@.durable,
                ),
                due: met_checkpoints(old(self)@.pending_checkpoints, old(self)@.durable),
                ..old(self)@
            }),
    {
        let ghost all = self.pending_checkpoints@;
        let ghost durable = self@.durable;
        let mut due: VecDeque<PendingCheckpoint> = VecDeque::new();
        let mut pending: Vec<PendingCheckpoint> = Vec::new();
        let mut i: usize = 0;
        reveal(Seq::filter);
        assert(all.take(0) =~= Seq::<PendingCheckpoint>::empty());
        while i < self.pending_checkpoints.len()
            invariant
                all == self.pending_checkpoints@,
                durable == self@.durable,
                self@ == old(self)@,
                i <= all.len(),
                due@ == met_checkpoints(all.take(i as int), durable),
                pending@ == unmet_checkpoints(all.take(i as int), durable),
            decreases all.len() - i,
        {
            let checkpoint = self.pending_checkpoints[i];
            proof {
                let next = all.take(i + 1);
                assert(next.drop_last() =~= all.take(i as int));
                assert(next.last() == all[i as int]);
                reveal(Seq::filter);
            }
            if self.requirement_satisfied(checkpoint.requirement) {
                due.push_back(checkpoint);
            } else {
                pending.push(checkpoint);
            }
            i = i + 1;
        }
        assert(all.take(i as int) =~= all);
        self.pending_checkpoints = pending;
        self.due_checkpoints = due;
    }

    /// Answers every request whose requirement is met.
    fn resolve(&mut self) -> (step: FlusherStep)
        ensures
            outcome(step, final(self)@) == old(self)@.resolve(),
    {
        let effects = self.resolve_flush_waiters();
        self.resolve_checkpoint_waiters();
        self.advance(effects)
    }

    /// Whether another memtable may be uploaded.
    fn may_dispatch(&self) -> (may: bool)
        ensures
            may == self@.can_dispatch(),
    {
        if self.draining {
            return false;
        }
        let reserved_l0_slots = self.reserved_l0_slots();
        if self.durable_l0_len >= self.l0_max_ssts {
            return false;
        }
        if reserved_l0_slots >= self.l0_max_ssts - self.durable_l0_len {
            return false;
        }
        self.next_pending_index() < self.tracked_imms.len()
    }

    /// Hands the first memtable that waits to the uploader.
    fn submit(&mut self) -> (step: FlusherStep)
        requires
            old(self)@.can_dispatch(),
        ensures
            outcome(step, final(self)@) == old(self)@.submit(),
    {
        let index = self.next_pending_index();
        let epoch = self.tracked_imms[index].epoch;
        let imm_memtable = Arc::clone(&self.tracked_imms[index].imm_memtable);
        self.phase = FlusherPhase::Submitting;
        let step = FlusherStep {
            effects: Vec::new(),
            action: FlusherAction::SubmitUpload { epoch, imm_memtable },
        };
        assert(step.effects@ =~= Seq::empty());
        step
    }

    /// Uploads another memtable, if one may be uploaded.
    fn dispatch_ready_memtables(&mut self, last_remote_persisted_seq: u64) -> (step: FlusherStep)
        ensures
            outcome(step, final(self)@) == old(self)@.dispatch(last_remote_persisted_seq),
    {
        if !self.may_dispatch() {
            return self.resolve();
        }
        if self.wal_enabled {
            let index = self.next_pending_index();
            let last_seq = match self.tracked_imms[index].imm_memtable.last_seq {
                Some(seq) => seq,
                None => 0,
            };
            if last_remote_persisted_seq < last_seq {
                self.phase = FlusherPhase::FlushingWals;
                let step = FlusherStep { effects: Vec::new(), action: FlusherAction::FlushWals };
                assert(step.effects@ =~= Seq::empty());
                return step;
            }
        }
        self.submit()
    }

    /// Ends the orchestrator with an error.
    fn handle_fatal_error(&mut self, error: SlateDBError) -> (step: FlusherStep)
        ensures
            outcome(step, final(self)@) == old(self)@.fail(error),
    {
        let ghost before = self@;
        let mut effects: Vec<FlusherEffect> = Vec::new();
        effects.push(FlusherEffect::Poison(error));
        effects.push(FlusherEffect::WriteClosedResult(error));
        self.refuse_waiters(&mut effects, error);
        self.failure = Some(error);
        self.phase = FlusherPhase::ClosingUploader;
        assert(effects@ =~= before.fail(error).effects);
        FlusherStep { effects, action: FlusherAction::CloseUploader }
    }

    /// Ends the orchestrator on the spot because work that it does itself has failed.
    fn leave(&mut self, error: SlateDBError) -> (step: FlusherStep)
        ensures
            outcome(step, final(self)@) == old(self)@.leave(error),
    {
        let ghost before = self@;
        let mut effects: Vec<FlusherEffect> = Vec::new();
        self.refuse_waiters(&mut effects, SlateDBError::ReadChannelError);
        self.phase = FlusherPhase::Stopped;
        assert(effects@ =~= before.leave(error).effects);
        FlusherStep { effects, action: FlusherAction::Exit(Err(error)) }
    }

    /// Answers every request that waits with an error.
    fn refuse_waiters(&mut self, effects: &mut Vec<FlusherEffect>, error: SlateDBError)
        ensures
            final(effects)@ == old(effects)@ + flush_replies(
                old(self)@.pending_flushes,
                Err(error),
            ) + checkpoint_refusals(old(self)@.pending_checkpoints, error),
            final(self)@ == (FlusherModel {
                pending_flushes: Seq::empty(),
                pending_checkpoints: Seq::empty(),
                ..old(self)@
            }),
    {
        let ghost first = effects@;
        let ghost flushes = self@.pending_flushes;
        let mut i: usize = 0;
        assert(effects@ =~= first + flush_replies(flushes.take(0), Err(error)));
        while i < self.pending_flushes.len()
            invariant
                self@ == old(self)@,
                flushes == self@.pending_flushes,
                i <= flushes.len(),
                effects@ == first + flush_replies(flushes.take(i as int), Err(error)),
            decreases flushes.len() - i,
        {
            effects.push(FlusherEffect::ReplyFlush(self.pending_flushes[i].sender, Err(error)));
            assert(effects@ =~= first + flush_replies(flushes.take(i + 1), Err(error)));
            i = i + 1;
        }
        assert(flushes.take(i as int) =~= flushes);
        let ghost second = effects@;
        let ghost checkpoints = self@.pending_checkpoints;
        let mut j: usize = 0;
        assert(effects@ =~= second + checkpoint_refusals(checkpoints.take(0), error));
        while j < self.pending_checkpoints.len()
            invariant
                self@ == old(self)@,
                checkpoints == self@.pending_checkpoints,
                j <= checkpoints.len(),
                effects@ == second + checkpoint_refusals(checkpoints.take(j as int), error),
            decreases checkpoints.len() - j,
        {
            effects.push(
                FlusherEffect::ReplyCheckpoint(self.pending_checkpoints[j].sender, Err(error)),
            );
            assert(effects@ =~= second + checkpoint_refusals(checkpoints.take(j + 1), error));
            j = j + 1;
        }
        assert(checkpoints.take(j as int) =~= checkpoints);
        self.pending_flushes = Vec::new();
        self.pending_checkpoints = Vec::new();
    }

    /// The poll timer went off.
    pub fn tick(&mut self) -> (step: FlusherStep)
        requires
            old(self)@.wf(),
            old(self)@.phase is Selecting,
            !old(self)@.draining,
        ensures
            final(self)@.wf(),
            old(self)@.conserves(Multiset::empty(), outcome(step, final(self)@)),
            final(self)@ == (FlusherModel { phase: FlusherPhase::Refreshing, ..old(self)@ }),
            step.effects@.len() == 0,
            step.action is RefreshManifest,
    {
        self.phase = FlusherPhase::Refreshing;
        assert(self@.unanswered().add(Multiset::empty()) =~= Multiset::empty().add(
            self@.unanswered(),
        ));
        FlusherStep { effects: Vec::new(), action: FlusherAction::RefreshManifest }
    }

    /// A command has arrived. `frozen` holds the frozen memtables, the newest first.
    pub fn command(
        &mut self,
        command: OrchestratorCommand,
        frozen: &VecDeque<Arc<ImmutableMemtable>>,
    ) -> (step: FlusherStep)
        requires
            old(self)@.wf(),
            old(self)@.phase is Selecting,
            !old(self)@.draining,
            old(self)@.next_epoch + frozen@.len() <= u64::MAX,
        ensures
            final(self)@.wf(),
            old(self)@.conserves(owed_by(command), outcome(step, final(self)@)),
            outcome(step, final(self)@) == old(self)@.on_command(command, frozen@),
    {
        proof {
            lemma_register(self@, frozen@);
        }
        match command {
            OrchestratorCommand::Flush { target, sender } => {
                self.register_new_imm_memtables(frozen);
                let step = self.handle_flush_request(target, sender);
                proof {
                    lemma_flush_conserves(old(self)@.register(frozen@), target, sender);
                }
                step
            },
            OrchestratorCommand::CreateCheckpoint { target, options, sender } => {
                match target {
                    FlushTarget::ThroughWalId(_) | FlushTarget::ThroughCurrentImm => {
                        self.register_new_imm_memtables(frozen);
                    },
                    FlushTarget::BestEffort | FlushTarget::CurrentDurable => {},
                }
                let ghost captured = self@;
                let step = self.handle_checkpoint_request(target, options, sender);
                proof {
                    lemma_checkpoint_conserves(captured, target, options, sender);
                }
                step
            },
        }
    }

    fn handle_flush_request(&mut self, target: FlushTarget, sender: Option<ReplyHandle>) -> (step:
        FlusherStep)
        requires
            old(self)@.wf(),
            old(self)@.phase is Selecting,
        ensures
            final(self)@.wf(),
            outcome(step, final(self)@) == old(self)@.on_flush(target, sender),
    {
        let requirement = self.requirement_for(target);
        let mut effects: Vec<FlusherEffect> = Vec::new();
        if let Some(sender) = sender {
            if self.requirement_satisfied(requirement) {
                effects.push(FlusherEffect::ReplyFlush(sender, Ok(self.flush_result())));
            } else {
                self.pending_flushes.push(PendingFlush { requirement, sender });
            }
        }
        self.phase = FlusherPhase::Refreshing;
        assert(effects@ =~= old(self)@.on_flush(target, sender).effects);
        FlusherStep { effects, action: FlusherAction::RefreshManifest }
    }

    fn handle_checkpoint_request(
        &mut self,
        target: FlushTarget,
        options: CheckpointOptions,
        sender: ReplyHandle,
    ) -> (step: FlusherStep)
        requires
            old(self)@.wf(),
            old(self)@.phase is Selecting,
        ensures
            final(self)@.wf(),
            outcome(step, final(self)@) == old(self)@.on_checkpoint(target, options, sender),
    {
        let requirement = self.requirement_for(target);
        let checkpoint = PendingCheckpoint { requirement, options, sender };
        if self.requirement_satisfied(requirement) {
            self.due_checkpoints.push_back(checkpoint);
            assert(self@.due =~= seq![checkpoint]);
        } else {
            self.pending_checkpoints.push(checkpoint);
        }
        self.reconcile_next = true;
        let effects: Vec<FlusherEffect> = Vec::new();
        assert(effects@ =~= Seq::empty());
        self.advance(effects)
    }

    /// No command will arrive any more: nothing new is dispatched, and once nothing is in flight,
    /// the orchestrator closes down.
    pub fn disconnected(&mut self) -> (step: FlusherStep)
        requires
            old(self)@.wf(),
            old(self)@.phase is Selecting,
            !old(self)@.draining,
        ensures
            final(self)@.wf(),
            old(self)@.conserves(Multiset::empty(), outcome(step, final(self)@)),
            outcome(step, final(self)@) == (FlusherModel { draining: true, ..old(self)@ }).settle(
                Seq::empty(),
            ),
    {
        self.draining = true;
        let effects: Vec<FlusherEffect> = Vec::new();
        assert(effects@ =~= Seq::empty());
        let step = self.settle(effects);
        assert(self@.unanswered().add(Multiset::empty()) =~= Multiset::empty().add(
            self@.unanswered(),
        ));
        step
    }

    /// The uploader has uploaded a memtable.
    pub fn uploaded(&mut self, uploaded: UploadedMemtable) -> (step: FlusherStep)
        requires
            old(self)@.wf(),
            old(self)@.phase is Selecting,
        ensures
            final(self)@.wf(),
            old(self)@.conserves(Multiset::empty(), outcome(step, final(self)@)),
            final(self)@ == (FlusherModel {
                phase: FlusherPhase::Notifying,
                live: with_uploaded(old(self)@.live, uploaded.epoch),
                ..old(self)@
            }),
            step.effects@.len() == 0,
            step.action == FlusherAction::NotifySequencer(uploaded),
    {
        let ghost before = self@;
        let mut i: usize = 0;
        let mut found: bool = false;
        while i < self.tracked_imms.len() && !found
            invariant
                before == old(self)@,
                before.wf(),
                i <= self.tracked_imms.len(),
                !found ==> self@ == before && forall|j: int|
                    0 <= j < i ==> (#[trigger] before.live[j]).epoch != uploaded.epoch,
                found ==> self@ == (FlusherModel {
                    live: with_uploaded(before.live, uploaded.epoch),
                    ..before
                }),
            decreases self.tracked_imms.len() - i + (if found { 0int } else { 1int }),
        {
            if self.tracked_imms[i].epoch.0 == uploaded.epoch.0 {
                self.set_state(i, TrackedImmState::Sequencing);
                found = true;
                assert(self@.live =~= with_uploaded(before.live, uploaded.epoch));
            } else {
                i = i + 1;
            }
        }
        assert(self@.live =~= with_uploaded(before.live, uploaded.epoch));
        self.phase = FlusherPhase::Notifying;
        assert(self@.unanswered().add(Multiset::empty()) =~= Multiset::empty().add(
            self@.unanswered(),
        ));
        FlusherStep { effects: Vec::new(), action: FlusherAction::NotifySequencer(uploaded) }
    }

    /// An upload was handed to the sequencer, or could not be.
    pub fn notified(&mut self, result: Result<(), SlateDBError>) -> (step: FlusherStep)
        requires
            old(self)@.wf(),
            old(self)@.phase is Notifying,
        ensures
            final(self)@.wf(),
            old(self)@.conserves(Multiset::empty(), outcome(step, final(self)@)),
            outcome(step, final(self)@) == match result {
                Ok(()) => old(self)@.settle(Seq::empty()),
                Err(error) => old(self)@.leave(error),
            },
    {
        match result {
            Ok(()) => {
                let effects: Vec<FlusherEffect> = Vec::new();
                assert(effects@ =~= Seq::empty());
                let step = self.settle(effects);
                assert(self@.unanswered().add(Multiset::empty()) =~= Multiset::empty().add(
                    self@.unanswered(),
                ));
                step
            },
            Err(error) => {
                proof {
                    lemma_leave_conserves(self@, error);
                }
                self.leave(error)
            },
        }
    }

    /// Everything through an epoch has become durable.
    pub fn flushed(&mut self, through_epoch: FlushEpoch, through_seq: u64) -> (step: FlusherStep)
        requires
            old(self)@.wf(),
            old(self)@.phase is Selecting,
        ensures
            final(self)@.wf(),
            old(self)@.conserves(Multiset::empty(), outcome(step, final(self)@)),
            outcome(step, final(self)@) == old(self)@.on_flushed(through_epoch, through_seq),
    {
        let ghost before = self@;
        let mut through_wal_id: Option<u64> = None;
        let ghost mut popped: int = 0;
        let mut more: bool = true;
        assert(before.live.skip(0) =~= before.live);
        while more
            invariant
                before == old(self)@,
                0 <= popped <= before.live.len(),
                self@ == (FlusherModel { live: before.live.skip(popped), ..before }),
                count_through(before.live, through_epoch) == popped + count_through(
                    before.live.skip(popped),
                    through_epoch,
                ),
                !more ==> count_through(before.live.skip(popped), through_epoch) == 0,
                through_wal_id == (if popped > 0 {
                    Some(before.live[popped - 1].imm_memtable.recent_flushed_wal_id)
                } else {
                    None
                }),
            decreases before.live.len() - popped + (if more { 1int } else { 0int }),
        {
            if self.tracked_imms.len() == 0 || self.tracked_imms[0].epoch.0 > through_epoch.0 {
                more = false;
            } else {
                let ghost rest = before.live.skip(popped);
                assert(rest[0] == before.live[popped]);
                assert(rest.drop_first() =~= before.live.skip(popped + 1));
                let imm = self.tracked_imms.pop_front().unwrap();
                through_wal_id = Some(imm.imm_memtable.recent_flushed_wal_id);
                proof {
                    assert(self@.live =~= before.live.skip(popped + 1));
                    popped = popped + 1;
                }
            }
        }
        let wal_id = match through_wal_id {
            Some(wal_id) => Some(wal_id),
            None => self.durable_state.wal_id,
        };
        self.durable_state = DurableState {
            epoch: Some(through_epoch),
            wal_id,
            seq: Some(through_seq),
        };
        self.reconcile_next = true;
        proof {
            lemma_resolve_conserves(self@);
        }
        self.resolve()
    }

    /// The uploader or the sequencer has failed, or its events have ended (`Closed`).
    pub fn failed(&mut self, error: SlateDBError) -> (step: FlusherStep)
        requires
            old(self)@.wf(),
            old(self)@.phase is Selecting,
        ensures
            final(self)@.wf(),
            old(self)@.conserves(Multiset::empty(), outcome(step, final(self)@)),
            outcome(step, final(self)@) == old(self)@.fail(error),
    {
        proof {
            lemma_fail_conserves(self@, error);
        }
        self.handle_fatal_error(error)
    }

    /// The manifest was read: level 0 holds `result` tables. `frozen` holds the frozen memtables,
    /// the newest first, and the WAL is durable through `last_remote_persisted_seq`.
    pub fn refreshed(
        &mut self,
        result: Result<usize, SlateDBError>,
        frozen: &VecDeque<Arc<ImmutableMemtable>>,
        last_remote_persisted_seq: u64,
    ) -> (step: FlusherStep)
        requires
            old(self)@.wf(),
            old(self)@.phase is Refreshing,
            old(self)@.next_epoch + frozen@.len() <= u64::MAX,
        ensures
            final(self)@.wf(),
            old(self)@.conserves(Multiset::empty(), outcome(step, final(self)@)),
            outcome(step, final(self)@) == old(self)@.on_refreshed(
                result,
                frozen@,
                last_remote_persisted_seq,
            ),
    {
        match result {
            Ok(l0_len) => {
                self.durable_l0_len = l0_len;
                proof {
                    lemma_register(self@, frozen@);
                }
                self.register_new_imm_memtables(frozen);
                proof {
                    lemma_dispatch_conserves(self@, last_remote_persisted_seq);
                }
                self.dispatch_ready_memtables(last_remote_persisted_seq)
            },
            Err(error) => {
                proof {
                    lemma_leave_conserves(self@, error);
                }
                self.leave(error)
            },
        }
    }

    /// The WAL was made durable, or could not be.
    pub fn wals_flushed(&mut self, result: Result<(), SlateDBError>) -> (step: FlusherStep)
        requires
            old(self)@.wf(),
            old(self)@.phase is FlushingWals,
        ensures
            final(self)@.wf(),
            old(self)@.conserves(Multiset::empty(), outcome(step, final(self)@)),
            outcome(step, final(self)@) == match result {
                Ok(()) => old(self)@.submit(),
                Err(error) => old(self)@.leave(error),
            },
    {
        match result {
            Ok(()) => {
                let step = self.submit();
                assert(self@.unanswered().add(Multiset::empty()) =~= Multiset::empty().add(
                    self@.unanswered(),
                ));
                step
            },
            Err(error) => {
                proof {
                    lemma_leave_conserves(self@, error);
                }
                self.leave(error)
            },
        }
    }

    /// A memtable was handed to the uploader, or could not be.
    pub fn submitted(&mut self, result: Result<(), SlateDBError>, last_remote_persisted_seq: u64) -> (step:
        FlusherStep)
        requires
            old(self)@.wf(),
            old(self)@.phase is Submitting,
        ensures
            final(self)@.wf(),
            old(self)@.conserves(Multiset::empty(), outcome(step, final(self)@)),
            outcome(step, final(self)@) == old(self)@.on_submitted(
                result,
                last_remote_persisted_seq,
            ),
    {
        match result {
            Ok(()) => {
                let index = self.next_pending_index();
                self.set_state(index, TrackedImmState::Uploading);
                proof {
                    lemma_dispatch_conserves(self@, last_remote_persisted_seq);
                }
                self.dispatch_ready_memtables(last_remote_persisted_seq)
            },
            Err(error) => {
                proof {
                    lemma_leave_conserves(self@, error);
                }
                self.leave(error)
            },
        }
    }

    /// The sequencer has answered the checkpoint request that was due.
    pub fn checkpoint_created(&mut self, result: Result<CheckpointCreateResult, SlateDBError>) -> (step:
        FlusherStep)
        requires
            old(self)@.wf(),
            old(self)@.phase is CreatingCheckpoint,
        ensures
            final(self)@.wf(),
            old(self)@.conserves(Multiset::empty(), outcome(step, final(self)@)),
            outcome(step, final(self)@) == old(self)@.on_checkpoint_created(result),
    {
        let ghost before = self@;
        let checkpoint = self.due_checkpoints.pop_front().unwrap();
        assert(self@.due =~= before.due.drop_first());
        let mut effects: Vec<FlusherEffect> = Vec::new();
        effects.push(FlusherEffect::ReplyCheckpoint(checkpoint.sender, result));
        let ghost told = effects@;
        assert(told =~= seq![FlusherEffect::ReplyCheckpoint(before.due[0].sender, result)]);
        let step = self.advance(effects);
        proof {
            lemma_owed_checkpoints_first(before.due);
            reveal_with_fuel(answered, 2);
            assert(told.drop_last() =~= Seq::empty());
            assert(before.unanswered().add(Multiset::empty()) =~= answered(told).add(
                self@.unanswered(),
            ));
        }
        step
    }

    /// The uploader was closed.
    pub fn uploader_closed(&mut self, result: Result<(), SlateDBError>) -> (step: FlusherStep)
        requires
            old(self)@.wf(),
            old(self)@.phase is ClosingUploader,
        ensures
            final(self)@.wf(),
            old(self)@.conserves(Multiset::empty(), outcome(step, final(self)@)),
            final(self)@ == (FlusherModel {
                phase: FlusherPhase::ClosingSequencer,
                uploader_error: match result {
                    Ok(()) => None,
                    Err(error) => Some(error),
                },
                ..old(self)@
            }),
            step.effects@.len() == 0,
            step.action is CloseSequencer,
    {
        self.uploader_error = match result {
            Ok(()) => None,
            Err(error) => Some(error),
        };
        self.phase = FlusherPhase::ClosingSequencer;
        assert(self@.unanswered().add(Multiset::empty()) =~= Multiset::empty().add(
            self@.unanswered(),
        ));
        FlusherStep { effects: Vec::new(), action: FlusherAction::CloseSequencer }
    }

    /// The sequencer was closed.
    pub fn sequencer_closed(&mut self, result: Result<(), SlateDBError>) -> (step: FlusherStep)
        requires
            old(self)@.wf(),
            old(self)@.phase is ClosingSequencer,
        ensures
            final(self)@.wf(),
            old(self)@.conserves(Multiset::empty(), outcome(step, final(self)@)),
            outcome(step, final(self)@) == old(self)@.on_sequencer_closed(result),
    {
        let ghost before = self@;
        let exit_result = match self.failure {
            Some(error) => Err(error),
            None => match self.uploader_error {
                Some(error) => Err(error),
                None => result,
            },
        };
        let error = match exit_result {
            Ok(()) => SlateDBError::Closed,
            Err(error) => error,
        };
        let mut effects: Vec<FlusherEffect> = Vec::new();
        self.refuse_waiters(&mut effects, SlateDBError::Closed);
        let ghost refusals = effects@;
        effects.push(FlusherEffect::FailMemtables(error));
        self.phase = FlusherPhase::Stopped;
        proof {
            assert(effects@ =~= before.on_sequencer_closed(result).effects);
            assert(effects@.drop_last() =~= refusals);
            lemma_owed_empty();
            assert(refusals =~= flush_replies(before.pending_flushes, Err(SlateDBError::Closed))
                + checkpoint_refusals(before.pending_checkpoints, SlateDBError::Closed));
            lemma_answered_add(
                flush_replies(before.pending_flushes, Err(SlateDBError::Closed)),
                checkpoint_refusals(before.pending_checkpoints, SlateDBError::Closed),
            );
            lemma_answered_flushes(before.pending_flushes, Err(SlateDBError::Closed));
            lemma_answered_refusals(before.pending_checkpoints, SlateDBError::Closed);
            assert(before.unanswered().add(Multiset::empty()) =~= answered(effects@).add(
                self@.unanswered(),
            ));
        }
        FlusherStep { effects, action: FlusherAction::Exit(exit_result) }
    }
}

/// Tracking memtables changes nothing but the tracked memtables and the next epoch.
proof fn lemma_register(model: FlusherModel, frozen: Seq<Arc<ImmutableMemtable>>)
    ensures
        model.register(frozen) == (FlusherModel {
            next_epoch: model.register(frozen).next_epoch,
            live: model.register(frozen).live,
            ..model
        }),
    decreases frozen.len(),
{
    if frozen.len() > 0 {
        lemma_register(model.track(frozen.last()), frozen.drop_last());
    }
}

proof fn lemma_flush_conserves(
    model: FlusherModel,
    target: FlushTarget,
    sender: Option<ReplyHandle>,
)
    ensures
        model.conserves(
            owed_by(OrchestratorCommand::Flush { target, sender }),
            model.on_flush(target, sender),
        ),
{
    let after = model.on_flush(target, sender);
    let arrived = owed_by(OrchestratorCommand::Flush { target, sender });
    reveal_with_fuel(answered, 2);
    if let Some(sender) = sender {
        let requirement = requirement_of(model.live, target);
        lemma_owed_flushes_push(model.pending_flushes, PendingFlush { requirement, sender });
        if after.effects.len() > 0 {
            assert(after.effects.drop_last() =~= Seq::empty());
        }
    }
    assert(model.unanswered().add(arrived) =~= answered(after.effects).add(
        after.next.unanswered(),
    ));
}

proof fn lemma_checkpoint_conserves(
    model: FlusherModel,
    target: FlushTarget,
    options: CheckpointOptions,
    sender: ReplyHandle,
)
    requires
        model.due.len() == 0,
    ensures
        model.conserves(
            owed_by(OrchestratorCommand::CreateCheckpoint { target, options, sender }),
            model.on_checkpoint(target, options, sender),
        ),
{
    let after = model.on_checkpoint(target, options, sender);
    let arrived = owed_by(OrchestratorCommand::CreateCheckpoint { target, options, sender });
    let requirement = requirement_of(model.live, target);
    let checkpoint = PendingCheckpoint { requirement, options, sender };
    lemma_owed_empty();
    lemma_owed_checkpoints_push(model.pending_checkpoints, checkpoint);
    lemma_owed_checkpoints_push(Seq::empty(), checkpoint);
    assert(Seq::empty().push(checkpoint) =~= seq![checkpoint]);
    assert(model.due =~= Seq::empty());
    assert(model.unanswered().add(arrived) =~= answered(after.effects).add(
        after.next.unanswered(),
    ));
}

proof fn lemma_resolve_conserves(model: FlusherModel)
    requires
        model.due.len() == 0,
    ensures
        model.conserves(Multiset::empty(), model.resolve()),
{
    let after = model.resolve();
    lemma_owed_empty();
    lemma_flushes_split(model.pending_flushes, model.durable);
    lemma_checkpoints_split(model.pending_checkpoints, model.durable);
    lemma_answered_flushes(
        met_flushes(model.pending_flushes, model.durable),
        Ok(model.flush_result()),
    );
    assert(model.due =~= Seq::empty());
    assert(model.unanswered().add(Multiset::empty()) =~= answered(after.effects).add(
        after.next.unanswered(),
    ));
}

proof fn lemma_dispatch_conserves(model: FlusherModel, last_remote_persisted_seq: u64)
    requires
        model.due.len() == 0,
    ensures
        model.conserves(Multiset::empty(), model.dispatch(last_remote_persisted_seq)),
{
    let after = model.dispatch(last_remote_persisted_seq);
    if model.can_dispatch() {
        assert(model.unanswered().add(Multiset::empty()) =~= answered(after.effects).add(
            after.next.unanswered(),
        ));
    } else {
        lemma_resolve_conserves(model);
    }
}

proof fn lemma_fail_conserves(model: FlusherModel, error: SlateDBError)
    ensures
        model.conserves(Multiset::empty(), model.fail(error)),
{
    let after = model.fail(error);
    let notices = seq![FlusherEffect::Poison(error), FlusherEffect::WriteClosedResult(error)];
    let flushes = flush_replies(model.pending_flushes, Err(error));
    let refusals = checkpoint_refusals(model.pending_checkpoints, error);
    lemma_answered_add(notices + flushes, refusals);
    lemma_answered_add(notices, flushes);
    reveal_with_fuel(answered, 3);
    assert(notices.drop_last().drop_last() =~= Seq::empty());
    lemma_answered_flushes(model.pending_flushes, Err(error));
    lemma_answered_refusals(model.pending_checkpoints, error);
    lemma_owed_empty();
    assert(model.unanswered().add(Multiset::empty()) =~= answered(after.effects).add(
        after.next.unanswered(),
    ));
}

proof fn lemma_leave_conserves(model: FlusherModel, error: SlateDBError)
    ensures
        model.conserves(Multiset::empty(), model.leave(error)),
{
    let after = model.leave(error);
    let dropped = SlateDBError::ReadChannelError;
    lemma_answered_add(
        flush_replies(model.pending_flushes, Err(dropped)),
        checkpoint_refusals(model.pending_checkpoints, dropped),
    );
    lemma_answered_flushes(model.pending_flushes, Err(dropped));
    lemma_answered_refusals(model.pending_checkpoints, dropped);
    lemma_owed_empty();
    assert(model.unanswered().add(Multiset::empty()) =~= answered(after.effects).add(
        after.next.unanswered(),
    ));
}

proof fn lemma_owed_empty()
    ensures
        owed_flushes(Seq::empty()) == Multiset::<ReplyHandle>::empty(),
        owed_checkpoints(Seq::empty()) == Multiset::<ReplyHandle>::empty(),
{
    broadcast use vstd::seq_lib::group_to_multiset_ensures;

    let flushes = Seq::<PendingFlush>::empty().map_values(|p: PendingFlush| p.sender);
    let checkpoints = Seq::<PendingCheckpoint>::empty().map_values(
        |p: PendingCheckpoint| p.sender,
    );
    assert(flushes.to_multiset().len() == 0);
    assert(flushes.to_multiset() =~= Multiset::empty());
    assert(checkpoints.to_multiset().len() == 0);
    assert(checkpoints.to_multiset() =~= Multiset::empty());
}

proof fn lemma_owed_flushes_push(pending: Seq<PendingFlush>, flush: PendingFlush)
    ensures
        owed_flushes(pending.push(flush)) == owed_flushes(pending).insert(flush.sender),
{
    broadcast use vstd::seq_lib::group_to_multiset_ensures;

    let sender = |p: PendingFlush| p.sender;
    assert(pending.push(flush).map_values(sender) =~= pending.map_values(sender).push(
        flush.sender,
    ));
}

proof fn lemma_owed_checkpoints_push(pending: Seq<PendingCheckpoint>, checkpoint: PendingCheckpoint)
    ensures
        owed_checkpoints(pending.push(checkpoint)) == owed_checkpoints(pending).insert(
            checkpoint.sender,
        ),
{
    broadcast use vstd::seq_lib::group_to_multiset_ensures;

    let sender = |p: PendingCheckpoint| p.sender;
    assert(pending.push(checkpoint).map_values(sender) =~= pending.map_values(sender).push(
        checkpoint.sender,
    ));
}

proof fn lemma_owed_checkpoints_first(pending: Seq<PendingCheckpoint>)
    requires
        pending.len() > 0,
    ensures
        owed_checkpoints(pending) == owed_checkpoints(pending.drop_first()).insert(
            pending[0].sender,
        ),
{
    let sender = |p: PendingCheckpoint| p.sender;
    let one = seq![pending[0]].map_values(sender);
    assert(pending.map_values(sender) =~= one + pending.drop_first().map_values(sender));
    vstd::seq_lib::lemma_multiset_commutative(one, pending.drop_first().map_values(sender));
    lemma_owed_empty();
    lemma_owed_checkpoints_push(Seq::empty(), pending[0]);
    assert(Seq::empty().push(pending[0]) =~= seq![pending[0]]);
    assert(owed_checkpoints(pending) =~= owed_checkpoints(pending.drop_first()).insert(
        pending[0].sender,
    ));
}

proof fn lemma_answered_add(a: Seq<FlusherEffect>, b: Seq<FlusherEffect>)
    ensures
        answered(a + b) == answered(a).add(answered(b)),
    decreases b.len(),
{
    if b.len() == 0 {
        assert(a + b =~= a);
        assert(answered(a).add(answered(b)) =~= answered(a));
    } else {
        lemma_answered_add(a, b.drop_last());
        assert((a + b).drop_last() =~= a + b.drop_last());
        assert((a + b).last() == b.last());
        assert(answered(a + b) =~= answered(a).add(answered(b)));
    }
}

proof fn lemma_answered_flushes(
    flushes: Seq<PendingFlush>,
    result: Result<FlushResult, SlateDBError>,
)
    ensures
        answered(flush_replies(flushes, result)) == owed_flushes(flushes),
    decreases flushes.len(),
{
    if flushes.len() == 0 {
        lemma_owed_empty();
        assert(flushes =~= Seq::empty());
    } else {
        let fewer = flushes.drop_last();
        lemma_answered_flushes(fewer, result);
        lemma_owed_flushes_push(fewer, flushes.last());
        assert(fewer.push(flushes.last()) =~= flushes);
        assert(flush_replies(flushes, result).drop_last() =~= flush_replies(fewer, result));
    }
}

proof fn lemma_answered_refusals(checkpoints: Seq<PendingCheckpoint>, error: SlateDBError)
    ensures
        answered(checkpoint_refusals(checkpoints, error)) == owed_checkpoints(checkpoints),
    decreases checkpoints.len(),
{
    if checkpoints.len() == 0 {
        lemma_owed_empty();
        assert(checkpoints =~= Seq::empty());
    } else {
        let fewer = checkpoints.drop_last();
        lemma_answered_refusals(fewer, error);
        lemma_owed_checkpoints_push(fewer, checkpoints.last());
        assert(fewer.push(checkpoints.last()) =~= checkpoints);
        assert(checkpoint_refusals(checkpoints, error).drop_last() =~= checkpoint_refusals(
            fewer,
            error,
        ));
    }
}

proof fn lemma_flushes_split(pending: Seq<PendingFlush>, durable: DurableState)
    ensures
        owed_flushes(pending) == owed_flushes(met_flushes(pending, durable)).add(
            owed_flushes(unmet_flushes(pending, durable)),
        ),
    decreases pending.len(),
{
    reveal(Seq::filter);
    let met = met_flushes(pending, durable);
    let unmet = unmet_flushes(pending, durable);
    if pending.len() == 0 {
        lemma_owed_empty();
        assert(pending =~= Seq::empty());
        assert(met =~= Seq::empty());
        assert(unmet =~= Seq::empty());
    } else {
        let fewer = pending.drop_last();
        lemma_flushes_split(fewer, durable);
        lemma_owed_flushes_push(fewer, pending.last());
        assert(fewer.push(pending.last()) =~= pending);
        lemma_owed_flushes_push(met_flushes(fewer, durable), pending.last());
        lemma_owed_flushes_push(unmet_flushes(fewer, durable), pending.last());
    }
    assert(owed_flushes(pending) =~= owed_flushes(met).add(owed_flushes(unmet)));
}

proof fn lemma_checkpoints_split(pending: Seq<PendingCheckpoint>, durable: DurableState)
    ensures
        owed_checkpoints(pending) == owed_checkpoints(met_checkpoints(pending, durable)).add(
            owed_checkpoints(unmet_checkpoints(pending, durable)),
        ),
    decreases pending.len(),
{
    reveal(Seq::filter);
    let met = met_checkpoints(pending, durable);
    let unmet = unmet_checkpoints(pending, durable);
    if pending.len() == 0 {
        lemma_owed_empty();
        assert(pending =~= Seq::empty());
        assert(met =~= Seq::empty());
        assert(unmet =~= Seq::empty());
    } else {
        let fewer = pending.drop_last();
        lemma_checkpoints_split(fewer, durable);
        lemma_owed_checkpoints_push(fewer, pending.last());
        assert(fewer.push(pending.last()) =~= pending);
        lemma_owed_checkpoints_push(met_checkpoints(fewer, durable), pending.last());
        lemma_owed_checkpoints_push(unmet_checkpoints(fewer, durable), pending.last());
    }
    assert(owed_checkpoints(pending) =~= owed_checkpoints(met).add(owed_checkpoints(unmet)));
}

/// No request is lost and none is answered twice, however long the orchestrator runs: the requests
/// that were open at first or arrived later are those that were answered, together with those that
/// are still open. Once the orchestrator has stopped, none is open.
pub proof fn law_every_request_is_answered_once(
    models: Seq<FlusherModel>,
    arrived: Seq<Multiset<ReplyHandle>>,
    outcomes: Seq<FlusherOutcome>,
)
    requires
        models.len() == outcomes.len() + 1,
        arrived.len() == outcomes.len(),
        forall|i: int|
            0 <= i < outcomes.len() ==> models[i].conserves(#[trigger] arrived[i], outcomes[i])
                && outcomes[i].next == models[i + 1],
    ensures
        models.first().unanswered().add(total(arrived)) == all_answered(outcomes).add(
            models.last().unanswered(),
        ),
        models.last().wf() && models.last().phase is Stopped ==> models.last().unanswered()
            == Multiset::<ReplyHandle>::empty(),
    decreases outcomes.len(),
{
    let n = outcomes.len();
    if n == 0 {
        assert(models.first().unanswered().add(total(arrived)) =~= all_answered(outcomes).add(
            models.last().unanswered(),
        ));
    } else {
        let earlier = models.drop_last();
        law_every_request_is_answered_once(earlier, arrived.drop_last(), outcomes.drop_last());
        assert(models[n - 1].conserves(arrived[n - 1], outcomes[n - 1]));
        assert(earlier.last() == models[n - 1]);
        assert(earlier.first() == models.first());
        super::lemma_replies_chain(
            models.first().unanswered(),
            total(arrived.drop_last()),
            all_answered(outcomes.drop_last()),
            models[n - 1].unanswered(),
            arrived.last(),
            answered(outcomes.last().effects),
            models.last().unanswered(),
        );
    }
    let last = models.last();
    if last.wf() && last.phase is Stopped {
        assert(last.pending_flushes =~= Seq::empty());
        assert(last.pending_checkpoints =~= Seq::empty());
        assert(last.due =~= Seq::empty());
        lemma_owed_empty();
        assert(last.unanswered() =~= Multiset::empty());
    }
}

/// All requests that arrived.
pub open spec fn total(arrived: Seq<Multiset<ReplyHandle>>) -> Multiset<ReplyHandle>
    decreases arrived.len(),
{
    if arrived.len() == 0 {
        Multiset::empty()
    } else {
        total(arrived.drop_last()).add(arrived.last())
    }
}

/// All requests that were answered.
pub open spec fn all_answered(outcomes: Seq<FlusherOutcome>) -> Multiset<ReplyHandle>
    decreases outcomes.len(),
{
    if outcomes.len() == 0 {
        Multiset::empty()
    } else {
        all_answered(outcomes.drop_last()).add(answered(outcomes.last().effects))
    }
}

/// Whether a target covers a memtable that is tracked when the request arrives.
pub open spec fn covers(target: FlushTarget, imm: TrackedImm) -> bool {
    match target {
        FlushTarget::BestEffort | FlushTarget::CurrentDurable => false,
        FlushTarget::ThroughWalId(wal_id) => imm.imm_memtable.recent_flushed_wal_id <= wal_id,
        FlushTarget::ThroughCurrentImm => true,
    }
}

/// A request is answered behind the memtables that it covers: once its requirement is met, every
/// memtable that was tracked when it arrived and that its target covers is durable.
pub proof fn law_requirement_covers_captured_memtables(
    model: FlusherModel,
    target: FlushTarget,
    durable: DurableState,
    i: int,
)
    requires
        model.wf(),
        0 <= i < model.live.len(),
        covers(target, model.live[i]),
        requirement_met(requirement_of(model.live, target), durable),
    ensures
        durable.epoch matches Some(epoch) && epoch.0 >= model.live[i].epoch.0,
{
    if let FlushTarget::ThroughWalId(wal_id) = target {
        lemma_wal_barrier(model.live, wal_id, i);
    }
}

/// A request waits for nothing but the memtables that it covers: once every memtable that was
/// tracked when it arrived and that its target covers is durable, its requirement is met. In
/// particular a request that covers none is answered at once.
pub proof fn law_requests_wait_for_covered_memtables_only(
    model: FlusherModel,
    target: FlushTarget,
    durable: DurableState,
)
    requires
        forall|i: int|
            0 <= i < model.live.len() && covers(target, #[trigger] model.live[i]) ==> (
            durable.epoch matches Some(epoch) && epoch.0 >= model.live[i].epoch.0),
    ensures
        requirement_met(requirement_of(model.live, target), durable),
{
    match target {
        FlushTarget::ThroughWalId(wal_id) => {
            lemma_wal_barrier_is_covered(model.live, wal_id);
            if let Some(epoch) = wal_barrier(model.live, wal_id) {
                let i = choose|i: int|
                    0 <= i < model.live.len() && (#[trigger] model.live[i]).epoch == epoch
                        && model.live[i].imm_memtable.recent_flushed_wal_id <= wal_id;
                assert(covers(target, model.live[i]));
            }
        },
        FlushTarget::ThroughCurrentImm => {
            if model.live.len() > 0 {
                assert(covers(target, model.live[model.live.len() - 1]));
            }
        },
        _ => {},
    }
}

proof fn lemma_wal_barrier_is_covered(live: Seq<TrackedImm>, wal_id: u64)
    ensures
        wal_barrier(live, wal_id) matches Some(epoch) ==> exists|i: int|
            0 <= i < live.len() && (#[trigger] live[i]).epoch == epoch
                && live[i].imm_memtable.recent_flushed_wal_id <= wal_id,
    decreases live.len(),
{
    if live.len() > 0 {
        if live.last().imm_memtable.recent_flushed_wal_id <= wal_id {
            assert(live[live.len() - 1].epoch == live.last().epoch);
        } else {
            let fewer = live.drop_last();
            lemma_wal_barrier_is_covered(fewer, wal_id);
            if let Some(epoch) = wal_barrier(fewer, wal_id) {
                let i = choose|i: int|
                    0 <= i < fewer.len() && (#[trigger] fewer[i]).epoch == epoch
                        && fewer[i].imm_memtable.recent_flushed_wal_id <= wal_id;
                assert(live[i] == fewer[i]);
            }
        }
    }
}

proof fn lemma_wal_barrier(live: Seq<TrackedImm>, wal_id: u64, i: int)
    requires
        0 <= i < live.len(),
        live[i].imm_memtable.recent_flushed_wal_id <= wal_id,
        forall|a: int, b: int| 0 <= a < b < live.len() ==> live[a].epoch.0 < live[b].epoch.0,
    ensures
        wal_barrier(live, wal_id) matches Some(epoch) && epoch.0 >= live[i].epoch.0,
    decreases live.len(),
{
    if i < live.len() - 1 && live.last().imm_memtable.recent_flushed_wal_id > wal_id {
        lemma_wal_barrier(live.drop_last(), wal_id, i);
    }
}

/// A flush request that waited is granted only when its requirement is met by what is durable, and
/// one whose requirement is met does not wait any longer. The same holds of checkpoint requests
/// that become due.
pub proof fn law_waiters_are_served_behind_their_requirement(model: FlusherModel, i: int)
    ensures
        ({
            let effects = flush_replies(
                met_flushes(model.pending_flushes, model.durable),
                Ok(model.flush_result()),
            );
            0 <= i < effects.len() ==> exists|p: PendingFlush|
                {
                    &&& #[trigger] model.pending_flushes.contains(p)
                    &&& requirement_met(p.requirement, model.durable)
                    &&& effects[i] == FlusherEffect::ReplyFlush(
                        p.sender,
                        Ok(model.flush_result()),
                    )
                }
        }),
        ({
            let waits = unmet_flushes(model.pending_flushes, model.durable);
            0 <= i < waits.len() ==> model.pending_flushes.contains(waits[i]) && !requirement_met(
                waits[i].requirement,
                model.durable,
            )
        }),
        ({
            let due = met_checkpoints(model.pending_checkpoints, model.durable);
            0 <= i < due.len() ==> model.pending_checkpoints.contains(due[i]) && requirement_met(
                due[i].requirement,
                model.durable,
            )
        }),
        ({
            let waits = unmet_checkpoints(model.pending_checkpoints, model.durable);
            0 <= i < waits.len() ==> model.pending_checkpoints.contains(waits[i])
                && !requirement_met(waits[i].requirement, model.durable)
        }),
{
    let met = |p: PendingFlush| requirement_met(p.requirement, model.durable);
    let unmet = |p: PendingFlush| !requirement_met(p.requirement, model.durable);
    let met_c = |p: PendingCheckpoint| requirement_met(p.requirement, model.durable);
    let unmet_c = |p: PendingCheckpoint| !requirement_met(p.requirement, model.durable);
    lemma_filter_keeps(model.pending_flushes, met, i);
    lemma_filter_keeps(model.pending_flushes, unmet, i);
    lemma_filter_keeps(model.pending_checkpoints, met_c, i);
    lemma_filter_keeps(model.pending_checkpoints, unmet_c, i);
    if 0 <= i < model.pending_flushes.filter(met).len() {
        assert(model.pending_flushes.contains(model.pending_flushes.filter(met)[i]));
    }
}

proof fn lemma_filter_keeps<A>(all: Seq<A>, keep: spec_fn(A) -> bool, i: int)
    ensures
        0 <= i < all.filter(keep).len() ==> keep(all.filter(keep)[i]) && all.contains(
            all.filter(keep)[i],
        ),
    decreases all.len(),
{
    reveal(Seq::filter);
    if all.len() > 0 {
        let fewer = all.drop_last();
        lemma_filter_keeps(fewer, keep, i);
        let kept = all.filter(keep);
        if 0 <= i < fewer.filter(keep).len() {
            let j = choose|j: int| 0 <= j < fewer.len() && fewer[j] == fewer.filter(keep)[i];
            assert(all[j] == kept[i]);
        } else if 0 <= i < kept.len() {
            assert(all[all.len() - 1] == kept[i]);
        }
    }
}

/// Uploads never overfill level 0 and follow the order of the epochs: a memtable is handed to the
/// uploader only while level 0 has room for it beside all memtables in flight, and every memtable
/// with an earlier epoch was handed over before.
pub proof fn law_dispatch_respects_capacity_and_order(
    model: FlusherModel,
    last_remote_persisted_seq: u64,
)
    requires
        model.wf(),
    ensures
        ({
            let after = model.dispatch(last_remote_persisted_seq);
            after.action matches FlusherAction::SubmitUpload { epoch, imm_memtable } ==> {
                let first = first_pending(model.live) as int;
                &&& model.durable_l0_len + in_flight(model.live) < model.l0_max_ssts
                &&& first < model.live.len()
                &&& model.live[first].epoch == epoch
                &&& model.live[first].imm_memtable == imm_memtable
                &&& model.live[first].state is PendingDispatch
                &&& forall|i: int|
                    0 <= i < model.live.len() && model.live[i].epoch.0 < epoch.0
                        ==> is_in_flight(#[trigger] model.live[i])
            }
        }),
{
    lemma_first_pending(model.live);
}

proof fn lemma_first_pending(live: Seq<TrackedImm>)
    ensures
        first_pending(live) <= live.len(),
        forall|i: int| 0 <= i < first_pending(live) ==> is_in_flight(#[trigger] live[i]),
        first_pending(live) < live.len() ==> live[first_pending(live) as int].state is PendingDispatch,
    decreases live.len(),
{
    if live.len() > 0 && !(live[0].state is PendingDispatch) {
        let rest = live.drop_first();
        lemma_first_pending(rest);
        assert forall|i: int| 0 <= i < first_pending(live) implies is_in_flight(
            #[trigger] live[i],
        ) by {
            if i > 0 {
                assert(live[i] == rest[i - 1]);
            }
        }
        if first_pending(live) < live.len() {
            assert(live[first_pending(live) as int] == rest[first_pending(rest) as int]);
        }
    }
}

/// Epochs follow the order in which memtables were frozen. Some tracked memtables may have left the
/// queue of frozen ones already, and the others are the oldest frozen ones. Then, after
/// registration, every frozen memtable is tracked, the oldest first, behind those that have left,
/// and nothing else has changed.
pub proof fn law_epochs_follow_freeze_order(
    model: FlusherModel,
    gone: int,
    frozen: Seq<Arc<ImmutableMemtable>>,
)
    requires
        model.wf(),
        model.next_epoch + frozen.len() <= u64::MAX,
        0 <= gone <= model.live.len() <= gone + frozen.len(),
        forall|i: int, j: int| 0 <= i < j < frozen.len() ==> frozen[i].id != frozen[j].id,
        forall|i: int, j: int|
            0 <= i < gone && 0 <= j < frozen.len() ==> model.live[i].imm_memtable.id
                != frozen[j].id,
        forall|i: int|
            gone <= i < model.live.len() ==> (#[trigger] model.live[i]).imm_memtable
                == frozen[frozen.len() - 1 - (i - gone)],
    ensures
        model.register(frozen).live.len() == gone + frozen.len(),
        forall|i: int|
            gone <= i < gone + frozen.len() ==> (#[trigger] model.register(
                frozen,
            ).live[i]).imm_memtable == frozen[frozen.len() - 1 - (i - gone)],
        forall|i: int, j: int|
            0 <= i < j < gone + frozen.len() ==> model.register(frozen).live[i].epoch.0
                < model.register(frozen).live[j].epoch.0,
        forall|i: int|
            0 <= i < model.live.len() ==> model.register(frozen).live[i] == #[trigger] model.live[i],
{
    lemma_registered(model, gone, frozen, frozen.len() as int);
    assert(frozen.take(frozen.len() as int) =~= frozen);
}

/// What registering the newest `left` of the frozen memtables comes to when the others are dealt
/// with.
proof fn lemma_registered(
    model: FlusherModel,
    gone: int,
    frozen: Seq<Arc<ImmutableMemtable>>,
    left: int,
)
    requires
        model.live.len() < model.next_epoch,
        forall|i: int|
            0 <= i < model.live.len() ==> (#[trigger] model.live[i]).epoch.0 == model.next_epoch
                - model.live.len() + i,
        0 <= left <= frozen.len(),
        model.next_epoch + left <= u64::MAX,
        0 <= gone,
        gone + frozen.len() - left <= model.live.len() <= gone + frozen.len(),
        forall|i: int, j: int| 0 <= i < j < frozen.len() ==> frozen[i].id != frozen[j].id,
        forall|i: int, j: int|
            0 <= i < gone && 0 <= j < frozen.len() ==> model.live[i].imm_memtable.id
                != frozen[j].id,
        forall|i: int|
            gone <= i < model.live.len() ==> (#[trigger] model.live[i]).imm_memtable
                == frozen[frozen.len() - 1 - (i - gone)],
    ensures
        ({
            let after = model.register(frozen.take(left));
            &&& after.live.len() == gone + frozen.len()
            &&& forall|i: int|
                gone <= i < gone + frozen.len() ==> (#[trigger] after.live[i]).imm_memtable
                    == frozen[frozen.len() - 1 - (i - gone)]
            &&& forall|i: int|
                0 <= i < gone + frozen.len() ==> (#[trigger] after.live[i]).epoch.0
                    == model.next_epoch - model.live.len() + i
            &&& forall|i: int| 0 <= i < model.live.len() ==> after.live[i] == #[trigger] model.live[i]
        }),
    decreases left,
{
    if left > 0 {
        let rest = frozen.take(left);
        let imm = frozen[left - 1];
        assert(rest.last() == imm);
        assert(rest.drop_last() =~= frozen.take(left - 1));
        let place = gone + frozen.len() - left;
        let next = model.track(imm);
        if place < model.live.len() {
            assert(model.live[place].imm_memtable == imm);
            assert(is_tracked(model.live, imm.id));
        } else {
            assert forall|i: int| 0 <= i < model.live.len() implies (#[trigger] model.live[i]).imm_memtable.id
                != imm.id by {
                if i >= gone {
                    assert(model.live[i].imm_memtable == frozen[frozen.len() - 1 - (i - gone)]);
                }
            }
            assert(!is_tracked(model.live, imm.id));
        }
        lemma_registered(next, gone, frozen, left - 1);
        let after = model.register(rest);
        assert forall|i: int| 0 <= i < model.live.len() implies after.live[i]
            == #[trigger] model.live[i] by {
            assert(next.live[i] == model.live[i]);
        }
    } else {
        assert(frozen.take(left).len() == 0);
    }
}

/// The frozen memtables that are not tracked, from the oldest on. `frozen` holds the newest first.
pub open spec fn new_memtables(live: Seq<TrackedImm>, frozen: Seq<Arc<ImmutableMemtable>>) -> Seq<
    Arc<ImmutableMemtable>,
>
    decreases frozen.len(),
{
    if frozen.len() == 0 {
        Seq::empty()
    } else {
        let newer = new_memtables(live, frozen.drop_last());
        if is_tracked(live, frozen.last().id) {
            newer
        } else {
            seq![frozen.last()] + newer
        }
    }
}

/// Registration tracks every frozen memtable, whatever was tracked before: those that are new are
/// added behind the others, from the oldest on, with the next epochs and without a gap, and wait to
/// be uploaded. What was tracked before stays as it was, and nothing else changes.
pub proof fn law_registration_tracks_what_is_new(
    model: FlusherModel,
    frozen: Seq<Arc<ImmutableMemtable>>,
)
    requires
        model.next_epoch + frozen.len() <= u64::MAX,
        forall|i: int, j: int| 0 <= i < j < frozen.len() ==> frozen[i].id != frozen[j].id,
    ensures
        ({
            let after = model.register(frozen);
            let new = new_memtables(model.live, frozen);
            &&& after == (FlusherModel {
                next_epoch: (model.next_epoch + new.len()) as u64,
                live: model.live + Seq::new(
                    new.len(),
                    |i: int|
                        TrackedImm {
                            epoch: FlushEpoch((model.next_epoch + i) as u64),
                            imm_memtable: new[i],
                            state: TrackedImmState::PendingDispatch,
                        },
                ),
                ..model
            })
            &&& forall|j: int|
                0 <= j < frozen.len() ==> is_tracked(after.live, (#[trigger] frozen[j]).id)
        }),
    decreases frozen.len(),
{
    let new = new_memtables(model.live, frozen);
    let after = model.register(frozen);
    if frozen.len() == 0 {
        assert(after.live =~= model.live + Seq::new(
            0,
            |i: int|
                TrackedImm {
                    epoch: FlushEpoch((model.next_epoch + i) as u64),
                    imm_memtable: new[i],
                    state: TrackedImmState::PendingDispatch,
                },
        ));
    } else {
        let oldest = frozen.last();
        let rest = frozen.drop_last();
        let next = model.track(oldest);
        lemma_new_memtables(model.live, next.live, rest, oldest);
        law_registration_tracks_what_is_new(next, rest);
        let newer = new_memtables(next.live, rest);
        lemma_new_memtables_len(next.live, rest);
        assert(after.live =~= model.live + Seq::new(
            new.len(),
            |i: int|
                TrackedImm {
                    epoch: FlushEpoch((model.next_epoch + i) as u64),
                    imm_memtable: new[i],
                    state: TrackedImmState::PendingDispatch,
                },
        ));
        assert forall|j: int| 0 <= j < frozen.len() implies is_tracked(
            after.live,
            (#[trigger] frozen[j]).id,
        ) by {
            if j < rest.len() {
                assert(frozen[j] == rest[j]);
            } else {
                let i = choose|i: int|
                    0 <= i < next.live.len() && (#[trigger] next.live[i]).imm_memtable.id
                        == oldest.id;
                if !is_tracked(model.live, oldest.id) {
                    assert(next.live[model.live.len() as int].imm_memtable.id == oldest.id);
                }
                assert(after.live[i] == next.live[i]);
            }
        }
    }
}

proof fn lemma_new_memtables_len(live: Seq<TrackedImm>, frozen: Seq<Arc<ImmutableMemtable>>)
    ensures
        new_memtables(live, frozen).len() <= frozen.len(),
    decreases frozen.len(),
{
    if frozen.len() > 0 {
        lemma_new_memtables_len(live, frozen.drop_last());
    }
}

/// Tracking a memtable that is not among the frozen ones leaves the same of them new.
proof fn lemma_new_memtables(
    live: Seq<TrackedImm>,
    after: Seq<TrackedImm>,
    frozen: Seq<Arc<ImmutableMemtable>>,
    imm_memtable: Arc<ImmutableMemtable>,
)
    requires
        forall|i: int| 0 <= i < frozen.len() ==> (#[trigger] frozen[i]).id != imm_memtable.id,
        live.len() <= after.len() <= live.len() + 1,
        forall|i: int| 0 <= i < live.len() ==> #[trigger] after[i] == live[i],
        after.len() > live.len() ==> after.last().imm_memtable == imm_memtable,
    ensures
        new_memtables(after, frozen) == new_memtables(live, frozen),
    decreases frozen.len(),
{
    if frozen.len() > 0 {
        lemma_new_memtables(live, after, frozen.drop_last(), imm_memtable);
        let id = frozen.last().id;
        assert(frozen[frozen.len() - 1].id != imm_memtable.id);
        if is_tracked(live, id) {
            let i = choose|i: int|
                0 <= i < live.len() && (#[trigger] live[i]).imm_memtable.id == id;
            assert(after[i].imm_memtable.id == id);
        }
        if is_tracked(after, id) {
            let i = choose|i: int|
                0 <= i < after.len() && (#[trigger] after[i]).imm_memtable.id == id;
            assert(i < live.len());
            assert(live[i].imm_memtable.id == id);
        }
    }
}

/// Registering the same queue of frozen memtables a second time changes nothing.
pub proof fn law_registering_again_changes_nothing(
    model: FlusherModel,
    frozen: Seq<Arc<ImmutableMemtable>>,
)
    ensures
        model.register(frozen).register(frozen) == model.register(frozen),
{
    lemma_register_keeps(model, frozen);
    lemma_nothing_new(model.register(frozen), frozen);
}

proof fn lemma_register_keeps(model: FlusherModel, frozen: Seq<Arc<ImmutableMemtable>>)
    ensures
        ({
            let after = model.register(frozen);
            &&& after.live.len() >= model.live.len()
            &&& forall|i: int| 0 <= i < model.live.len() ==> #[trigger] after.live[i] == model.live[i]
            &&& forall|j: int|
                0 <= j < frozen.len() ==> is_tracked(after.live, (#[trigger] frozen[j]).id)
        }),
    decreases frozen.len(),
{
    if frozen.len() > 0 {
        let oldest = frozen.last();
        let rest = frozen.drop_last();
        let next = model.track(oldest);
        let after = model.register(frozen);
        lemma_register_keeps(next, rest);
        assert forall|i: int| 0 <= i < model.live.len() implies #[trigger] after.live[i]
            == model.live[i] by {
            assert(after.live[i] == next.live[i]);
        }
        assert forall|j: int| 0 <= j < frozen.len() implies is_tracked(
            after.live,
            (#[trigger] frozen[j]).id,
        ) by {
            if j < rest.len() {
                assert(frozen[j] == rest[j]);
            } else {
                if !is_tracked(model.live, oldest.id) {
                    assert(next.live[model.live.len() as int].imm_memtable.id == oldest.id);
                }
                let i = choose|i: int|
                    0 <= i < next.live.len() && (#[trigger] next.live[i]).imm_memtable.id
                        == oldest.id;
                assert(after.live[i] == next.live[i]);
            }
        }
    }
}

proof fn lemma_nothing_new(model: FlusherModel, frozen: Seq<Arc<ImmutableMemtable>>)
    requires
        forall|j: int|
            0 <= j < frozen.len() ==> is_tracked(model.live, (#[trigger] frozen[j]).id),
    ensures
        model.register(frozen) == model,
    decreases frozen.len(),
{
    if frozen.len() > 0 {
        assert(is_tracked(model.live, frozen[frozen.len() - 1].id));
        assert forall|j: int| 0 <= j < frozen.drop_last().len() implies is_tracked(
            model.live,
            (#[trigger] frozen.drop_last()[j]).id,
        ) by {
            assert(frozen[j] == frozen.drop_last()[j]);
        }
        lemma_nothing_new(model, frozen.drop_last());
    }
}

} // verus!
