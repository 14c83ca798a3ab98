//! What the steps of the orchestrator do, effect by effect and field by field.
use std::sync::Arc;

use super::flusher::{
    DurableState, FlushRequirement, FlushResult, FlushTarget, FlusherAction, FlusherEffect,
    FlusherModel, FlusherOutcome, OrchestratorCommand, PendingCheckpoint, PendingFlush, TrackedImm,
    TrackedImmState,
};
use super::{FlushEpoch, ReplyHandle};
use crate::db_state::{CheckpointCreateResult, CheckpointOptions, ImmutableMemtable};
use crate::error::SlateDBError;
use vstd::prelude::*;

verus! {

/// Whether the settings and the way to the end are the same.
pub open spec fn same_course(model: FlusherModel, next: FlusherModel) -> bool {
    &&& next.l0_max_ssts == model.l0_max_ssts
    &&& next.wal_enabled == model.wal_enabled
    &&& next.next_epoch == model.next_epoch
    &&& next.draining == model.draining
    &&& next.failure == model.failure
    &&& next.uploader_error == model.uploader_error
}

/// Whether the memtables, what is durable of them and the requests that wait are the same.
pub open spec fn same_work(model: FlusherModel, next: FlusherModel) -> bool {
    &&& next.live == model.live
    &&& next.durable == model.durable
    &&& next.durable_l0_len == model.durable_l0_len
    &&& next.pending_flushes == model.pending_flushes
    &&& next.pending_checkpoints == model.pending_checkpoints
}

/// Whether an outcome goes on from a state in the right way: the first checkpoint that is due is
/// created, with its own options; without one the manifest is refreshed if that is owed and no
/// draining has begun; otherwise the next event is waited for, unless the orchestrator drains and
/// no memtable is with the uploader or the sequencer, when it closes down.
pub open spec fn goes_on(model: FlusherModel, after: FlusherOutcome) -> bool {
    &&& same_course(model, after.next)
    &&& same_work(model, after.next)
    &&& after.next.due == model.due
    &&& if model.due.len() > 0 {
        &&& after.action == FlusherAction::CreateCheckpoint(model.due[0].options)
        &&& after.next.phase is CreatingCheckpoint
        &&& after.next.reconcile_next == model.reconcile_next
    } else {
        &&& !after.next.reconcile_next
        &&& if model.reconcile_next && !model.draining {
            &&& after.action is RefreshManifest
            &&& after.next.phase is Refreshing
        } else {
            waits_or_closes(model, after)
        }
    }
}

/// Whether an outcome waits for the next event, or closes down because the orchestrator drains and
/// no memtable is with the uploader or the sequencer.
pub open spec fn waits_or_closes(model: FlusherModel, after: FlusherOutcome) -> bool {
    if model.draining && forall|i: int|
        0 <= i < model.live.len() ==> (#[trigger] model.live[i]).state is PendingDispatch {
        &&& after.action is CloseUploader
        &&& after.next.phase is ClosingUploader
    } else {
        &&& after.action is Select
        &&& after.next.phase is Selecting
    }
}

/// Whether everything up to the epoch of a requirement is durable.
pub open spec fn has_come(requirement: FlushRequirement, durable: DurableState) -> bool {
    match (requirement.epoch, durable.epoch) {
        (None, _) => true,
        (Some(_), None) => false,
        (Some(required), Some(epoch)) => required.0 <= epoch.0,
    }
}

/// Whether an outcome serves the requests that what is durable allows, and lets the others wait.
/// Every flush request that is served is told the durable WAL id and sequence number, in the order
/// in which the requests came, and nothing else is told.
pub open spec fn serves(model: FlusherModel, after: FlusherOutcome) -> bool {
    let come = model.pending_flushes.filter(
        |p: PendingFlush| has_come(p.requirement, model.durable),
    );
    let resolved = FlusherModel {
        pending_flushes: model.pending_flushes.filter(
            |p: PendingFlush| !has_come(p.requirement, model.durable),
        ),
        pending_checkpoints: model.pending_checkpoints.filter(
            |p: PendingCheckpoint| !has_come(p.requirement, model.durable),
        ),
        due: model.pending_checkpoints.filter(
            |p: PendingCheckpoint| has_come(p.requirement, model.durable),
        ),
        ..model
    };
    &&& after.effects.len() == come.len()
    &&& forall|i: int|
        0 <= i < come.len() ==> after.effects[i] == FlusherEffect::ReplyFlush(
            (#[trigger] come[i]).sender,
            Ok(
                FlushResult {
                    durable_through_wal_id: model.durable.wal_id,
                    durable_through_seq: model.durable.seq,
                },
            ),
        )
    &&& goes_on(resolved, after)
}

/// Whether `requirement` asks for the memtables that a target covers and no others: the last
/// covered one is the one to wait for.
pub open spec fn asks_for(
    live: Seq<TrackedImm>,
    target: FlushTarget,
    requirement: FlushRequirement,
) -> bool {
    match target {
        FlushTarget::BestEffort | FlushTarget::CurrentDurable => requirement.epoch is None,
        FlushTarget::ThroughCurrentImm => {
            &&& requirement.epoch is None <==> live.len() == 0
            &&& live.len() > 0 ==> requirement.epoch == Some(live[live.len() - 1].epoch)
        },
        FlushTarget::ThroughWalId(wal_id) => {
            &&& requirement.epoch is None <==> forall|i: int|
                0 <= i < live.len() ==> (#[trigger] live[i]).imm_memtable.recent_flushed_wal_id
                    > wal_id
            &&& forall|j: int|
                0 <= j < live.len() && (#[trigger] live[j]).imm_memtable.recent_flushed_wal_id
                    <= wal_id && (forall|k: int|
                    j < k < live.len() ==> (#[trigger] live[k]).imm_memtable.recent_flushed_wal_id
                        > wal_id) ==> requirement.epoch == Some(live[j].epoch)
        },
    }
}

/// Whether `first` is the place of the first memtable that waits to be uploaded.
pub open spec fn is_next(live: Seq<TrackedImm>, first: int) -> bool {
    &&& 0 <= first < live.len()
    &&& live[first].state is PendingDispatch
    &&& forall|i: int| 0 <= i < first ==> !((#[trigger] live[i]).state is PendingDispatch)
}

proof fn lemma_in_flight(live: Seq<TrackedImm>)
    ensures
        super::flusher::in_flight(live) == live.filter(
            |imm: TrackedImm| !(imm.state is PendingDispatch),
        ).len(),
        super::flusher::in_flight(live) == 0 <==> forall|i: int|
            0 <= i < live.len() ==> (#[trigger] live[i]).state is PendingDispatch,
    decreases live.len(),
{
    reveal(Seq::filter);
    if live.len() > 0 {
        let fewer = live.drop_last();
        lemma_in_flight(fewer);
        assert(live[live.len() - 1] == live.last());
        if forall|i: int| 0 <= i < fewer.len() ==> (#[trigger] fewer[i]).state is PendingDispatch {
            assert forall|i: int| 0 <= i < live.len() - 1 implies (
            #[trigger] live[i]).state is PendingDispatch by {
                assert(fewer[i] == live[i]);
            }
        } else {
            let i = choose|i: int|
                0 <= i < fewer.len() && !((#[trigger] fewer[i]).state is PendingDispatch);
            assert(live[i] == fewer[i]);
        }
    }
}

proof fn lemma_next(live: Seq<TrackedImm>, first: int)
    requires
        is_next(live, first),
    ensures
        super::flusher::first_pending(live) == first,
    decreases live.len(),
{
    if first > 0 {
        let rest = live.drop_first();
        assert(rest[first - 1] == live[first]);
        assert forall|i: int| 0 <= i < first - 1 implies !((
        #[trigger] rest[i]).state is PendingDispatch) by {
            assert(rest[i] == live[i + 1]);
        }
        lemma_next(rest, first - 1);
        assert(!(live[0].state is PendingDispatch));
    }
}

proof fn lemma_no_next(live: Seq<TrackedImm>)
    requires
        forall|i: int| 0 <= i < live.len() ==> !((#[trigger] live[i]).state is PendingDispatch),
    ensures
        super::flusher::first_pending(live) == live.len(),
    decreases live.len(),
{
    if live.len() > 0 {
        let rest = live.drop_first();
        assert forall|i: int| 0 <= i < rest.len() implies !((
        #[trigger] rest[i]).state is PendingDispatch) by {
            assert(rest[i] == live[i + 1]);
        }
        lemma_no_next(rest);
        assert(!(live[0].state is PendingDispatch));
    }
}

proof fn lemma_goes_on(model: FlusherModel, effects: Seq<FlusherEffect>)
    ensures
        goes_on(model, model.advance(effects)),
        model.advance(effects).effects == effects,
{
    lemma_in_flight(model.live);
}

proof fn lemma_serves(model: FlusherModel)
    ensures
        serves(model, model.resolve()),
{
    let durable = model.durable;
    super::sequencer_laws::lemma_filter_agrees(
        model.pending_flushes,
        |p: PendingFlush| super::flusher::requirement_met(p.requirement, durable),
        |p: PendingFlush| has_come(p.requirement, durable),
    );
    super::sequencer_laws::lemma_filter_agrees(
        model.pending_flushes,
        |p: PendingFlush| !super::flusher::requirement_met(p.requirement, durable),
        |p: PendingFlush| !has_come(p.requirement, durable),
    );
    super::sequencer_laws::lemma_filter_agrees(
        model.pending_checkpoints,
        |p: PendingCheckpoint| super::flusher::requirement_met(p.requirement, durable),
        |p: PendingCheckpoint| has_come(p.requirement, durable),
    );
    super::sequencer_laws::lemma_filter_agrees(
        model.pending_checkpoints,
        |p: PendingCheckpoint| !super::flusher::requirement_met(p.requirement, durable),
        |p: PendingCheckpoint| !has_come(p.requirement, durable),
    );
    let resolved = FlusherModel {
        pending_flushes: super::flusher::unmet_flushes(model.pending_flushes, durable),
        pending_checkpoints: super::flusher::unmet_checkpoints(model.pending_checkpoints, durable),
        due: super::flusher::met_checkpoints(model.pending_checkpoints, durable),
        ..model
    };
    lemma_goes_on(
        resolved,
        super::flusher::flush_replies(
            super::flusher::met_flushes(model.pending_flushes, durable),
            Ok(model.flush_result()),
        ),
    );
}

/// Going on after a step tells others nothing but what the step said, creates the checkpoints that
/// are due, and then refreshes the manifest, waits or closes down.
pub proof fn law_going_on(model: FlusherModel, effects: Seq<FlusherEffect>)
    ensures
        goes_on(model, model.advance(effects)),
        model.advance(effects).effects == effects,
        waits_or_closes(model, model.settle(effects)),
        model.settle(effects).effects == effects,
        same_course(model, model.settle(effects).next),
        same_work(model, model.settle(effects).next),
        model.settle(effects).next.due == model.due,
        model.settle(effects).next.reconcile_next == model.reconcile_next,
{
    lemma_goes_on(model, effects);
    lemma_in_flight(model.live);
}

/// Requests are served when, and only when, what is durable reaches their requirement.
pub proof fn law_requests_are_served(model: FlusherModel)
    ensures
        serves(model, model.resolve()),
{
    lemma_serves(model);
}

/// When everything through an epoch has become durable, the memtables up to that epoch are not
/// followed any longer, and the others stay. The durable WAL id is that of the newest memtable among
/// those that left, or stays if none left; the durable epoch and sequence number are the ones that
/// were reported. Then the requests are served by what is durable now.
pub proof fn law_durable_progress(
    model: FlusherModel,
    through_epoch: FlushEpoch,
    through_seq: u64,
)
    requires
        model.wf(),
    ensures
        ({
            let after = model.on_flushed(through_epoch, through_seq);
            let next = after.next;
            let gone = model.live.len() - next.live.len();
            &&& gone >= 0
            &&& next.live == model.live.skip(gone)
            &&& forall|i: int|
                0 <= i < model.live.len() ==> ((#[trigger] model.live[i]).epoch.0 <= through_epoch.0
                    <==> i < gone)
            &&& next.durable.epoch == Some(through_epoch)
            &&& next.durable.seq == Some(through_seq)
            &&& forall|i: int|
                0 <= i < model.live.len() && (#[trigger] model.live[i]).epoch.0 <= through_epoch.0
                    && (i + 1 == model.live.len() || model.live[i + 1].epoch.0 > through_epoch.0)
                    ==> next.durable.wal_id == Some(
                    model.live[i].imm_memtable.recent_flushed_wal_id,
                )
            &&& (forall|i: int|
                0 <= i < model.live.len() ==> (#[trigger] model.live[i]).epoch.0
                    > through_epoch.0) ==> next.durable.wal_id == model.durable.wal_id
            &&& serves(
                FlusherModel {
                    live: next.live,
                    durable: next.durable,
                    reconcile_next: true,
                    ..model
                },
                after,
            )
        }),
{
    let n = super::flusher::count_through(model.live, through_epoch) as int;
    lemma_count_through(model.live, through_epoch);
    let progressed = FlusherModel {
        live: model.live.skip(n),
        durable: DurableState {
            epoch: Some(through_epoch),
            wal_id: if n > 0 {
                Some(model.live[n - 1].imm_memtable.recent_flushed_wal_id)
            } else {
                model.durable.wal_id
            },
            seq: Some(through_seq),
        },
        reconcile_next: true,
        ..model
    };
    lemma_serves(progressed);
    if n > 0 {
        assert(model.live[n - 1].epoch.0 <= through_epoch.0);
    }
}

proof fn lemma_count_through(live: Seq<TrackedImm>, through: FlushEpoch)
    requires
        forall|i: int, j: int| 0 <= i < j < live.len() ==> live[i].epoch.0 < live[j].epoch.0,
    ensures
        super::flusher::count_through(live, through) <= live.len(),
        forall|i: int|
            0 <= i < live.len() ==> ((#[trigger] live[i]).epoch.0 <= through.0 <==> i
                < super::flusher::count_through(live, through)),
    decreases live.len(),
{
    if live.len() > 0 && live[0].epoch.0 <= through.0 {
        let rest = live.drop_first();
        lemma_count_through(rest, through);
        assert forall|i: int| 0 <= i < live.len() implies ((
        #[trigger] live[i]).epoch.0 <= through.0 <==> i < super::flusher::count_through(
            live,
            through,
        )) by {
            if i > 0 {
                assert(rest[i - 1] == live[i]);
            }
        }
    }
}

/// What a request has to wait for follows from its target: nothing; the last memtable that was
/// frozen when it came; or the last one whose newest flushed WAL table is not after the WAL id that
/// was asked for. No two requirements fit the same target.
pub proof fn law_targets_ask_for_memtables(
    live: Seq<TrackedImm>,
    target: FlushTarget,
    requirement: FlushRequirement,
)
    ensures
        asks_for(live, target, requirement) <==> requirement == super::flusher::requirement_of(
            live,
            target,
        ),
{
    if let FlushTarget::ThroughWalId(wal_id) = target {
        lemma_wal_barrier_is_last(live, wal_id);
        if super::flusher::wal_barrier(live, wal_id) is Some {
            let j = choose|j: int| is_last_through(live, wal_id, j);
            assert(live[j].epoch == live[j].epoch);
            assert(asks_for(live, target, requirement) ==> requirement.epoch == Some(
                live[j].epoch,
            ));
            if requirement == super::flusher::requirement_of(live, target) {
                assert forall|i: int|
                    0 <= i < live.len() && (#[trigger] live[i]).imm_memtable.recent_flushed_wal_id
                        <= wal_id && (forall|k: int|
                        i < k < live.len() ==> (
                        #[trigger] live[k]).imm_memtable.recent_flushed_wal_id
                            > wal_id) implies requirement.epoch == Some(live[i].epoch) by {
                    assert(live[j].imm_memtable.recent_flushed_wal_id <= wal_id);
                    assert(i == j);
                }
            }
        }
    }
}

spec fn is_last_through(live: Seq<TrackedImm>, wal_id: u64, j: int) -> bool {
    &&& 0 <= j < live.len()
    &&& live[j].imm_memtable.recent_flushed_wal_id <= wal_id
    &&& forall|k: int|
        j < k < live.len() ==> (#[trigger] live[k]).imm_memtable.recent_flushed_wal_id > wal_id
    &&& super::flusher::wal_barrier(live, wal_id) == Some(live[j].epoch)
}

proof fn lemma_wal_barrier_is_last(live: Seq<TrackedImm>, wal_id: u64)
    ensures
        match super::flusher::wal_barrier(live, wal_id) {
            None => forall|i: int|
                0 <= i < live.len() ==> (#[trigger] live[i]).imm_memtable.recent_flushed_wal_id
                    > wal_id,
            Some(_) => exists|j: int| is_last_through(live, wal_id, j),
        },
    decreases live.len(),
{
    if live.len() > 0 {
        let last = live.len() - 1;
        if live[last].imm_memtable.recent_flushed_wal_id <= wal_id {
            assert(is_last_through(live, wal_id, last));
        } else {
            let fewer = live.drop_last();
            lemma_wal_barrier_is_last(fewer, wal_id);
            if super::flusher::wal_barrier(fewer, wal_id) is Some {
                let j = choose|j: int| is_last_through(fewer, wal_id, j);
                assert forall|k: int| j < k < live.len() implies (
                #[trigger] live[k]).imm_memtable.recent_flushed_wal_id > wal_id by {
                    if k < last {
                        assert(fewer[k] == live[k]);
                    }
                }
                assert(fewer[j] == live[j]);
                assert(is_last_through(live, wal_id, j));
            } else {
                assert forall|i: int| 0 <= i < live.len() implies (
                #[trigger] live[i]).imm_memtable.recent_flushed_wal_id > wal_id by {
                    if i < last {
                        assert(fewer[i] == live[i]);
                    }
                }
            }
        }
    }
}

/// A flush request is answered at once with what is durable, if its requirement is met; otherwise it
/// waits behind the others, if somebody waits for the answer. Either way the manifest is refreshed
/// next.
pub proof fn law_flush_request(
    model: FlusherModel,
    target: FlushTarget,
    sender: Option<ReplyHandle>,
    requirement: FlushRequirement,
)
    requires
        asks_for(model.live, target, requirement),
    ensures
        ({
            let after = model.on_flush(target, sender);
            let next = after.next;
            &&& after.action is RefreshManifest
            &&& next.phase is Refreshing
            &&& same_course(model, next)
            &&& same_work(
                model,
                FlusherModel { pending_flushes: model.pending_flushes, ..next },
            )
            &&& next.due == model.due
            &&& next.reconcile_next == model.reconcile_next
            &&& match sender {
                Some(to) => if has_come(requirement, model.durable) {
                    &&& after.effects.len() == 1
                    &&& after.effects[0] == FlusherEffect::ReplyFlush(
                        to,
                        Ok(
                            FlushResult {
                                durable_through_wal_id: model.durable.wal_id,
                                durable_through_seq: model.durable.seq,
                            },
                        ),
                    )
                    &&& next.pending_flushes == model.pending_flushes
                } else {
                    &&& after.effects.len() == 0
                    &&& next.pending_flushes == model.pending_flushes.push(
                        PendingFlush { requirement, sender: to },
                    )
                },
                None => {
                    &&& after.effects.len() == 0
                    &&& next.pending_flushes == model.pending_flushes
                },
            }
        }),
{
    law_targets_ask_for_memtables(model.live, target, requirement);
}

/// A checkpoint request is due at once, if its requirement is met, and is created with the options
/// that it carries; otherwise it waits behind the others, with its options, and the manifest is
/// refreshed.
pub proof fn law_checkpoint_request(
    model: FlusherModel,
    target: FlushTarget,
    options: CheckpointOptions,
    sender: ReplyHandle,
    requirement: FlushRequirement,
)
    requires
        model.due.len() == 0,
        !model.draining,
        asks_for(model.live, target, requirement),
    ensures
        ({
            let after = model.on_checkpoint(target, options, sender);
            let next = after.next;
            let request = PendingCheckpoint { requirement, options, sender };
            &&& after.effects.len() == 0
            &&& same_course(model, next)
            &&& same_work(
                model,
                FlusherModel { pending_checkpoints: model.pending_checkpoints, ..next },
            )
            &&& if has_come(requirement, model.durable) {
                &&& next.pending_checkpoints == model.pending_checkpoints
                &&& next.due == seq![request]
                &&& next.reconcile_next
                &&& next.phase is CreatingCheckpoint
                &&& after.action == FlusherAction::CreateCheckpoint(options)
            } else {
                &&& next.pending_checkpoints == model.pending_checkpoints.push(request)
                &&& next.due.len() == 0
                &&& !next.reconcile_next
                &&& next.phase is Refreshing
                &&& after.action is RefreshManifest
            }
        }),
{
    law_targets_ask_for_memtables(model.live, target, requirement);
}

/// A flush request looks at the memtables that are frozen when it comes. A checkpoint request does
/// so only if its target speaks of them.
pub proof fn law_commands_look_at_frozen_memtables(
    model: FlusherModel,
    command: OrchestratorCommand,
    frozen: Seq<Arc<ImmutableMemtable>>,
)
    ensures
        model.on_command(command, frozen) == match command {
            OrchestratorCommand::Flush { target, sender } => model.register(frozen).on_flush(
                target,
                sender,
            ),
            OrchestratorCommand::CreateCheckpoint { target, options, sender } => match target {
                FlushTarget::BestEffort | FlushTarget::CurrentDurable => model.on_checkpoint(
                    target,
                    options,
                    sender,
                ),
                FlushTarget::ThroughWalId(_) | FlushTarget::ThroughCurrentImm => model.register(
                    frozen,
                ).on_checkpoint(target, options, sender),
            },
        },
{
}

/// A memtable is known by its id. One that is not known yet gets the next epoch, comes last and
/// waits to be uploaded; one that is known changes nothing.
pub proof fn law_following_a_memtable(model: FlusherModel, imm_memtable: Arc<ImmutableMemtable>)
    requires
        model.next_epoch < u64::MAX,
    ensures
        ({
            let next = model.track(imm_memtable);
            let known = exists|i: int|
                0 <= i < model.live.len() && (#[trigger] model.live[i]).imm_memtable.id
                    == imm_memtable.id;
            &&& known ==> next == model
            &&& !known ==> {
                &&& next.next_epoch == model.next_epoch + 1
                &&& next.live.len() == model.live.len() + 1
                &&& forall|i: int|
                    0 <= i < model.live.len() ==> next.live[i] == #[trigger] model.live[i]
                &&& next.live.last().epoch.0 == model.next_epoch
                &&& next.live.last().imm_memtable == imm_memtable
                &&& next.live.last().state is PendingDispatch
                &&& same_course(
                    model,
                    FlusherModel { next_epoch: model.next_epoch, ..next },
                )
                &&& same_work(model, FlusherModel { live: model.live, ..next })
                &&& next.phase == model.phase
                &&& next.due == model.due
                &&& next.reconcile_next == model.reconcile_next
            }
        }),
{
}

/// The oldest frozen memtable, which is the last one in the queue, is the first to be followed.
pub proof fn law_oldest_memtable_first(
    model: FlusherModel,
    newer: Seq<Arc<ImmutableMemtable>>,
    oldest: Arc<ImmutableMemtable>,
)
    ensures
        model.register(newer.push(oldest)) == model.track(oldest).register(newer),
        model.register(Seq::empty()) == model,
{
    assert(newer.push(oldest).drop_last() =~= newer);
}

/// A memtable is uploaded next if level 0 has room for it beside its tables and all memtables that
/// are with the uploader or the sequencer, one waits, and the orchestrator does not drain. It is the
/// first that waits. If it holds entries that are not in the durable WAL, the WAL is flushed before.
/// If none may be uploaded, requests are served.
pub proof fn law_dispatch_decides(model: FlusherModel, last_remote_persisted_seq: u64, first: int)
    ensures
        ({
            let after = model.dispatch(last_remote_persisted_seq);
            let taken = model.durable_l0_len + model.live.filter(
                |imm: TrackedImm| !(imm.state is PendingDispatch),
            ).len();
            let room = !model.draining && taken < model.l0_max_ssts;
            &&& !room ==> serves(model, after)
            &&& (forall|i: int|
                0 <= i < model.live.len() ==> !((
                #[trigger] model.live[i]).state is PendingDispatch)) ==> serves(model, after)
            &&& room && is_next(model.live, first) ==> {
                let imm = model.live[first];
                let waits_for_wal = model.wal_enabled && match imm.imm_memtable.last_seq {
                    Some(seq) => last_remote_persisted_seq < seq,
                    None => false,
                };
                &&& after.effects.len() == 0
                &&& same_course(model, after.next)
                &&& same_work(model, after.next)
                &&& after.next.due == model.due
                &&& after.next.reconcile_next == model.reconcile_next
                &&& waits_for_wal ==> after.action is FlushWals && after.next.phase is FlushingWals
                &&& !waits_for_wal ==> after.next.phase is Submitting && after.action
                    == FlusherAction::SubmitUpload {
                    epoch: imm.epoch,
                    imm_memtable: imm.imm_memtable,
                }
            }
        }),
{
    lemma_in_flight(model.live);
    lemma_serves(model);
    if forall|i: int|
        0 <= i < model.live.len() ==> !((#[trigger] model.live[i]).state is PendingDispatch) {
        lemma_no_next(model.live);
    }
    if is_next(model.live, first) {
        lemma_next(model.live, first);
    }
}

/// The memtable that is handed to the uploader is the first that waits, under its own epoch, and
/// nothing else changes.
pub proof fn law_first_waiting_memtable_is_submitted(model: FlusherModel, first: int)
    requires
        is_next(model.live, first),
    ensures
        ({
            let after = model.submit();
            &&& after.effects.len() == 0
            &&& after.action == FlusherAction::SubmitUpload {
                epoch: model.live[first].epoch,
                imm_memtable: model.live[first].imm_memtable,
            }
            &&& after.next.phase is Submitting
            &&& same_course(model, after.next)
            &&& same_work(model, after.next)
            &&& after.next.due == model.due
            &&& after.next.reconcile_next == model.reconcile_next
        }),
{
    lemma_next(model.live, first);
}

/// Once a memtable was handed over, it and no other is with the uploader, and the next one is
/// considered. If it could not be handed over, the orchestrator leaves.
pub proof fn law_submitted_memtable_is_uploading(
    model: FlusherModel,
    result: Result<(), SlateDBError>,
    last_remote_persisted_seq: u64,
    first: int,
    live: Seq<TrackedImm>,
)
    requires
        is_next(model.live, first),
        live.len() == model.live.len(),
        forall|i: int| 0 <= i < live.len() && i != first ==> #[trigger] live[i] == model.live[i],
        live[first].epoch == model.live[first].epoch,
        live[first].imm_memtable == model.live[first].imm_memtable,
        live[first].state is Uploading,
    ensures
        model.on_submitted(result, last_remote_persisted_seq) == match result {
            Ok(()) => FlusherModel { live, ..model }.dispatch(last_remote_persisted_seq),
            Err(error) => model.leave(error),
        },
{
    lemma_next(model.live, first);
    let submitted = model.live.update(
        first,
        TrackedImm { state: TrackedImmState::Uploading, ..model.live[first] },
    );
    assert(submitted =~= live);
}

/// After a refresh of the manifest the number of tables in level 0 is the one that was read, every
/// frozen memtable is followed, and the next one to upload is considered. If the refresh failed, the
/// orchestrator leaves.
pub proof fn law_refresh_brings_level_0(
    model: FlusherModel,
    result: Result<usize, SlateDBError>,
    frozen: Seq<Arc<ImmutableMemtable>>,
    last_remote_persisted_seq: u64,
)
    ensures
        match result {
            Ok(l0_len) => {
                let followed = model.register(frozen);
                model.on_refreshed(result, frozen, last_remote_persisted_seq) == FlusherModel {
                    durable_l0_len: l0_len,
                    ..followed
                }.dispatch(last_remote_persisted_seq)
            },
            Err(error) => model.on_refreshed(result, frozen, last_remote_persisted_seq)
                == model.leave(error),
        },
{
    if let Ok(l0_len) = result {
        lemma_register_keeps_level_0(model, frozen, l0_len);
    }
}

proof fn lemma_register_keeps_level_0(
    model: FlusherModel,
    frozen: Seq<Arc<ImmutableMemtable>>,
    l0_len: usize,
)
    ensures
        (FlusherModel { durable_l0_len: l0_len, ..model }).register(frozen) == (FlusherModel {
            durable_l0_len: l0_len,
            ..model.register(frozen)
        }),
    decreases frozen.len(),
{
    if frozen.len() > 0 {
        lemma_register_keeps_level_0(model.track(frozen.last()), frozen.drop_last(), l0_len);
        assert((FlusherModel { durable_l0_len: l0_len, ..model }).track(frozen.last()) == (
        FlusherModel { durable_l0_len: l0_len, ..model.track(frozen.last()) }));
    }
}

/// A failure of the uploader or the sequencer is made known first, and then every request that waits
/// is told it: flush requests, then checkpoint requests, each in its order. The uploader is closed
/// next.
pub proof fn law_failure_is_told(model: FlusherModel, error: SlateDBError)
    ensures
        ({
            let after = model.fail(error);
            let flushes = model.pending_flushes.len() as int;
            &&& after.effects.len() == 2 + flushes + model.pending_checkpoints.len()
            &&& after.effects[0] == FlusherEffect::Poison(error)
            &&& after.effects[1] == FlusherEffect::WriteClosedResult(error)
            &&& forall|i: int|
                0 <= i < flushes ==> after.effects[2 + i] == FlusherEffect::ReplyFlush(
                    (#[trigger] model.pending_flushes[i]).sender,
                    Err(error),
                )
            &&& forall|i: int|
                0 <= i < model.pending_checkpoints.len() ==> after.effects[2 + flushes + i]
                    == FlusherEffect::ReplyCheckpoint(
                    (#[trigger] model.pending_checkpoints[i]).sender,
                    Err(error),
                )
            &&& after.action is CloseUploader
            &&& after.next.phase is ClosingUploader
            &&& after.next.failure == Some(error)
            &&& nobody_waits(model, FlusherModel { failure: model.failure, ..after.next })
        }),
{
}

/// Whether no flush or checkpoint request waits any more and all else but the phase is the same.
pub open spec fn nobody_waits(model: FlusherModel, next: FlusherModel) -> bool {
    &&& next.pending_flushes.len() == 0
    &&& next.pending_checkpoints.len() == 0
    &&& same_course(model, next)
    &&& next.live == model.live
    &&& next.durable == model.durable
    &&& next.durable_l0_len == model.durable_l0_len
    &&& next.due == model.due
    &&& next.reconcile_next == model.reconcile_next
}

/// When work of its own has failed, the orchestrator stops on the spot: requests that wait are
/// dropped, flush requests first, and the error is its result.
pub proof fn law_leaving_drops_requests(model: FlusherModel, error: SlateDBError)
    ensures
        ({
            let after = model.leave(error);
            let flushes = model.pending_flushes.len() as int;
            &&& after.effects.len() == flushes + model.pending_checkpoints.len()
            &&& forall|i: int|
                0 <= i < flushes ==> after.effects[i] == FlusherEffect::ReplyFlush(
                    (#[trigger] model.pending_flushes[i]).sender,
                    Err(SlateDBError::ReadChannelError),
                )
            &&& forall|i: int|
                0 <= i < model.pending_checkpoints.len() ==> after.effects[flushes + i]
                    == FlusherEffect::ReplyCheckpoint(
                    (#[trigger] model.pending_checkpoints[i]).sender,
                    Err(SlateDBError::ReadChannelError),
                )
            &&& after.action == FlusherAction::Exit(Err(error))
            &&& after.next.phase is Stopped
            &&& nobody_waits(model, after.next)
        }),
{
}

/// Once the sequencer has closed, the orchestrator ends with the error that it failed with, else with
/// that of the uploader, else with the result of the sequencer. Requests that still wait are told
/// that it is closed, and the memtables in memory are told the error, or that it is closed.
pub proof fn law_last_words(model: FlusherModel, sequencer: Result<(), SlateDBError>)
    ensures
        ({
            let after = model.on_sequencer_closed(sequencer);
            let flushes = model.pending_flushes.len() as int;
            let waiting = flushes + model.pending_checkpoints.len();
            &&& after.effects.len() == waiting + 1
            &&& forall|i: int|
                0 <= i < flushes ==> after.effects[i] == FlusherEffect::ReplyFlush(
                    (#[trigger] model.pending_flushes[i]).sender,
                    Err(SlateDBError::Closed),
                )
            &&& forall|i: int|
                0 <= i < model.pending_checkpoints.len() ==> after.effects[flushes + i]
                    == FlusherEffect::ReplyCheckpoint(
                    (#[trigger] model.pending_checkpoints[i]).sender,
                    Err(SlateDBError::Closed),
                )
            &&& after.action matches FlusherAction::Exit(result)
            &&& model.failure matches Some(error) ==> result == Err::<(), SlateDBError>(error)
            &&& model.failure is None ==> (model.uploader_error matches Some(error) ==> result
                == Err::<(), SlateDBError>(error))
            &&& model.failure is None && model.uploader_error is None ==> result == sequencer
            &&& after.effects[waiting] == FlusherEffect::FailMemtables(
                match result {
                    Ok(()) => SlateDBError::Closed,
                    Err(error) => error,
                },
            )
            &&& after.next.phase is Stopped
            &&& nobody_waits(model, after.next)
        }),
{
}

/// The answer of the sequencer goes to the checkpoint request that was due first, as it is. Then the
/// next one is created.
pub proof fn law_checkpoint_answer_is_passed_on(
    model: FlusherModel,
    result: Result<CheckpointCreateResult, SlateDBError>,
)
    requires
        model.due.len() > 0,
    ensures
        ({
            let after = model.on_checkpoint_created(result);
            &&& after.effects.len() == 1
            &&& after.effects[0] == FlusherEffect::ReplyCheckpoint(model.due[0].sender, result)
            &&& goes_on(FlusherModel { due: model.due.skip(1), ..model }, after)
        }),
{
    assert(model.due.drop_first() =~= model.due.skip(1));
    lemma_goes_on(
        FlusherModel { due: model.due.skip(1), ..model },
        seq![FlusherEffect::ReplyCheckpoint(model.due[0].sender, result)],
    );
}

/// An upload moves the memtable of its epoch on to the sequencer, and no other.
pub proof fn law_uploaded_memtable_is_with_the_sequencer(live: Seq<TrackedImm>, epoch: FlushEpoch)
    ensures
        ({
            let next = super::flusher::with_uploaded(live, epoch);
            &&& next.len() == live.len()
            &&& forall|i: int|
                0 <= i < live.len() ==> {
                    &&& next[i].epoch == (#[trigger] live[i]).epoch
                    &&& next[i].imm_memtable == live[i].imm_memtable
                    &&& live[i].epoch.0 == epoch.0 ==> next[i].state is Sequencing
                    &&& live[i].epoch.0 != epoch.0 ==> next[i].state == live[i].state
                }
        }),
{
}

} // verus!
