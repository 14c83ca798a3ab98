//! What the steps of the sequencer do, effect by effect and field by field.
use super::sequencer::{
    PendingCheckpoint, SequencerCommand, SequencerEffect, SequencerModel, SequencerPhase,
    SequencerStep, UploadedMemtable,
};
use super::FlushEpoch;
use crate::db_state::CheckpointCreateResult;
use crate::error::SlateDBError;
use vstd::prelude::*;

verus! {

/// Whether nothing of the sequencer has changed but its phase.
pub open spec fn only_phase_changed(model: SequencerModel, next: SequencerModel) -> bool {
    &&& next.ready == model.ready
    &&& next.next_epoch == model.next_epoch
    &&& next.durable_through == model.durable_through
    &&& next.pending == model.pending
    &&& next.queue == model.queue
    &&& next.batch == model.batch
    &&& next.attached == model.attached
    &&& next.current == model.current
}

/// Whether the sequencer has stopped with nothing left in flight, and has forgotten nothing that was
/// durable.
pub open spec fn has_stopped(model: SequencerModel, next: SequencerModel) -> bool {
    &&& next.phase is Stopped
    &&& next.pending.len() == 0
    &&& next.queue.len() == 0
    &&& next.batch.len() == 0
    &&& next.attached.len() == 0
    &&& next.current is None
    &&& next.ready == model.ready
    &&& next.next_epoch == model.next_epoch
    &&& next.durable_through == model.durable_through
}

/// Whether the sequencer ends with an error, after it told others the first `told` effects: then
/// every request that it was about to look at is dropped, the error is made known in three ways, and
/// at last every request that waited is dropped.
pub open spec fn ends_fatally(
    model: SequencerModel,
    attached: Seq<PendingCheckpoint>,
    told: int,
    error: SlateDBError,
    step: SequencerStep,
    next: SequencerModel,
) -> bool {
    let effects = step.effects@;
    let known = effects.len() - model.pending.len() - 3;
    let queued = model.queue.filter(|c: SequencerCommand| c is CreateCheckpoint);
    &&& step.action matches super::sequencer::SequencerAction::Exit(Err(e))
    &&& e == error
    &&& known == told + attached.len() + queued.len()
    &&& forall|i: int|
        0 <= i < attached.len() ==> effects[told + i] == SequencerEffect::ReplyCheckpoint(
            (#[trigger] attached[i]).sender,
            Err(SlateDBError::ReadChannelError),
        )
    &&& forall|i: int|
        0 <= i < queued.len() ==> effects[told + attached.len() + i]
            == SequencerEffect::ReplyCheckpoint(
            (#[trigger] queued[i])->CreateCheckpoint_0.sender,
            Err(SlateDBError::ReadChannelError),
        )
    &&& effects[known] == SequencerEffect::Poison(error)
    &&& effects[known + 1] == SequencerEffect::WriteClosedResult(error)
    &&& effects[known + 2] == SequencerEffect::EmitFatal(error)
    &&& forall|i: int|
        0 <= i < model.pending.len() ==> effects[known + 3 + i] == SequencerEffect::ReplyCheckpoint(
            (#[trigger] model.pending[i]).sender,
            Err(SlateDBError::ReadChannelError),
        )
    &&& has_stopped(model, next)
}

proof fn lemma_flushed_by_index(batch: Seq<UploadedMemtable>)
    ensures
        super::sequencer::flushed_effects(batch).len() == 2 * batch.len(),
        forall|i: int|
            0 <= i < batch.len() ==> super::sequencer::flushed_effects(batch)[2 * i]
                == SequencerEffect::NotifyFlushedToL0((#[trigger] batch[i]).imm_memtable)
                && super::sequencer::flushed_effects(batch)[2 * i + 1]
                == SequencerEffect::CountMemtableFlush,
    decreases batch.len(),
{
    if batch.len() > 0 {
        let fewer = batch.drop_last();
        lemma_flushed_by_index(fewer);
        assert forall|i: int| 0 <= i < batch.len() implies super::sequencer::flushed_effects(
            batch,
        )[2 * i] == SequencerEffect::NotifyFlushedToL0((#[trigger] batch[i]).imm_memtable)
            && super::sequencer::flushed_effects(batch)[2 * i + 1]
            == SequencerEffect::CountMemtableFlush by {
            if i < fewer.len() {
                assert(fewer[i] == batch[i]);
            }
        }
    }
}

proof fn lemma_durable_by_index(batch: Seq<UploadedMemtable>)
    ensures
        super::sequencer::durable_effects(batch).len() == 2 * batch.len(),
        forall|i: int|
            0 <= i < batch.len() ==> super::sequencer::durable_effects(batch)[2 * i]
                == SequencerEffect::NotifyDurable((#[trigger] batch[i]).imm_memtable, Ok(())),
        forall|i: int|
            0 <= i < batch.len() ==> super::sequencer::durable_effects(batch)[2 * i + 1]
                == SequencerEffect::AdvanceDurableSeq((#[trigger] batch[i]).last_seq),
    decreases batch.len(),
{
    if batch.len() > 0 {
        let fewer = batch.drop_last();
        lemma_durable_by_index(fewer);
        assert forall|i: int| 0 <= i < batch.len() implies super::sequencer::durable_effects(
            batch,
        )[2 * i] == SequencerEffect::NotifyDurable((#[trigger] batch[i]).imm_memtable, Ok(())) by {
            if i < fewer.len() {
                assert(fewer[i] == batch[i]);
            }
        }
        assert forall|i: int| 0 <= i < batch.len() implies super::sequencer::durable_effects(
            batch,
        )[2 * i + 1] == SequencerEffect::AdvanceDurableSeq((#[trigger] batch[i]).last_seq) by {
            if i < fewer.len() {
                assert(fewer[i] == batch[i]);
            }
        }
    }
}

proof fn lemma_queued(queue: Seq<SequencerCommand>)
    ensures
        ({
            let queued = queue.filter(|c: SequencerCommand| c is CreateCheckpoint);
            let checkpoints = super::sequencer::checkpoints_in(queue);
            &&& queued.len() == checkpoints.len()
            &&& forall|i: int|
                0 <= i < queued.len() ==> (#[trigger] queued[i])->CreateCheckpoint_0
                    == checkpoints[i]
        }),
    decreases queue.len(),
{
    let is_checkpoint = |c: SequencerCommand| c is CreateCheckpoint;
    reveal(Seq::filter);
    if queue.len() > 0 {
        let rest = queue.drop_first();
        lemma_queued(rest);
        lemma_filter_first(queue, is_checkpoint);
        let queued = queue.filter(is_checkpoint);
        let checkpoints = super::sequencer::checkpoints_in(queue);
        assert forall|i: int| 0 <= i < queued.len() implies (
        #[trigger] queued[i])->CreateCheckpoint_0 == checkpoints[i] by {
            if queue[0] is CreateCheckpoint {
                if i > 0 {
                    assert(queued[i] == rest.filter(is_checkpoint)[i - 1]);
                }
            } else {
                assert(queued[i] == rest.filter(is_checkpoint)[i]);
            }
        }
    }
}

proof fn lemma_filter_first<A>(all: Seq<A>, keep: spec_fn(A) -> bool)
    requires
        all.len() > 0,
    ensures
        all.filter(keep) == (if keep(all[0]) {
            seq![all[0]] + all.drop_first().filter(keep)
        } else {
            all.drop_first().filter(keep)
        }),
    decreases all.len(),
{
    reveal(Seq::filter);
    if all.len() > 1 {
        let fewer = all.drop_last();
        lemma_filter_first(fewer, keep);
        assert(fewer.drop_first() =~= all.drop_first().drop_last());
        assert(all.drop_first().last() == all.last());
        assert(fewer[0] == all[0]);
        assert(all.filter(keep) =~= (if keep(all[0]) {
            seq![all[0]] + all.drop_first().filter(keep)
        } else {
            all.drop_first().filter(keep)
        }));
    } else {
        assert(all.drop_last() =~= Seq::<A>::empty());
        assert(all.drop_first() =~= Seq::<A>::empty());
        assert(all.last() == all[0]);
        assert(all.filter(keep) =~= (if keep(all[0]) {
            seq![all[0]] + all.drop_first().filter(keep)
        } else {
            all.drop_first().filter(keep)
        }));
    }
}

/// Two tests that agree keep the same.
pub(crate) proof fn lemma_filter_agrees<A>(all: Seq<A>, one: spec_fn(A) -> bool, other: spec_fn(A) -> bool)
    requires
        forall|a: A| #[trigger] one(a) == other(a),
    ensures
        all.filter(one) == all.filter(other),
    decreases all.len(),
{
    reveal(Seq::filter);
    if all.len() > 0 {
        lemma_filter_agrees(all.drop_last(), one, other);
        assert(one(all.last()) == other(all.last()));
    }
}

proof fn lemma_dies(
    model: SequencerModel,
    first: Seq<SequencerEffect>,
    error: SlateDBError,
    step: SequencerStep,
    next: SequencerModel,
)
    requires
        model.dies(first, error, step, next),
    ensures
        ends_fatally(model, model.attached, first.len() as int, error, step, next),
        first.is_prefix_of(step.effects@),
        step.effects@.len() >= first.len(),
        forall|i: int| 0 <= i < first.len() ==> #[trigger] step.effects@[i] == first[i],
{
    lemma_queued(model.queue);
    let queued = model.queue.filter(|c: SequencerCommand| c is CreateCheckpoint);
    let checkpoints = super::sequencer::checkpoints_in(model.queue);
    let told = first.len() as int;
    assert forall|i: int| 0 <= i < queued.len() implies step.effects@[told + model.attached.len()
        + i] == SequencerEffect::ReplyCheckpoint(
        (#[trigger] queued[i])->CreateCheckpoint_0.sender,
        Err(SlateDBError::ReadChannelError),
    ) by {
        assert((model.attached + checkpoints)[model.attached.len() + i] == checkpoints[i]);
    }
    assert forall|i: int| 0 <= i < model.attached.len() implies step.effects@[told + i]
        == SequencerEffect::ReplyCheckpoint(
        (#[trigger] model.attached[i]).sender,
        Err(SlateDBError::ReadChannelError),
    ) by {
        assert((model.attached + checkpoints)[i] == model.attached[i]);
    }
}

/// A batch that was put into the local state is told, memtable by memtable, that it has left the
/// queue, and each memtable is counted. Then the manifest is written with one entry for every
/// checkpoint that is attached to the batch, with the options that its request carries. A batch that
/// could not be put there ends the sequencer.
pub proof fn law_retirement_is_told_and_written(
    model: SequencerModel,
    result: Result<(), SlateDBError>,
    step: SequencerStep,
    next: SequencerModel,
)
    requires
        model.after_retirement(result, step, next),
    ensures
        match result {
            Ok(()) => {
                &&& step.effects@.len() == 2 * model.batch.len()
                &&& forall|i: int|
                    0 <= i < model.batch.len() ==> step.effects@[2 * i]
                        == SequencerEffect::NotifyFlushedToL0(
                        (#[trigger] model.batch[i]).imm_memtable,
                    ) && step.effects@[2 * i + 1] == SequencerEffect::CountMemtableFlush
                &&& step.action matches super::sequencer::SequencerAction::WriteManifest(options)
                &&& options@.len() == model.attached.len()
                &&& forall|i: int|
                    0 <= i < options@.len() ==> #[trigger] options@[i] == model.attached[i].options
                &&& next.phase is WritingBatch
                &&& only_phase_changed(model, next)
            },
            Err(error) => ends_fatally(model, model.attached, 0, error, step, next),
        },
{
    lemma_flushed_by_index(model.batch);
    if let Err(error) = result {
        lemma_dies(model, Seq::empty(), error, step, next);
    }
}

/// When a batch has become durable, every memtable of it is told so, and directly behind that the
/// durable sequence number advances to that of its upload. Then every checkpoint of the batch gets
/// its own result. The event that follows reports the epoch and the sequence number of the last
/// upload, which is the number that was advanced to last.
pub proof fn law_durable_batch_is_reported(
    model: SequencerModel,
    results: Vec<CheckpointCreateResult>,
    step: SequencerStep,
    next: SequencerModel,
)
    requires
        model.wf(),
        model.phase is WritingBatch,
        results@.len() == model.attached.len(),
        model.after_write(Ok(results), step, next),
    ensures
        ({
            let n = model.batch.len() as int;
            &&& n > 0
            &&& step.effects@.len() == 2 * n + model.attached.len()
            &&& forall|i: int|
                0 <= i < n ==> step.effects@[2 * i] == SequencerEffect::NotifyDurable(
                    (#[trigger] model.batch[i]).imm_memtable,
                    Ok(()),
                ) && step.effects@[2 * i + 1] == SequencerEffect::AdvanceDurableSeq(
                    model.batch[i].last_seq,
                )
            &&& forall|i: int|
                0 <= i < model.attached.len() ==> step.effects@[2 * n + i]
                    == SequencerEffect::ReplyCheckpoint(
                    (#[trigger] model.attached[i]).sender,
                    Ok(results@[i]),
                )
            &&& step.action matches super::sequencer::SequencerAction::EmitFlushed {
                through_epoch,
                through_seq,
            }
            &&& through_epoch == model.batch[n - 1].epoch
            &&& through_seq == model.batch[n - 1].last_seq
            &&& step.effects@[2 * n - 1] == SequencerEffect::AdvanceDurableSeq(through_seq)
            &&& next.durable_through == Some((through_epoch, through_seq))
            &&& next.phase is Emitting
            &&& next.batch.len() == 0
            &&& next.attached.len() == 0
            &&& next.ready == model.ready
            &&& next.next_epoch == model.next_epoch
            &&& next.pending == model.pending
            &&& next.queue == model.queue
            &&& next.current == model.current
        }),
{
    lemma_durable_by_index(model.batch);
    let n = model.batch.len() as int;
    assert(model.batch[n - 1].epoch.0 == model.next_epoch - 1);
    assert(step.effects@[2 * (n - 1) + 1] == SequencerEffect::AdvanceDurableSeq(
        model.batch[n - 1].last_seq,
    ));
    let notices = super::sequencer::durable_effects(model.batch);
    assert forall|i: int| 0 <= i < n implies step.effects@[2 * i]
        == SequencerEffect::NotifyDurable((#[trigger] model.batch[i]).imm_memtable, Ok(()))
        && step.effects@[2 * i + 1] == SequencerEffect::AdvanceDurableSeq(
        model.batch[i].last_seq,
    ) by {
        assert(step.effects@[2 * i] == notices[2 * i]);
        assert(step.effects@[2 * i + 1] == notices[2 * i + 1]);
    }
}

/// A batch could not be written. A version that another process wrote first is loaded. A fenced
/// writer deletes the tables of the batch, all of them and no others. Any other error is told to
/// every memtable of the batch and to every checkpoint attached to it, and ends the sequencer.
pub proof fn law_failed_batch_write(
    model: SequencerModel,
    error: SlateDBError,
    step: SequencerStep,
    next: SequencerModel,
)
    requires
        model.phase is WritingBatch && model.after_write(Err(error), step, next) || (
        model.phase is ReloadingBatch && !(error is TransactionalObjectVersionExists)
            && model.after_load(Err(error), step, next)),
    ensures
        error is TransactionalObjectVersionExists ==> {
            &&& step.effects@.len() == 0
            &&& step.action is LoadManifest
            &&& next.phase is ReloadingBatch
            &&& only_phase_changed(model, next)
        },
        error is Fenced ==> {
            &&& step.effects@.len() == 0
            &&& step.action matches super::sequencer::SequencerAction::DeleteSsts(ids)
            &&& ids@.len() == model.batch.len()
            &&& forall|i: int| 0 <= i < ids@.len() ==> #[trigger] ids@[i] == model.batch[i].sst_id
            &&& next.phase is DeletingBatch
            &&& only_phase_changed(model, next)
        },
        !(error is TransactionalObjectVersionExists) && !(error is Fenced) ==> batch_is_lost(
            model,
            error,
            error,
            step,
            next,
        ),
{
    if !(error is TransactionalObjectVersionExists) && !(error is Fenced) {
        lemma_batch_is_lost(model, error, error, step, next);
    }
}

/// Whether every memtable of the batch is told that it will not be durable because of `error`, and
/// every checkpoint attached to it is refused with the same error, before the sequencer ends with
/// `fatal`.
pub open spec fn batch_is_lost(
    model: SequencerModel,
    error: SlateDBError,
    fatal: SlateDBError,
    step: SequencerStep,
    next: SequencerModel,
) -> bool {
    let n = model.batch.len() as int;
    &&& forall|i: int|
        0 <= i < n ==> step.effects@[i] == SequencerEffect::NotifyDurable(
            (#[trigger] model.batch[i]).imm_memtable,
            Err(error),
        )
    &&& forall|i: int|
        0 <= i < model.attached.len() ==> step.effects@[n + i] == SequencerEffect::ReplyCheckpoint(
            (#[trigger] model.attached[i]).sender,
            Err(error),
        )
    &&& ends_fatally(model, Seq::empty(), n + model.attached.len(), fatal, step, next)
}

proof fn lemma_batch_is_lost(
    model: SequencerModel,
    error: SlateDBError,
    fatal: SlateDBError,
    step: SequencerStep,
    next: SequencerModel,
)
    requires
        model.fails_batch(error, fatal, step, next),
    ensures
        batch_is_lost(model, error, fatal, step, next),
{
    let told = super::sequencer::failed_effects(model.batch, error)
        + super::sequencer::refused_effects(model.attached, error);
    let left = SequencerModel { attached: Seq::empty(), ..model };
    lemma_dies(left, told, fatal, step, next);
    let n = model.batch.len() as int;
    assert forall|i: int| 0 <= i < n implies step.effects@[i] == SequencerEffect::NotifyDurable(
        (#[trigger] model.batch[i]).imm_memtable,
        Err(error),
    ) by {
        assert(step.effects@[i] == told[i]);
    }
    assert forall|i: int| 0 <= i < model.attached.len() implies step.effects@[n + i]
        == SequencerEffect::ReplyCheckpoint((#[trigger] model.attached[i]).sender, Err(error)) by {
        assert(step.effects@[n + i] == told[n + i]);
    }
}

/// The manifest was loaded for a batch. Before another attempt the same checkpoints are asked for
/// again, each with the options of its request. After fencing the batch is lost, whether or not the
/// manifest could be loaded.
pub proof fn law_batch_after_a_load(
    model: SequencerModel,
    result: Result<(), SlateDBError>,
    step: SequencerStep,
    next: SequencerModel,
)
    requires
        model.after_load(result, step, next),
    ensures
        model.phase is ReloadingBatch && result is Ok ==> {
            &&& step.effects@.len() == 0
            &&& step.action matches super::sequencer::SequencerAction::WriteManifest(options)
            &&& options@.len() == model.attached.len()
            &&& forall|i: int|
                0 <= i < options@.len() ==> #[trigger] options@[i] == model.attached[i].options
            &&& next.phase is WritingBatch
            &&& only_phase_changed(model, next)
        },
        model.phase is ReloadingFenced ==> batch_is_lost(
            model,
            SlateDBError::Fenced,
            match result {
                Ok(()) => SlateDBError::Fenced,
                Err(error) => error,
            },
            step,
            next,
        ),
{
    if model.phase is ReloadingFenced {
        let fatal = match result {
            Ok(()) => SlateDBError::Fenced,
            Err(error) => error,
        };
        lemma_batch_is_lost(model, SlateDBError::Fenced, fatal, step, next);
    }
}

/// A checkpoint of its own: once the manifest is loaded it is written with exactly the options of
/// the request, and once it is written the request gets the result. A version that another process
/// wrote first is loaded again. Any other failure is told to the request and ends the sequencer.
pub proof fn law_checkpoint_on_its_own(
    model: SequencerModel,
    loaded: Result<(), SlateDBError>,
    written: Result<Vec<CheckpointCreateResult>, SlateDBError>,
    step: SequencerStep,
    next: SequencerModel,
)
    requires
        model.current is Some,
        model.attached.len() == 0,
        model.phase is LoadingCheckpoint && model.after_load(loaded, step, next) || (
        model.phase is WritingCheckpoint && model.after_write(written, step, next)),
    ensures
        ({
            let request = model.current->0;
            let error = if model.phase is LoadingCheckpoint {
                loaded->Err_0
            } else {
                written->Err_0
            };
            if model.phase is LoadingCheckpoint && loaded is Ok {
                &&& step.effects@.len() == 0
                &&& step.action matches super::sequencer::SequencerAction::WriteManifest(options)
                &&& options@ == seq![request.options]
                &&& next.phase is WritingCheckpoint
                &&& only_phase_changed(model, next)
            } else if model.phase is WritingCheckpoint && written is Ok {
                &&& step.effects@.len() == 1
                &&& step.effects@[0] == SequencerEffect::ReplyCheckpoint(
                    request.sender,
                    Ok(written->Ok_0@[0]),
                )
                &&& step.action is Proceed
                &&& next.phase is Working
                &&& next.current is None
                &&& only_phase_changed(model, SequencerModel { current: model.current, ..next })
            } else if model.phase is WritingCheckpoint && error
                is TransactionalObjectVersionExists {
                &&& step.effects@.len() == 0
                &&& step.action is LoadManifest
                &&& next.phase is LoadingCheckpoint
                &&& only_phase_changed(model, next)
            } else {
                &&& step.effects@[0] == SequencerEffect::ReplyCheckpoint(
                    request.sender,
                    Err(error),
                )
                &&& ends_fatally(model, Seq::empty(), 1, error, step, next)
            }
        }),
{
    if model.phase is LoadingCheckpoint && loaded is Ok {
        assert(super::sequencer::options_of(model.current_checkpoint()) =~= seq![
            model.current->0.options,
        ]);
    } else if model.phase is LoadingCheckpoint {
        let error = loaded->Err_0;
        lemma_dies(model, model.answer(Err(error)), error, step, next);
        assert(step.effects@[0] == model.answer(Err(error))[0]);
    } else if written is Err && !(written->Err_0 is TransactionalObjectVersionExists) {
        let error = written->Err_0;
        lemma_dies(model, model.answer(Err(error)), error, step, next);
        assert(step.effects@[0] == model.answer(Err(error))[0]);
    }
}

/// The last write: it has no checkpoints in it, and is tried again when another process wrote the
/// same version first. Whatever else comes of it is the result of the sequencer; requests that still
/// waited are dropped, and nothing else is told.
pub proof fn law_last_write(
    model: SequencerModel,
    loaded: Result<(), SlateDBError>,
    written: Result<Vec<CheckpointCreateResult>, SlateDBError>,
    step: SequencerStep,
    next: SequencerModel,
)
    requires
        model.phase is ReloadingFinal && model.after_load(loaded, step, next) || (
        model.phase is WritingFinal && model.after_write(written, step, next)),
    ensures
        if model.phase is ReloadingFinal && loaded is Ok {
            &&& step.effects@.len() == 0
            &&& step.action matches super::sequencer::SequencerAction::WriteManifest(options)
            &&& options@.len() == 0
            &&& next.phase is WritingFinal
            &&& only_phase_changed(model, next)
        } else if model.phase is WritingFinal && written matches Err(
            SlateDBError::TransactionalObjectVersionExists,
        ) {
            &&& step.effects@.len() == 0
            &&& step.action is LoadManifest
            &&& next.phase is ReloadingFinal
            &&& only_phase_changed(model, next)
        } else {
            &&& step.effects@.len() == model.pending.len()
            &&& forall|i: int|
                0 <= i < model.pending.len() ==> step.effects@[i]
                    == SequencerEffect::ReplyCheckpoint(
                    (#[trigger] model.pending[i]).sender,
                    Err(SlateDBError::ReadChannelError),
                )
            &&& step.action matches super::sequencer::SequencerAction::Exit(result)
            &&& result == (if model.phase is ReloadingFinal {
                loaded
            } else {
                match written {
                    Ok(_) => Ok(()),
                    Err(error) => Err(error),
                }
            })
            &&& has_stopped(model, next)
        },
{
}

/// A batch that starts holds the uploads of the epochs from the next one on, up to the first that is
/// missing, and these are no longer waiting. Each upload becomes one table to retire, with its own
/// handle and sequence number. The checkpoints that wait for nothing later than the batch go with
/// it, in their order, and the others go on waiting.
pub proof fn law_batch_is_put_together(
    model: SequencerModel,
    step: SequencerStep,
    next: SequencerModel,
)
    requires
        model.wf(),
        model.starts_batch(step, next),
        model.ready.contains_key(model.next_epoch),
    ensures
        ({
            let n = next.batch.len() as int;
            let through = next.batch[n - 1].epoch.0;
            &&& n > 0
            &&& model.next_epoch + n <= u64::MAX
            &&& forall|i: int|
                0 <= i < n ==> model.ready.contains_key((model.next_epoch + i) as u64)
                    && model.ready[(model.next_epoch + i) as u64] == #[trigger] next.batch[i]
                    && next.batch[i].epoch.0 == model.next_epoch + i
            &&& !model.ready.contains_key((model.next_epoch + n) as u64)
            &&& next.next_epoch == model.next_epoch + n
            &&& forall|e: u64| #[trigger]
                next.ready.contains_key(e) <==> model.ready.contains_key(e) && !(model.next_epoch
                    <= e < model.next_epoch + n)
            &&& forall|e: u64| #[trigger]
                next.ready.contains_key(e) ==> next.ready[e] == model.ready[e]
            &&& step.effects@.len() == 0
            &&& step.action matches super::sequencer::SequencerAction::Retire(tables)
            &&& tables@.len() == n
            &&& forall|i: int|
                0 <= i < n ==> (#[trigger] tables@[i]).imm_memtable == next.batch[i].imm_memtable
                    && tables@[i].sst_handle == next.batch[i].sst_handle && tables@[i].last_seq
                    == next.batch[i].last_seq
            &&& next.attached == model.pending.filter(
                |c: PendingCheckpoint|
                    c.through_epoch is None || c.through_epoch->Some_0.0 <= through,
            )
            &&& next.pending == model.pending.filter(
                |c: PendingCheckpoint|
                    c.through_epoch is Some && c.through_epoch->Some_0.0 > through,
            )
            &&& next.phase is Retiring
            &&& next.durable_through == model.durable_through
            &&& next.queue == model.queue
            &&& next.current == model.current
        }),
{
    let n = next.batch.len() as int;
    assert forall|i: int| 0 <= i < n implies model.ready.contains_key(
        (model.next_epoch + i) as u64,
    ) && model.ready[(model.next_epoch + i) as u64] == #[trigger] next.batch[i]
        && next.batch[i].epoch.0 == model.next_epoch + i by {
        assert(super::sequencer::upload_of(model.ready, model.next_epoch + i) == Some(
            next.batch[i],
        ));
        assert(model.ready.contains_key((model.next_epoch + i) as u64));
    }
    if n == 0 {
        assert(super::sequencer::upload_of(model.ready, model.next_epoch + n) is Some);
    }
    assert(next.batch[n - 1].epoch.0 == model.next_epoch + n - 1);
    assert(model.ready.contains_key(next.batch[n - 1].epoch.0));
    let through = (next.next_epoch - 1) as u64;
    lemma_filter_agrees(
        model.pending,
        |c: PendingCheckpoint| super::sequencer::barrier_passed(c.through_epoch, through),
        |c: PendingCheckpoint| c.through_epoch is None || c.through_epoch->Some_0.0 <= through,
    );
    lemma_filter_agrees(
        model.pending,
        |c: PendingCheckpoint| !super::sequencer::barrier_passed(c.through_epoch, through),
        |c: PendingCheckpoint| c.through_epoch is Some && c.through_epoch->Some_0.0 > through,
    );
    let tables = step.action->Retire_0;
    assert forall|i: int| 0 <= i < n implies (#[trigger] tables@[i]).imm_memtable
        == next.batch[i].imm_memtable && tables@[i].sst_handle == next.batch[i].sst_handle
        && tables@[i].last_seq == next.batch[i].last_seq by {
        assert(tables@[i] == super::sequencer::flushed_tables(next.batch)[i]);
    }
}

/// A command that the sequencer looks at. An upload waits under its epoch until its turn comes; a
/// second one of an epoch that waits ends the sequencer. A checkpoint request is handled at once if
/// it waits for nothing or what it waits for is durable; otherwise it waits behind the others.
pub proof fn law_commands_are_taken_in(
    model: SequencerModel,
    uploaded: UploadedMemtable,
    checkpoint: PendingCheckpoint,
    step: SequencerStep,
    next: SequencerModel,
)
    requires
        model.queue.len() > 0,
        model.attached.len() == 0,
    ensures
        model.takes_upload(uploaded, step, next) && !model.ready.contains_key(uploaded.epoch.0) ==> {
            &&& next.ready == model.ready.insert(uploaded.epoch.0, uploaded)
            &&& next.queue == model.queue.skip(1)
            &&& next.phase == model.phase
            &&& only_phase_changed(
                model,
                SequencerModel { ready: model.ready, queue: model.queue, ..next },
            )
            &&& step.effects@.len() == 0
            &&& step.action is Proceed
        },
        model.takes_upload(uploaded, step, next) && model.ready.contains_key(uploaded.epoch.0) ==> {
            let taken = SequencerModel {
                ready: model.ready.insert(uploaded.epoch.0, uploaded),
                queue: model.queue.skip(1),
                ..model
            };
            ends_fatally(taken, Seq::empty(), 0, SlateDBError::InvalidDBState, step, next)
        },
        model.takes_checkpoint(checkpoint, step, next) ==> {
            let at_once = checkpoint.through_epoch is None || (model.durable_through matches Some(
                (epoch, _),
            ) && checkpoint.through_epoch->Some_0.0 <= epoch.0);
            &&& step.effects@.len() == 0
            &&& next.queue == model.queue.skip(1)
            &&& at_once ==> {
                &&& next.current == Some(checkpoint)
                &&& next.phase is LoadingCheckpoint
                &&& next.pending == model.pending
                &&& step.action is LoadManifest
            }
            &&& !at_once ==> {
                &&& next.pending == model.pending.push(checkpoint)
                &&& next.current == model.current
                &&& next.phase == model.phase
                &&& step.action is Proceed
            }
            &&& only_phase_changed(
                model,
                SequencerModel {
                    queue: model.queue,
                    pending: model.pending,
                    current: model.current,
                    ..next
                },
            )
        },
{
    assert(model.queue.drop_first() =~= model.queue.skip(1));
    if model.takes_upload(uploaded, step, next) && model.ready.contains_key(uploaded.epoch.0) {
        let taken = SequencerModel {
            ready: model.ready.insert(uploaded.epoch.0, uploaded),
            queue: model.queue.skip(1),
            ..model
        };
        lemma_dies(taken, Seq::empty(), SlateDBError::InvalidDBState, step, next);
    }
}

/// Going on in another phase changes nothing else, and tells others nothing but what is said.
pub proof fn law_phases_change_alone(
    model: SequencerModel,
    phase: SequencerPhase,
    effects: Seq<SequencerEffect>,
    step: SequencerStep,
    next: SequencerModel,
)
    requires
        model.moves(phase, effects, step, next),
    ensures
        next.phase == phase,
        only_phase_changed(model, next),
        step.effects@ == effects,
{
}

/// An error that ends the sequencer is made known in three ways, every request that is open is
/// dropped, and nothing that was durable is forgotten.
pub proof fn law_fatal_end(
    model: SequencerModel,
    error: SlateDBError,
    step: SequencerStep,
    next: SequencerModel,
)
    requires
        model.dies(Seq::empty(), error, step, next),
    ensures
        ends_fatally(model, model.attached, 0, error, step, next),
{
    lemma_dies(model, Seq::empty(), error, step, next);
}

/// What the requests in flight ask for: a manifest write has as many checkpoints in it as there are
/// requests attached to the batch or handled on their own.
pub proof fn law_requested_checkpoints(model: SequencerModel)
    ensures
        model.current is None ==> model.requested() == model.attached.len(),
        model.current is Some ==> model.requested() == model.attached.len() + 1,
{
}

/// Whether a barrier is passed: there is none, or its epoch is durable.
pub proof fn law_barriers(
    barrier: Option<FlushEpoch>,
    durable: Option<(FlushEpoch, u64)>,
    through: u64,
)
    ensures
        super::sequencer::requirement_met(durable, None),
        barrier matches Some(required) ==> (super::sequencer::requirement_met(durable, barrier)
            <==> (durable matches Some((epoch, _)) && required.0 <= epoch.0)),
        super::sequencer::barrier_passed(None, through),
        barrier matches Some(required) ==> (super::sequencer::barrier_passed(barrier, through)
            <==> required.0 <= through),
{
}

} // verus!
