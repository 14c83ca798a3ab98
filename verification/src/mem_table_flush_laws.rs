//! What the steps of the flush pipeline do, effect by effect and field by field, and what they
//! record.
use std::sync::Arc;

use crate::db_state::{CheckpointCreateResult, ImmutableMemtable};
use crate::db_stats::DbStats;
use crate::error::SlateDBError;
use crate::mem_table_flush::{
    CleanupAction, CleanupStep, FlushSlot, FlushStart, MemtableFlushMsg, MemtableFlushReply,
    PipelineAction, PipelineEffect, PipelineModel, PipelineStep, ReadyForCommit,
    TableUpload,
};
use crate::stats::{StatEntry, StatValue};
use vstd::prelude::*;

verus! {

/// Whether the settings and the place of the next commit are the same.
pub open spec fn same_course(model: PipelineModel, next: PipelineModel) -> bool {
    &&& next.l0_max_ssts == model.l0_max_ssts
    &&& next.wal_enabled == model.wal_enabled
    &&& next.next_commit_seq == model.next_commit_seq
}

/// Whether `n` is the number of uploads before the first flush that is not uploaded.
pub open spec fn is_uploaded_through(slots: Seq<FlushSlot>, n: int) -> bool {
    &&& 0 <= n <= slots.len()
    &&& forall|i: int| 0 <= i < n ==> #[trigger] slots[i] is Uploaded
    &&& n < slots.len() ==> !(slots[n] is Uploaded)
}

/// Whether `first` is the place of the first table that is built and not being uploaded.
pub open spec fn is_first_built(slots: Seq<FlushSlot>, first: int) -> bool {
    &&& 0 <= first < slots.len()
    &&& slots[first] is Built
    &&& forall|i: int| 0 <= i < first ==> !(#[trigger] slots[i] is Built)
}

/// Whether another table may be built now: fewer than two are being built, level 0 has room for one
/// beside all flushes that were started, and a memtable waits behind theirs.
pub open spec fn has_room_to_build(
    model: PipelineModel,
    l0_len: nat,
    frozen: Seq<Arc<ImmutableMemtable>>,
) -> bool {
    &&& model.slots.filter(|slot: FlushSlot| slot is Building).len() < 2
    &&& l0_len + model.slots.len() < model.l0_max_ssts
    &&& model.slots.len() < frozen.len()
}

/// Whether a memtable holds entries that are not in the durable WAL and have to be there first.
pub open spec fn is_ahead_of_wal(
    wal_enabled: bool,
    imm_memtable: ImmutableMemtable,
    last_remote_persisted_seq: u64,
) -> bool {
    wal_enabled && match imm_memtable.last_seq {
        Some(last_seq) => last_remote_persisted_seq < last_seq,
        None => false,
    }
}

proof fn lemma_uploaded_through(slots: Seq<FlushSlot>, n: int)
    requires
        is_uploaded_through(slots, n),
    ensures
        crate::mem_table_flush::uploaded_prefix(slots) == n,
    decreases slots.len(),
{
    if n > 0 {
        let rest = slots.drop_first();
        assert(slots[0] is Uploaded);
        assert forall|i: int| 0 <= i < n - 1 implies #[trigger] rest[i] is Uploaded by {
            assert(rest[i] == slots[i + 1]);
        }
        if n < slots.len() {
            assert(rest[n - 1] == slots[n]);
        }
        lemma_uploaded_through(rest, n - 1);
    }
}

proof fn lemma_uploaded_prefix(slots: Seq<FlushSlot>)
    ensures
        is_uploaded_through(slots, crate::mem_table_flush::uploaded_prefix(slots) as int),
    decreases slots.len(),
{
    if slots.len() > 0 && slots[0] is Uploaded {
        let rest = slots.drop_first();
        lemma_uploaded_prefix(rest);
        let n = crate::mem_table_flush::uploaded_prefix(rest) as int;
        assert forall|i: int| 0 <= i < n + 1 implies #[trigger] slots[i] is Uploaded by {
            if i > 0 {
                assert(rest[i - 1] == slots[i]);
            }
        }
        if n < rest.len() {
            assert(rest[n] == slots[n + 1]);
        }
    }
}

proof fn lemma_first_built(slots: Seq<FlushSlot>, first: int)
    requires
        is_first_built(slots, first),
    ensures
        crate::mem_table_flush::first_built(slots) == first,
    decreases slots.len(),
{
    if first > 0 {
        let rest = slots.drop_first();
        assert(rest[first - 1] == slots[first]);
        assert forall|i: int| 0 <= i < first - 1 implies !(#[trigger] rest[i] is Built) by {
            assert(rest[i] == slots[i + 1]);
        }
        lemma_first_built(rest, first - 1);
        assert(!(slots[0] is Built));
    }
}

proof fn lemma_none_built(slots: Seq<FlushSlot>)
    requires
        forall|i: int| 0 <= i < slots.len() ==> !(#[trigger] slots[i] is Built),
    ensures
        crate::mem_table_flush::first_built(slots) == slots.len(),
    decreases slots.len(),
{
    if slots.len() > 0 {
        let rest = slots.drop_first();
        assert forall|i: int| 0 <= i < rest.len() implies !(#[trigger] rest[i] is Built) by {
            assert(rest[i] == slots[i + 1]);
        }
        lemma_none_built(rest);
        assert(!(slots[0] is Built));
    }
}

proof fn lemma_counts(slots: Seq<FlushSlot>)
    ensures
        crate::mem_table_flush::count_building(slots) == slots.filter(
            |slot: FlushSlot| slot is Building,
        ).len(),
        crate::mem_table_flush::count_uploading(slots) == slots.filter(
            |slot: FlushSlot| slot is Uploading,
        ).len(),
        crate::mem_table_flush::count_built(slots) == slots.filter(
            |slot: FlushSlot| slot is Built,
        ).len(),
        crate::mem_table_flush::count_uploaded(slots) == slots.filter(
            |slot: FlushSlot| slot is Uploaded,
        ).len(),
        crate::mem_table_flush::count_uploading(slots) == 0 <==> forall|i: int|
            0 <= i < slots.len() ==> !(#[trigger] slots[i] is Uploading),
    decreases slots.len(),
{
    reveal(Seq::filter);
    if slots.len() > 0 {
        let fewer = slots.drop_last();
        lemma_counts(fewer);
        assert(slots[slots.len() - 1] == slots.last());
        if forall|i: int| 0 <= i < fewer.len() ==> !(#[trigger] fewer[i] is Uploading) {
            assert forall|i: int| 0 <= i < slots.len() - 1 implies !(
            #[trigger] slots[i] is Uploading) by {
                assert(fewer[i] == slots[i]);
            }
        } else {
            let i = choose|i: int| 0 <= i < fewer.len() && #[trigger] fewer[i] is Uploading;
            assert(slots[i] == fewer[i]);
        }
    }
}

/// The uploads before the first flush that is not uploaded are committed together, in their order:
/// each becomes one table in the place of its memtable, with the sequence number of the upload, and
/// none of them is left in the pipeline. Without such an upload the pipeline waits, and without any
/// flush the run is over.
pub proof fn law_commit_takes_uploads(
    model: PipelineModel,
    n: int,
    step: PipelineStep,
    next: PipelineModel,
)
    requires
        model.wf(),
        is_uploaded_through(model.slots, n),
        model.commits(step, next),
    ensures
        step.effects@.len() == 0,
        next.next_commit_seq == model.next_commit_seq + n,
        next.slots == model.slots.skip(n),
        next.candidate == model.candidate,
        same_course(model, PipelineModel { next_commit_seq: model.next_commit_seq, ..next }),
        n > 0 ==> {
            &&& next.phase is Publishing
            &&& next.batch.len() == n
            &&& forall|i: int|
                0 <= i < n ==> model.slots[i] == FlushSlot::Uploaded(#[trigger] next.batch[i])
            &&& step.action matches PipelineAction::Publish(tables)
            &&& tables@.len() == n
            &&& forall|i: int|
                0 <= i < n ==> (#[trigger] tables@[i]).imm_memtable == next.batch[i].imm_memtable
                    && tables@[i].sst_handle == next.batch[i].sst_handle && tables@[i].last_seq
                    == next.batch[i].last_seq
        },
        n == 0 ==> next.batch == model.batch,
        n == 0 && model.slots.len() == 0 ==> next.phase is Done && step.action
            == PipelineAction::Exit(Ok(())),
        n == 0 && model.slots.len() > 0 ==> next.phase is Waiting && step.action is Wait,
{
    lemma_uploaded_through(model.slots, n);
    assert(model.slots.skip(0) =~= model.slots);
    if n > 0 {
        assert forall|i: int| 0 <= i < n implies model.slots[i] == FlushSlot::Uploaded(
            #[trigger] next.batch[i],
        ) by {
            assert(model.slots[i] is Uploaded);
        }
        let tables = step.action->Publish_0;
        assert forall|i: int| 0 <= i < n implies (#[trigger] tables@[i]).imm_memtable
            == next.batch[i].imm_memtable && tables@[i].sst_handle == next.batch[i].sst_handle
            && tables@[i].last_seq == next.batch[i].last_seq by {
            assert(tables@[i] == crate::mem_table_flush::tables_of(next.batch)[i]);
        }
    }
}

/// A table is built before anything else, if it may be: that of the oldest memtable behind those
/// whose flush was started, after the WAL holds its entries. Else, unless a table is being uploaded,
/// the first one that is built is uploaded, under its own place and id. Else uploads are committed.
pub proof fn law_pipeline_advances(
    model: PipelineModel,
    l0_len: nat,
    frozen: Seq<Arc<ImmutableMemtable>>,
    last_remote_persisted_seq: u64,
    first: int,
    step: PipelineStep,
    next: PipelineModel,
)
    requires
        model.advances(l0_len, frozen, last_remote_persisted_seq, step, next),
    ensures
        ({
            let builds = has_room_to_build(model, l0_len, frozen);
            let none_uploading = forall|i: int|
                0 <= i < model.slots.len() ==> !(#[trigger] model.slots[i] is Uploading);
            let none_built = forall|i: int|
                0 <= i < model.slots.len() ==> !(#[trigger] model.slots[i] is Built);
            &&& builds ==> {
                let oldest = frozen[frozen.len() - 1 - model.slots.len()];
                &&& step.effects@.len() == 0
                &&& step.action matches PipelineAction::Prepare { imm_memtable, flush_wals }
                &&& imm_memtable == oldest
                &&& flush_wals == is_ahead_of_wal(
                    model.wal_enabled,
                    *oldest,
                    last_remote_persisted_seq,
                )
                &&& next.phase is Preparing
                &&& next.candidate == Some(oldest)
                &&& next.slots == model.slots
                &&& next.batch == model.batch
                &&& same_course(model, next)
            }
            &&& !builds && none_uploading && is_first_built(model.slots, first) ==> {
                let pending = model.slots[first]->Built_0;
                &&& step.effects@.len() == 0
                &&& step.action matches PipelineAction::Upload { flush_seq, imm_memtable, sst_id }
                &&& flush_seq == pending.flush_seq
                &&& imm_memtable == pending.imm_memtable
                &&& sst_id == pending.sst_id
                &&& next.phase is Committing
                &&& next.slots.len() == model.slots.len()
                &&& next.slots[first] == FlushSlot::Uploading(pending)
                &&& forall|i: int|
                    0 <= i < model.slots.len() && i != first ==> #[trigger] next.slots[i]
                        == model.slots[i]
                &&& next.candidate == model.candidate
                &&& next.batch == model.batch
                &&& same_course(model, next)
            }
            &&& !builds && (!none_uploading || none_built) ==> model.commits(step, next)
        }),
{
    lemma_counts(model.slots);
    if is_first_built(model.slots, first) {
        lemma_first_built(model.slots, first);
    }
    if forall|i: int| 0 <= i < model.slots.len() ==> !(#[trigger] model.slots[i] is Built) {
        lemma_none_built(model.slots);
    }
}

/// A round that begins looks for something to build; one that comes back from an upload that was
/// started only commits.
pub proof fn law_rounds_build_first(
    model: PipelineModel,
    l0_len: nat,
    frozen: Seq<Arc<ImmutableMemtable>>,
    last_remote_persisted_seq: u64,
    step: PipelineStep,
    next: PipelineModel,
)
    ensures
        model.phase is Committing ==> (model.proceeds(
            l0_len,
            frozen,
            last_remote_persisted_seq,
            step,
            next,
        ) <==> model.commits(step, next)),
        !(model.phase is Committing) ==> (model.proceeds(
            l0_len,
            frozen,
            last_remote_persisted_seq,
            step,
            next,
        ) <==> model.advances(l0_len, frozen, last_remote_persisted_seq, step, next)),
        model.next_flush_seq() == model.next_commit_seq + model.slots.len(),
{
}

/// Whether the entries of a memtable have to go to the WAL first.
pub proof fn law_wal_is_flushed_where_needed(
    model: PipelineModel,
    imm_memtable: ImmutableMemtable,
    last_remote_persisted_seq: u64,
)
    ensures
        model.needs_wal_flush(imm_memtable, last_remote_persisted_seq) <==> is_ahead_of_wal(
            model.wal_enabled,
            imm_memtable,
            last_remote_persisted_seq,
        ),
{
}

/// A flush that starts comes last, for the memtable that was prepared, in the place behind all
/// others, and the WAL holds its entries. It keeps what was said of its start. If the memtable could not be prepared, the run ends.
pub proof fn law_flush_starts(
    model: PipelineModel,
    result: Result<FlushStart, SlateDBError>,
    step: PipelineStep,
    next: PipelineModel,
)
    requires
        model.wf(),
        model.phase is Preparing,
        model.after_preparation(result, step, next),
    ensures
        match result {
            Ok(start) => {
                let imm_memtable = model.candidate->0;
                &&& !is_ahead_of_wal(
                    model.wal_enabled,
                    *imm_memtable,
                    start.last_remote_persisted_seq,
                )
                &&& step.effects@.len() == 0
                &&& step.action matches PipelineAction::Build { flush_seq, imm_memtable: builds }
                &&& flush_seq == model.next_commit_seq + model.slots.len()
                &&& builds == imm_memtable
                &&& next.slots.len() == model.slots.len() + 1
                &&& forall|i: int|
                    0 <= i < model.slots.len() ==> next.slots[i] == #[trigger] model.slots[i]
                &&& next.slots.last() matches FlushSlot::Building(pending)
                &&& pending.flush_seq == flush_seq
                &&& pending.imm_memtable == imm_memtable
                &&& pending.sst_id == start.sst_id
                &&& pending.flush_start_ms == start.flush_start_ms
                &&& pending.wal_wait_elapsed_ms == start.wal_wait_elapsed_ms
                &&& next.phase is Building
                &&& next.candidate is None
                &&& next.batch == model.batch
                &&& same_course(model, next)
            },
            Err(error) => run_ends(model, Err(error), step, next),
        },
{
}

/// Whether the run ends with a result, and nobody is told anything.
pub open spec fn run_ends(
    model: PipelineModel,
    result: Result<(), SlateDBError>,
    step: PipelineStep,
    next: PipelineModel,
) -> bool {
    &&& step.effects@.len() == 0
    &&& step.action == PipelineAction::Exit(result)
    &&& next.phase is Done
    &&& next.candidate is None
    &&& next.batch.len() == 0
    &&& next.slots == model.slots
    &&& same_course(model, next)
}

/// A run that ends because a task failed.
pub proof fn law_run_ends_with_its_error(
    model: PipelineModel,
    result: Result<(), SlateDBError>,
    step: PipelineStep,
    next: PipelineModel,
)
    requires
        model.exits(result, step, next),
    ensures
        run_ends(model, result, step, next),
{
}

/// A table that was built stays what it was, and waits for its upload; a table that was uploaded
/// keeps the place, memtable, id and times of its flush, takes what the upload says, and its sequence
/// number is that of its memtable. No other flush changes.
pub proof fn law_flush_makes_progress(
    model: PipelineModel,
    flush_seq: u64,
    upload: TableUpload,
    step: PipelineStep,
    next: PipelineModel,
)
    requires
        model.wf(),
        model.next_commit_seq <= flush_seq < model.next_commit_seq + model.slots.len(),
    ensures
        ({
            let place = flush_seq - model.next_commit_seq;
            let built = model.slots[place] is Building && model.after_build(flush_seq, step, next);
            let uploaded = model.slots[place] is Uploading && model.after_upload(
                flush_seq,
                upload,
                step,
                next,
            );
            &&& built || uploaded ==> {
                &&& step.effects@.len() == 0
                &&& step.action is Proceed
                &&& next.phase is Starting
                &&& next.slots.len() == model.slots.len()
                &&& forall|i: int|
                    0 <= i < model.slots.len() && i != place ==> #[trigger] next.slots[i]
                        == model.slots[i]
                &&& next.candidate == model.candidate
                &&& next.batch == model.batch
                &&& same_course(model, next)
            }
            &&& built ==> next.slots[place] == FlushSlot::Built(model.slots[place]->Building_0)
            &&& uploaded ==> {
                let pending = model.slots[place]->Uploading_0;
                &&& next.slots[place] matches FlushSlot::Uploaded(ready)
                &&& ready.flush_seq == flush_seq
                &&& ready.imm_memtable == pending.imm_memtable
                &&& ready.sst_id == pending.sst_id
                &&& ready.flush_start_ms == pending.flush_start_ms
                &&& ready.wal_wait_elapsed_ms == pending.wal_wait_elapsed_ms
                &&& ready.sst_handle == upload.sst_handle
                &&& ready.output_bytes == upload.output_bytes
                &&& ready.flush_stats == upload.flush_stats
                &&& pending.imm_memtable.last_seq matches Some(last_seq) ==> ready.last_seq
                    == last_seq
            }
        }),
{
    assert(crate::mem_table_flush::place_of(model.slots[flush_seq - model.next_commit_seq])
        == flush_seq);
}

/// Every memtable of a batch that was published is told that it has left the queue; then the
/// manifest is written. A batch that could not be published ends the run.
pub proof fn law_published_batch_is_told(
    model: PipelineModel,
    result: Result<(), SlateDBError>,
    step: PipelineStep,
    next: PipelineModel,
)
    requires
        model.after_publication(result, step, next),
    ensures
        match result {
            Ok(()) => {
                &&& step.effects@.len() == model.batch.len()
                &&& forall|i: int|
                    0 <= i < model.batch.len() ==> step.effects@[i]
                        == PipelineEffect::NotifyFlushedToL0((#[trigger] model.batch[i]).imm_memtable)
                &&& step.action is WriteManifest
                &&& next.phase is WritingManifest
                &&& next.batch == model.batch
                &&& next.slots == model.slots
                &&& next.candidate == model.candidate
                &&& same_course(model, next)
            },
            Err(error) => run_ends(model, Err(error), step, next),
        },
{
}

proof fn lemma_durable_by_index(batch: Seq<ReadyForCommit>)
    ensures
        crate::mem_table_flush::durable_effects(batch).len() == 2 * batch.len(),
        forall|i: int|
            0 <= i < batch.len() ==> crate::mem_table_flush::durable_effects(batch)[2 * i]
                == PipelineEffect::NotifyDurable((#[trigger] batch[i]).imm_memtable, Ok(()))
                && crate::mem_table_flush::durable_effects(batch)[2 * i + 1]
                == PipelineEffect::AdvanceDurableSeq(batch[i].last_seq),
    decreases batch.len(),
{
    if batch.len() > 0 {
        let fewer = batch.drop_last();
        lemma_durable_by_index(fewer);
        assert forall|i: int| 0 <= i < batch.len() implies crate::mem_table_flush::durable_effects(
            batch,
        )[2 * i] == PipelineEffect::NotifyDurable((#[trigger] batch[i]).imm_memtable, Ok(()))
            && crate::mem_table_flush::durable_effects(batch)[2 * i + 1]
            == PipelineEffect::AdvanceDurableSeq(batch[i].last_seq) by {
            if i < fewer.len() {
                assert(fewer[i] == batch[i]);
            }
        }
    }
}

/// Whether every memtable of the batch is told the error, each after its table was deleted if the
/// writer was fenced.
pub open spec fn batch_is_lost(
    batch: Seq<ReadyForCommit>,
    error: SlateDBError,
    effects: Seq<PipelineEffect>,
) -> bool {
    if error is Fenced {
        &&& effects.len() == 2 * batch.len()
        &&& forall|i: int|
            0 <= i < batch.len() ==> effects[2 * i] == PipelineEffect::DeleteSst(
                (#[trigger] batch[i]).sst_id,
            ) && effects[2 * i + 1] == PipelineEffect::NotifyDurable(
                batch[i].imm_memtable,
                Err(error),
            )
    } else {
        &&& effects.len() == batch.len()
        &&& forall|i: int|
            0 <= i < batch.len() ==> effects[i] == PipelineEffect::NotifyDurable(
                (#[trigger] batch[i]).imm_memtable,
                Err(error),
            )
    }
}

proof fn lemma_batch_is_lost(batch: Seq<ReadyForCommit>, error: SlateDBError)
    ensures
        batch_is_lost(batch, error, crate::mem_table_flush::failed_effects(batch, error)),
    decreases batch.len(),
{
    if batch.len() > 0 {
        let fewer = batch.drop_last();
        lemma_batch_is_lost(fewer, error);
        let effects = crate::mem_table_flush::failed_effects(batch, error);
        let earlier = crate::mem_table_flush::failed_effects(fewer, error);
        if error is Fenced {
            assert forall|i: int| 0 <= i < batch.len() implies effects[2 * i]
                == PipelineEffect::DeleteSst((#[trigger] batch[i]).sst_id) && effects[2 * i + 1]
                == PipelineEffect::NotifyDurable(batch[i].imm_memtable, Err(error)) by {
                if i < fewer.len() {
                    assert(fewer[i] == batch[i]);
                    assert(effects[2 * i] == earlier[2 * i]);
                    assert(effects[2 * i + 1] == earlier[2 * i + 1]);
                }
            }
        } else {
            assert forall|i: int| 0 <= i < batch.len() implies effects[i]
                == PipelineEffect::NotifyDurable((#[trigger] batch[i]).imm_memtable, Err(error)) by {
                if i < fewer.len() {
                    assert(fewer[i] == batch[i]);
                    assert(effects[i] == earlier[i]);
                }
            }
        }
    }
}

/// What follows a write of the manifest. Every memtable of a batch that is durable is told so, and
/// directly behind that the durable sequence number advances to that of its upload. A version that
/// another process wrote first is loaded. Any other error loses the batch; a fenced writer loads the
/// manifest before it gives up.
pub proof fn law_batch_after_a_write(
    model: PipelineModel,
    result: Result<(), SlateDBError>,
    step: PipelineStep,
    next: PipelineModel,
)
    requires
        model.after_write(result, step, next),
    ensures
        next.slots == model.slots,
        next.candidate == model.candidate,
        same_course(model, next),
        match result {
            Ok(()) => {
                &&& step.effects@.len() == 2 * model.batch.len()
                &&& forall|i: int|
                    0 <= i < model.batch.len() ==> step.effects@[2 * i]
                        == PipelineEffect::NotifyDurable(
                        (#[trigger] model.batch[i]).imm_memtable,
                        Ok(()),
                    ) && step.effects@[2 * i + 1] == PipelineEffect::AdvanceDurableSeq(
                        model.batch[i].last_seq,
                    )
                &&& step.action is Proceed
                &&& next.phase is Starting
                &&& next.batch.len() == 0
            },
            Err(SlateDBError::TransactionalObjectVersionExists) => {
                &&& step.effects@.len() == 0
                &&& step.action is LoadManifest
                &&& next.phase is ReloadingManifest
                &&& next.batch == model.batch
            },
            Err(error) => {
                &&& batch_is_lost(model.batch, error, step.effects@)
                &&& error is Fenced ==> step.action is LoadManifest && (
                next.phase is ReloadingFenced) && next.batch == model.batch
                &&& !(error is Fenced) ==> step.action == PipelineAction::Exit(Err(error)) && (
                next.phase is Done) && next.batch.len() == 0
            },
        },
{
    lemma_durable_by_index(model.batch);
    if let Err(error) = result {
        lemma_batch_is_lost(model.batch, error);
    }
}

/// What follows a load of the manifest: the same batch is written again; or the batch is lost
/// because the manifest could not be loaded; or a fenced writer gives up, with the error of the load
/// if that failed too.
pub proof fn law_batch_after_a_load(
    model: PipelineModel,
    result: Result<(), SlateDBError>,
    step: PipelineStep,
    next: PipelineModel,
)
    requires
        model.after_load(result, step, next),
    ensures
        model.phase is ReloadingManifest ==> {
            &&& next.slots == model.slots
            &&& next.candidate == model.candidate
            &&& same_course(model, next)
            &&& match result {
                Ok(()) => {
                    &&& step.effects@.len() == 0
                    &&& step.action is WriteManifest
                    &&& next.phase is WritingManifest
                    &&& next.batch == model.batch
                },
                Err(error) => {
                    &&& batch_is_lost(model.batch, error, step.effects@)
                    &&& error is Fenced ==> step.action is LoadManifest && (
                    next.phase is ReloadingFenced) && next.batch == model.batch
                    &&& !(error is Fenced) ==> step.action == PipelineAction::Exit(Err(error)) && (
                    next.phase is Done) && next.batch.len() == 0
                },
            }
        },
        model.phase is ReloadingFenced ==> run_ends(
            model,
            match result {
                Ok(()) => Err(SlateDBError::Fenced),
                Err(error) => Err(error),
            },
            step,
            next,
        ),
{
    if let Err(error) = result {
        lemma_batch_is_lost(model.batch, error);
    }
}

/// Whether a counter shows `n` more, modulo the size of a `u64`.
pub open spec fn counted(
    before: Seq<StatEntry>,
    after: Seq<StatEntry>,
    slot: int,
    n: u64,
) -> bool {
    &&& after[slot].value is Counter
    &&& after[slot].value->Counter_0 as int == (before[slot].value->Counter_0 + n)
        % 0x1_0000_0000_0000_0000
}

/// Whether a counter shows `n` more and a gauge shows `n`.
pub open spec fn counted_and_shown(
    before: Seq<StatEntry>,
    after: Seq<StatEntry>,
    counter: int,
    gauge: int,
    n: u64,
) -> bool {
    &&& counted(before, after, counter, n)
    &&& after[gauge].value == StatValue::GaugeU64(n)
}

/// Whether nothing but the values in some places has changed.
pub open spec fn changed_only(
    before: Seq<StatEntry>,
    after: Seq<StatEntry>,
    slots: Set<int>,
) -> bool {
    &&& after.len() == before.len()
    &&& forall|i: int| 0 <= i < before.len() ==> (#[trigger] after[i]).name == before[i].name
    &&& forall|i: int|
        0 <= i < before.len() && !slots.contains(i) ==> #[trigger] after[i] == before[i]
}

/// The times and sizes of a flush are each added to their own counter and shown by their own gauge,
/// and nothing else is recorded.
pub proof fn law_flush_is_recorded(
    entries: Seq<StatEntry>,
    stats: DbStats,
    base: int,
    ready: ReadyForCommit,
    publish_ms: u64,
)
    requires
        stats.registered_at(base),
        0 <= base,
        base + 67 <= entries.len(),
    ensures
        ({
            let after = crate::mem_table_flush::flush_recorded(entries, stats, ready, publish_ms);
            flush_shows(entries, after, stats, ready, publish_ms) && changed_only(
                entries,
                after,
                flush_places(stats),
            )
        }),
{
    lemma_flush_is_recorded(entries, stats, base, ready, publish_ms);
}

/// Whether the times and sizes of a flush are shown.
pub open spec fn flush_shows(
    before: Seq<StatEntry>,
    after: Seq<StatEntry>,
    stats: DbStats,
    ready: ReadyForCommit,
    publish_ms: u64,
) -> bool {
    &&& counted_and_shown(
        before,
        after,
        stats.l0_flush_iter_setup_ms@,
        stats.l0_flush_iter_setup_ms_last@,
        ready.flush_stats.iter_setup_ms,
    )
    &&& counted_and_shown(
        before,
        after,
        stats.l0_flush_row_loop_ms@,
        stats.l0_flush_row_loop_ms_last@,
        ready.flush_stats.row_loop_ms,
    )
    &&& counted_and_shown(
        before,
        after,
        stats.l0_flush_finish_block_ms@,
        stats.l0_flush_finish_block_ms_last@,
        ready.flush_stats.finish_block_ms,
    )
    &&& counted_and_shown(
        before,
        after,
        stats.l0_flush_footer_ms@,
        stats.l0_flush_footer_ms_last@,
        ready.flush_stats.footer_ms,
    )
    &&& counted_and_shown(
        before,
        after,
        stats.l0_flush_put_ms@,
        stats.l0_flush_put_ms_last@,
        ready.flush_stats.put_ms,
    )
    &&& counted_and_shown(
        before,
        after,
        stats.l0_flush_cache_ms@,
        stats.l0_flush_cache_ms_last@,
        ready.flush_stats.cache_ms,
    )
    &&& counted_and_shown(
        before,
        after,
        stats.l0_flush_output_bytes@,
        stats.l0_flush_output_bytes_last@,
        ready.output_bytes,
    )
    &&& counted_and_shown(
        before,
        after,
        stats.l0_flush_publish_ms@,
        stats.l0_flush_publish_ms_last@,
        publish_ms,
    )
}

/// The places of the statistics of one flush.
pub open spec fn flush_places(stats: DbStats) -> Set<int> {
    set![
        stats.l0_flush_iter_setup_ms@,
        stats.l0_flush_iter_setup_ms_last@,
        stats.l0_flush_row_loop_ms@,
        stats.l0_flush_row_loop_ms_last@,
        stats.l0_flush_finish_block_ms@,
        stats.l0_flush_finish_block_ms_last@,
        stats.l0_flush_footer_ms@,
        stats.l0_flush_footer_ms_last@,
        stats.l0_flush_put_ms@,
        stats.l0_flush_put_ms_last@,
        stats.l0_flush_cache_ms@,
        stats.l0_flush_cache_ms_last@,
        stats.l0_flush_output_bytes@,
        stats.l0_flush_output_bytes_last@,
        stats.l0_flush_publish_ms@,
        stats.l0_flush_publish_ms_last@,
    ]
}

#[verifier::rlimit(60)]
#[verifier::spinoff_prover]
proof fn lemma_flush_is_recorded(
    entries: Seq<StatEntry>,
    stats: DbStats,
    base: int,
    ready: ReadyForCommit,
    publish_ms: u64,
)
    requires
        stats.registered_at(base),
        0 <= base,
        base + 67 <= entries.len(),
    ensures
        flush_shows(
            entries,
            crate::mem_table_flush::flush_recorded(entries, stats, ready, publish_ms),
            stats,
            ready,
            publish_ms,
        ),
        changed_only(
            entries,
            crate::mem_table_flush::flush_recorded(entries, stats, ready, publish_ms),
            flush_places(stats),
        ),
{
}

/// A batch is recorded flush by flush: one more flush in it adds its times and sizes and counts one
/// memtable more. An empty batch records nothing.
pub proof fn law_batch_is_recorded(
    entries: Seq<StatEntry>,
    stats: DbStats,
    base: int,
    batch: Seq<ReadyForCommit>,
    ready: ReadyForCommit,
    publish_ms: u64,
)
    requires
        stats.registered_at(base),
        0 <= base,
        base + 67 <= entries.len(),
    ensures
        crate::mem_table_flush::batch_recorded(entries, stats, Seq::empty(), publish_ms)
            == entries,
        ({
            let before = crate::mem_table_flush::batch_recorded(
                entries,
                stats,
                batch,
                publish_ms,
            );
            let after = crate::mem_table_flush::batch_recorded(
                entries,
                stats,
                batch.push(ready),
                publish_ms,
            );
            &&& before.len() == entries.len()
            &&& flush_shows(before, after, stats, ready, publish_ms)
            &&& counted(before, after, stats.immutable_memtable_flushes@, 1)
            &&& changed_only(
                before,
                after,
                flush_places(stats).insert(stats.immutable_memtable_flushes@),
            )
        }),
{
    lemma_batch_keeps_len(entries, stats, base, batch, publish_ms);
    let before = crate::mem_table_flush::batch_recorded(entries, stats, batch, publish_ms);
    assert(batch.push(ready).drop_last() =~= batch);
    lemma_flush_is_recorded(before, stats, base, ready, publish_ms);
}

proof fn lemma_batch_keeps_len(
    entries: Seq<StatEntry>,
    stats: DbStats,
    base: int,
    batch: Seq<ReadyForCommit>,
    publish_ms: u64,
)
    requires
        stats.registered_at(base),
        0 <= base,
        base + 67 <= entries.len(),
    ensures
        crate::mem_table_flush::batch_recorded(entries, stats, batch, publish_ms).len()
            == entries.len(),
    decreases batch.len(),
{
    if batch.len() > 0 {
        lemma_batch_keeps_len(entries, stats, base, batch.drop_last(), publish_ms);
    }
}

/// A durable batch is recorded flush by flush: one more flush in it adds its share of the time for
/// the manifest, and the time since it started. An empty batch records nothing.
pub proof fn law_durable_batch_is_recorded(
    entries: Seq<StatEntry>,
    stats: DbStats,
    base: int,
    batch: Seq<ReadyForCommit>,
    ready: ReadyForCommit,
    manifest_ms: u64,
    now_ms: u64,
)
    requires
        stats.registered_at(base),
        0 <= base,
        base + 67 <= entries.len(),
    ensures
        crate::mem_table_flush::durable_recorded(
            entries,
            stats,
            Seq::empty(),
            manifest_ms,
            now_ms,
        ) == entries,
        ({
            let before = crate::mem_table_flush::durable_recorded(
                entries,
                stats,
                batch,
                manifest_ms,
                now_ms,
            );
            let after = crate::mem_table_flush::durable_recorded(
                entries,
                stats,
                batch.push(ready),
                manifest_ms,
                now_ms,
            );
            &&& before.len() == entries.len()
            &&& counted_and_shown(
                before,
                after,
                stats.l0_flush_manifest_ms@,
                stats.l0_flush_manifest_ms_last@,
                manifest_ms,
            )
            &&& now_ms >= ready.flush_start_ms ==> counted_and_shown(
                before,
                after,
                stats.l0_flush_total_ms@,
                stats.l0_flush_total_ms_last@,
                (now_ms - ready.flush_start_ms) as u64,
            )
            &&& now_ms < ready.flush_start_ms ==> counted_and_shown(
                before,
                after,
                stats.l0_flush_total_ms@,
                stats.l0_flush_total_ms_last@,
                0,
            )
            &&& changed_only(
                before,
                after,
                set![
                    stats.l0_flush_manifest_ms@,
                    stats.l0_flush_manifest_ms_last@,
                    stats.l0_flush_total_ms@,
                    stats.l0_flush_total_ms_last@,
                ],
            )
        }),
{
    lemma_durable_keeps_len(entries, stats, base, batch, manifest_ms, now_ms);
    assert(batch.push(ready).drop_last() =~= batch);
}

proof fn lemma_durable_keeps_len(
    entries: Seq<StatEntry>,
    stats: DbStats,
    base: int,
    batch: Seq<ReadyForCommit>,
    manifest_ms: u64,
    now_ms: u64,
)
    requires
        stats.registered_at(base),
        0 <= base,
        base + 67 <= entries.len(),
    ensures
        crate::mem_table_flush::durable_recorded(entries, stats, batch, manifest_ms, now_ms).len()
            == entries.len(),
    decreases batch.len(),
{
    if batch.len() > 0 {
        lemma_durable_keeps_len(entries, stats, base, batch.drop_last(), manifest_ms, now_ms);
    }
}

/// The stages show how many flushes are in each of them, and nothing else is recorded.
pub proof fn law_stages_are_shown(
    entries: Seq<StatEntry>,
    stats: DbStats,
    base: int,
    slots: Seq<FlushSlot>,
)
    requires
        stats.registered_at(base),
        0 <= base,
        base + 67 <= entries.len(),
        slots.len() <= i64::MAX,
    ensures
        ({
            let after = crate::mem_table_flush::stages_shown(entries, stats, slots);
            &&& after[stats.l0_flush_build_inflight@].value matches StatValue::GaugeI64(building)
            &&& building == slots.filter(|slot: FlushSlot| slot is Building).len()
            &&& after[stats.l0_flush_built_ready@].value matches StatValue::GaugeI64(built)
            &&& built == slots.filter(|slot: FlushSlot| slot is Built).len()
            &&& after[stats.l0_flush_upload_inflight@].value matches StatValue::GaugeI64(uploading)
            &&& uploading == slots.filter(|slot: FlushSlot| slot is Uploading).len()
            &&& after[stats.l0_flush_uploaded_ready@].value matches StatValue::GaugeI64(uploaded)
            &&& uploaded == slots.filter(|slot: FlushSlot| slot is Uploaded).len()
            &&& changed_only(
                entries,
                after,
                set![
                    stats.l0_flush_build_inflight@,
                    stats.l0_flush_built_ready@,
                    stats.l0_flush_upload_inflight@,
                    stats.l0_flush_uploaded_ready@,
                ],
            )
        }),
{
    lemma_counts(slots);
    lemma_counts_fit(slots);
}

proof fn lemma_counts_fit(slots: Seq<FlushSlot>)
    ensures
        crate::mem_table_flush::count_building(slots) <= slots.len(),
        crate::mem_table_flush::count_uploading(slots) <= slots.len(),
        crate::mem_table_flush::count_built(slots) <= slots.len(),
        crate::mem_table_flush::count_uploaded(slots) <= slots.len(),
    decreases slots.len(),
{
    if slots.len() > 0 {
        lemma_counts_fit(slots.drop_last());
    }
}

/// The size of a batch whose turn has come is shown; without one nothing is.
pub proof fn law_batch_size_is_shown(
    entries: Seq<StatEntry>,
    stats: DbStats,
    slots: Seq<FlushSlot>,
    n: int,
)
    requires
        0 <= stats.l0_flush_commit_batch_size_last@ < entries.len(),
        slots.len() <= u64::MAX,
        is_uploaded_through(slots, n),
    ensures
        ({
            let after = crate::mem_table_flush::batch_size_shown(entries, stats, slots);
            &&& n == 0 ==> after == entries
            &&& n > 0 ==> {
                &&& after[stats.l0_flush_commit_batch_size_last@].value matches StatValue::GaugeU64(
                    size,
                )
                &&& size == n
                &&& changed_only(
                    entries,
                    after,
                    set![stats.l0_flush_commit_batch_size_last@],
                )
            }
        }),
{
    lemma_uploaded_through(slots, n);
}

/// The rows of a memtable are shown, and its bytes are counted and shown.
pub proof fn law_input_is_recorded(
    entries: Seq<StatEntry>,
    stats: DbStats,
    base: int,
    imm_memtable: ImmutableMemtable,
)
    requires
        stats.registered_at(base),
        0 <= base,
        base + 67 <= entries.len(),
    ensures
        ({
            let after = crate::mem_table_flush::input_recorded(entries, stats, imm_memtable);
            &&& after[stats.l0_flush_input_rows_last@].value == StatValue::GaugeU64(
                imm_memtable.entry_num,
            )
            &&& counted_and_shown(
                entries,
                after,
                stats.l0_flush_input_bytes@,
                stats.l0_flush_input_bytes_last@,
                imm_memtable.entries_size_in_bytes,
            )
            &&& changed_only(
                entries,
                after,
                set![
                    stats.l0_flush_input_rows_last@,
                    stats.l0_flush_input_bytes@,
                    stats.l0_flush_input_bytes_last@,
                ],
            )
        }),
{
}

/// A step that starts a build records the memtable that it is for; one that starts an upload records
/// nothing; one that commits shows the size of the batch. A new round shows the stages first.
pub proof fn law_advance_is_recorded(
    model: PipelineModel,
    l0_len: nat,
    frozen: Seq<Arc<ImmutableMemtable>>,
    stats: DbStats,
    entries: Seq<StatEntry>,
    first: int,
)
    ensures
        ({
            let after = model.advance_recorded(l0_len, frozen, stats, entries);
            let begun = if model.phase is Starting {
                crate::mem_table_flush::stages_shown(entries, stats, model.slots)
            } else {
                entries
            };
            let builds = has_room_to_build(model, l0_len, frozen);
            let none_uploading = forall|i: int|
                0 <= i < model.slots.len() ==> !(#[trigger] model.slots[i] is Uploading);
            let none_built = forall|i: int|
                0 <= i < model.slots.len() ==> !(#[trigger] model.slots[i] is Built);
            &&& builds ==> after == crate::mem_table_flush::input_recorded(
                begun,
                stats,
                *frozen[frozen.len() - 1 - model.slots.len()],
            )
            &&& !builds && none_uploading && is_first_built(model.slots, first) ==> after == begun
            &&& !builds && (!none_uploading || none_built) ==> after
                == crate::mem_table_flush::batch_size_shown(begun, stats, model.slots)
        }),
{
    lemma_counts(model.slots);
    if is_first_built(model.slots, first) {
        lemma_first_built(model.slots, first);
    }
    if forall|i: int| 0 <= i < model.slots.len() ==> !(#[trigger] model.slots[i] is Built) {
        lemma_none_built(model.slots);
    }
}

/// A time that is recorded is added to its counter and shown by its gauge.
pub proof fn law_times_are_counted_and_shown(
    entries: Seq<StatEntry>,
    counter: crate::stats::StatCounter,
    gauge: crate::stats::Gauge,
    value: u64,
)
    requires
        0 <= counter@ < entries.len(),
        0 <= gauge@ < entries.len(),
        counter@ != gauge@,
    ensures
        ({
            let after = crate::mem_table_flush::observed(entries, counter, gauge, value);
            &&& counted_and_shown(entries, after, counter@, gauge@, value)
            &&& changed_only(entries, after, set![counter@, gauge@])
        }),
{
}

/// The shares of a batch add up to no more than the time that was spent on it, and less than one
/// millisecond for each flush is lost. No time is negative: a clock that went back shows none.
pub proof fn law_shares_add_up(elapsed_ms: u64, batch_len: nat, start_ms: u64, now_ms: u64)
    ensures
        batch_len > 0 ==> {
            let share = crate::mem_table_flush::share(elapsed_ms, batch_len) as int;
            share * batch_len <= elapsed_ms < (share + 1) * batch_len
        },
        start_ms <= now_ms ==> start_ms + crate::mem_table_flush::elapsed_since(start_ms, now_ms)
            == now_ms,
        now_ms < start_ms ==> crate::mem_table_flush::elapsed_since(start_ms, now_ms) == 0,
{
    if batch_len > 0 {
        let elapsed = elapsed_ms as int;
        let n = batch_len as int;
        let q = elapsed / n;
        assert(q * n <= elapsed < (q + 1) * n && 0 <= q <= elapsed) by (nonlinear_arith)
            requires
                n > 0,
                elapsed >= 0,
                q == elapsed / n,
        ;
    }
}

/// A request that the task did not get to is told the error on its own channel, in the order in
/// which the requests came. Nobody waits for a poll of the manifest, or for a flush without a
/// sender.
pub proof fn law_requests_left_over_are_told(
    messages: Seq<MemtableFlushMsg>,
    message: MemtableFlushMsg,
    error: SlateDBError,
)
    ensures
        crate::mem_table_flush::shutdown_replies(Seq::empty(), error).len() == 0,
        ({
            let before = crate::mem_table_flush::shutdown_replies(messages, error);
            let after = crate::mem_table_flush::shutdown_replies(messages.push(message), error);
            match message {
                MemtableFlushMsg::PollManifest => after == before,
                MemtableFlushMsg::FlushImmutableMemtables { sender: None } => after == before,
                MemtableFlushMsg::FlushImmutableMemtables { sender: Some(sender) } => after
                    == before.push(MemtableFlushReply::Flush(sender, Err(error))),
                MemtableFlushMsg::CreateCheckpoint { options: _, sender } => after == before.push(
                    MemtableFlushReply::Checkpoint(sender, Err(error)),
                ),
            }
        }),
{
    assert(messages.push(message).drop_last() =~= messages);
    let before = crate::mem_table_flush::shutdown_replies(messages, error);
    let after = crate::mem_table_flush::shutdown_replies(messages.push(message), error);
    match message {
        MemtableFlushMsg::FlushImmutableMemtables { sender: Some(sender) } => {
            assert(after =~= before.push(MemtableFlushReply::Flush(sender, Err(error))));
        },
        MemtableFlushMsg::CreateCheckpoint { options: _, sender } => {
            assert(after =~= before.push(MemtableFlushReply::Checkpoint(sender, Err(error))));
        },
        _ => {
            assert(after =~= before);
        },
    }
}

/// What is said at the end: a task that ended well is closed, and one that failed keeps its error.
/// The result of a checkpoint is that of the task, without its value. The end itself never fails.
pub proof fn law_end_of_the_task(
    result: Result<(), SlateDBError>,
    checkpoint: Result<CheckpointCreateResult, SlateDBError>,
    frozen: Seq<Arc<ImmutableMemtable>>,
    error: SlateDBError,
    step: CleanupStep,
)
    ensures
        result is Ok ==> crate::mem_table_flush::shutdown_error(result) == SlateDBError::Closed,
        result matches Err(failure) ==> crate::mem_table_flush::shutdown_error(result) == failure,
        checkpoint is Ok ==> crate::mem_table_flush::outcome_of(checkpoint) == Ok::<
            (),
            SlateDBError,
        >(()),
        checkpoint matches Err(failure) ==> crate::mem_table_flush::outcome_of(checkpoint) == Err::<
            (),
            SlateDBError,
        >(failure),
        crate::mem_table_flush::ends_with(frozen, error, step) ==> {
            &&& step.replies@.len() == 0
            &&& step.notices@ == crate::db_state::shutdown_notices_of(frozen, error)
            &&& step.action == CleanupAction::Done(Ok(()))
        },
{
}

/// Two tables are built at a time and one is uploaded.
pub proof fn law_pipeline_is_bounded(model: PipelineModel)
    requires
        model.wf(),
    ensures
        model.slots.filter(|slot: FlushSlot| slot is Building).len() <= 2,
        model.slots.filter(|slot: FlushSlot| slot is Uploading).len() <= 1,
        crate::mem_table_flush::MAX_BUILD_IN_FLIGHT == 2,
        crate::mem_table_flush::MAX_UPLOAD_IN_FLIGHT == 1,
{
    lemma_counts(model.slots);
}

/// The task has a name of its own.
pub proof fn law_task_has_its_name()
    ensures
        crate::mem_table_flush::MEMTABLE_FLUSHER_TASK_NAME@ == "memtable_writer"@,
{
}

} // verus!
