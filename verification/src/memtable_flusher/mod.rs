//! Parallel flushing of frozen memtables to level 0.
//!
//! The flusher decides which memtable is uploaded next and answers flush requests; the sequencer
//! puts uploads back into order and writes the manifest. Both are state machines: a method takes
//! what happened outside and returns what has to be done outside next.
use vstd::multiset::Multiset;
use vstd::prelude::*;

pub mod flusher;
pub mod flusher_laws;
pub mod intake;
pub mod sequencer;
pub mod sequencer_laws;

verus! {

/// Ordering token that the flusher gives to a memtable.
///
/// Uploads carry it, so that the sequencer can restore the order in which memtables were frozen.
#[derive(Debug, Clone, Copy, PartialEq, Eq, PartialOrd, Ord, Hash, Structural)]
pub struct FlushEpoch(pub u64);

/// The place to which the reply to one request goes.
#[derive(Debug, Clone, Copy, PartialEq, Eq, Structural)]
pub struct ReplyHandle(pub u64);

/// Two stretches of a run that lose no request and answer none twice make up one that does not
/// either.
pub proof fn lemma_replies_chain(
    first: Multiset<ReplyHandle>,
    old_in: Multiset<ReplyHandle>,
    old_out: Multiset<ReplyHandle>,
    middle: Multiset<ReplyHandle>,
    new_in: Multiset<ReplyHandle>,
    new_out: Multiset<ReplyHandle>,
    last: Multiset<ReplyHandle>,
)
    requires
        first.add(old_in) == old_out.add(middle),
        middle.add(new_in) == new_out.add(last),
    ensures
        first.add(old_in.add(new_in)) == old_out.add(new_out).add(last),
{
    assert(first.add(old_in).add(new_in) =~= first.add(old_in.add(new_in)));
    assert(old_out.add(middle).add(new_in) =~= old_out.add(middle.add(new_in)));
    assert(old_out.add(new_out.add(last)) =~= old_out.add(new_out).add(last));
}

/// The two halves of the pipeline fit together. Suppose that every upload in a batch is the one of
/// the memtable that the orchestrator tracks under its epoch, and that the tracked memtables from
/// the first epoch of the batch on are the oldest frozen ones. Then the tables of the batch are
/// those of the oldest frozen memtables, from the oldest on.
pub proof fn law_batches_are_the_oldest_memtables(
    flusher: flusher::FlusherModel,
    sequencer: sequencer::SequencerModel,
    frozen: Seq<std::sync::Arc<crate::db_state::ImmutableMemtable>>,
)
    requires
        flusher.wf(),
        sequencer.wf(),
        sequencer.phase is Retiring,
        ({
            let first = sequencer.next_epoch - sequencer.batch.len();
            let gone = first - (flusher.next_epoch - flusher.live.len());
            &&& 0 <= gone
            &&& gone + sequencer.batch.len() <= flusher.live.len() <= gone + frozen.len()
            &&& forall|i: int|
                0 <= i < sequencer.batch.len() ==> (#[trigger] sequencer.batch[i]).imm_memtable
                    == flusher.live[gone + i].imm_memtable
            &&& forall|i: int|
                gone <= i < flusher.live.len() ==> (#[trigger] flusher.live[i]).imm_memtable
                    == frozen[frozen.len() - 1 - (i - gone)]
        }),
    ensures
        ({
            let tables = sequencer::flushed_tables(sequencer.batch);
            &&& tables.len() <= frozen.len()
            &&& forall|i: int|
                0 <= i < tables.len() ==> (#[trigger] tables[i]).imm_memtable.id
                    == frozen[frozen.len() - 1 - i].id
        }),
{
    let gone = sequencer.next_epoch - sequencer.batch.len() - (flusher.next_epoch
        - flusher.live.len());
    let tables = sequencer::flushed_tables(sequencer.batch);
    assert forall|i: int| 0 <= i < tables.len() implies (#[trigger] tables[i]).imm_memtable.id
        == frozen[frozen.len() - 1 - i].id by {
        assert(tables[i].imm_memtable == sequencer.batch[i].imm_memtable);
        assert(flusher.live[gone + i].imm_memtable == frozen[frozen.len() - 1 - i]);
    }
}

} // verus!
