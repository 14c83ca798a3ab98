//! The shared append state: a slot counter from which the bucket, the metric and the time of every
//! sample derive.
use vstd::prelude::*;

verus! {

/// The append state as a mathematical value.
pub ghost struct FrontierModel {
    /// The slot that the next sample gets.
    pub next_slot: u64,
    /// How many samples fill a bucket.
    pub samples_per_bucket: u64,
    pub num_metrics: u32,
    /// The length of every value.
    pub val_len: usize,
}

/// The bucket, the metric and the time of the sample in a slot.
pub open spec fn sample_at(slot: u64, samples_per_bucket: u64, num_metrics: u32) -> (
    u64,
    u32,
    u64,
) {
    let idx = slot as int % samples_per_bucket as int;
    (
        (slot as int / samples_per_bucket as int) as u64,
        (idx % num_metrics as int) as u32,
        (idx / num_metrics as int) as u64,
    )
}

impl FrontierModel {
    /// Whether samples can be derived at all.
    pub open spec fn wf(self) -> bool {
        self.samples_per_bucket > 0 && self.num_metrics > 0
    }

    /// The bucket that receives writes.
    pub open spec fn active_bucket(self) -> u64 {
        (self.next_slot as int / self.samples_per_bucket as int) as u64
    }
}

/// The append state.
///
/// A single slot counter advances with every sample. The bucket advances on its own once it is
/// full, and readers learn the newest bucket from the counter.
#[derive(Debug)]
pub struct Frontier {
    next_slot: u64,
    samples_per_bucket: u64,
    num_metrics: u32,
    val_len: usize,
}

impl View for Frontier {
    type V = FrontierModel;

    closed spec fn view(&self) -> FrontierModel {
        FrontierModel {
            next_slot: self.next_slot,
            samples_per_bucket: self.samples_per_bucket,
            num_metrics: self.num_metrics,
            val_len: self.val_len,
        }
    }
}

impl Frontier {
    /// The state before the first sample. A bucket is full once `bucket_bytes` of values are in it,
    /// and holds at least one sample.
    pub fn new(bucket_bytes: u64, val_len: usize, num_metrics: u32) -> (frontier: Self)
        requires
            val_len > 0,
            num_metrics > 0,
        ensures
            frontier@.wf(),
            frontier@ == (FrontierModel {
                next_slot: 0,
                samples_per_bucket: if bucket_bytes < val_len {
                    1
                } else {
                    (bucket_bytes as int / val_len as int) as u64
                },
                num_metrics,
                val_len,
            }),
            frontier@.samples_per_bucket == 1 || frontier@.samples_per_bucket * val_len
                <= bucket_bytes,
            bucket_bytes < (frontier@.samples_per_bucket + 1) * val_len,
    {
        let whole = bucket_bytes / val_len as u64;
        let samples_per_bucket = if whole > 1 {
            whole
        } else {
            1
        };
        proof {
            if bucket_bytes < val_len {
                vstd::arithmetic::div_mod::lemma_basic_div(bucket_bytes as int, val_len as int);
            } else {
                vstd::arithmetic::div_mod::lemma_div_non_zero(bucket_bytes as int, val_len as int);
            }
        }
        proof {
            let (b, v) = (bucket_bytes as int, val_len as int);
            vstd::arithmetic::div_mod::lemma_fundamental_div_mod(b, v);
            vstd::arithmetic::div_mod::lemma_mod_bound(b, v);
            assert((b / v) * v == v * (b / v)) by (nonlinear_arith);
            assert((b / v + 1) * v == v * (b / v) + v) by (nonlinear_arith);
        }
        Frontier { next_slot: 0, samples_per_bucket, num_metrics, val_len }
    }

    /// Claims the next slot, and returns the bucket, the metric and the time of its sample. The
    /// counter wraps around.
    pub fn claim(&mut self) -> (sample: (u64, u32, u64))
        requires
            old(self)@.wf(),
        ensures
            final(self)@.wf(),
            sample == sample_at(
                old(self)@.next_slot,
                old(self)@.samples_per_bucket,
                old(self)@.num_metrics,
            ),
            sample.1 < old(self)@.num_metrics,
            final(self)@ == (FrontierModel {
                next_slot: vstd::wrapping::u64_specs::wrapping_add(old(self)@.next_slot, 1),
                ..old(self)@
            }),
    {
        let slot = self.next_slot;
        self.next_slot = slot.wrapping_add(1);
        let bucket = slot / self.samples_per_bucket;
        let idx = slot % self.samples_per_bucket;
        let metric = (idx % self.num_metrics as u64) as u32;
        let ts = idx / self.num_metrics as u64;
        (bucket, metric, ts)
    }

    /// The slot that the next sample gets.
    pub fn next_slot(&self) -> (slot: u64)
        ensures
            slot == self@.next_slot,
    {
        self.next_slot
    }

    /// The newest bucket, which receives writes.
    pub fn active_bucket(&self) -> (bucket: u64)
        requires
            self@.wf(),
        ensures
            bucket == self@.active_bucket(),
    {
        self.next_slot / self.samples_per_bucket
    }

    /// How many bytes of values were written.
    pub fn bytes_written(&self) -> (bytes: u64)
        requires
            self@.next_slot * self@.val_len <= u64::MAX,
        ensures
            bytes == self@.next_slot * self@.val_len,
    {
        self.next_slot * self.val_len as u64
    }
}

/// No two slots hold the same sample, so that nothing that was written is overwritten.
pub proof fn law_slots_hold_distinct_samples(
    a: u64,
    b: u64,
    samples_per_bucket: u64,
    num_metrics: u32,
)
    requires
        samples_per_bucket > 0,
        num_metrics > 0,
        sample_at(a, samples_per_bucket, num_metrics) == sample_at(
            b,
            samples_per_bucket,
            num_metrics,
        ),
    ensures
        a == b,
{
    lemma_slot(a, samples_per_bucket, num_metrics);
    lemma_slot(b, samples_per_bucket, num_metrics);
}

/// The slot can be computed back from its sample.
proof fn lemma_slot(slot: u64, samples_per_bucket: u64, num_metrics: u32)
    requires
        samples_per_bucket > 0,
        num_metrics > 0,
    ensures
        ({
            let (bucket, metric, ts) = sample_at(slot, samples_per_bucket, num_metrics);
            slot == samples_per_bucket * bucket + (num_metrics * ts + metric)
        }),
{
    let (s, n) = (samples_per_bucket as int, num_metrics as int);
    let idx = slot as int % s;
    vstd::arithmetic::div_mod::lemma_fundamental_div_mod(slot as int, s);
    vstd::arithmetic::div_mod::lemma_fundamental_div_mod(idx, n);
    vstd::arithmetic::div_mod::lemma_mod_bound(slot as int, s);
    vstd::arithmetic::div_mod::lemma_mod_bound(idx, n);
    vstd::arithmetic::div_mod::lemma_div_pos_is_pos(slot as int, s);
    vstd::arithmetic::div_mod::lemma_div_pos_is_pos(idx, n);
    vstd::arithmetic::div_mod::lemma_div_is_ordered_by_denominator(slot as int, 1, s);
    vstd::arithmetic::div_mod::lemma_div_is_ordered_by_denominator(idx, 1, n);
}

/// The bucket never goes back, and advances by one with every `samples_per_bucket` samples.
pub proof fn law_bucket_advances_when_full(
    slot: u64,
    later: u64,
    samples_per_bucket: u64,
    num_metrics: u32,
)
    requires
        samples_per_bucket > 0,
        slot <= later,
    ensures
        sample_at(slot, samples_per_bucket, num_metrics).0 <= sample_at(
            later,
            samples_per_bucket,
            num_metrics,
        ).0,
        later == slot + samples_per_bucket ==> sample_at(later, samples_per_bucket, num_metrics).0
            == sample_at(slot, samples_per_bucket, num_metrics).0 + 1,
{
    let s = samples_per_bucket as int;
    vstd::arithmetic::div_mod::lemma_div_is_ordered(slot as int, later as int, s);
    vstd::arithmetic::div_mod::lemma_div_is_ordered_by_denominator(later as int, 1, s);
    vstd::arithmetic::div_mod::lemma_div_pos_is_pos(slot as int, s);
    if later == slot + samples_per_bucket {
        vstd::arithmetic::div_mod::lemma_div_plus_one(slot as int, s);
    }
}

/// A slot is made up of its sample: whole buckets come first, then whole rounds over all metrics,
/// then the metric. The rest of the slot stays within its bucket, and the metric is one of those
/// that there are.
pub proof fn law_slot_is_made_up_of_its_sample(
    slot: u64,
    samples_per_bucket: u64,
    num_metrics: u32,
)
    requires
        samples_per_bucket > 0,
        num_metrics > 0,
    ensures
        ({
            let (bucket, metric, ts) = sample_at(slot, samples_per_bucket, num_metrics);
            &&& slot == samples_per_bucket * bucket + (num_metrics * ts + metric)
            &&& num_metrics * ts + metric < samples_per_bucket
            &&& metric < num_metrics
        }),
{
    lemma_slot(slot, samples_per_bucket, num_metrics);
    let (s, n) = (samples_per_bucket as int, num_metrics as int);
    let idx = slot as int % s;
    vstd::arithmetic::div_mod::lemma_fundamental_div_mod(slot as int, s);
    vstd::arithmetic::div_mod::lemma_fundamental_div_mod(idx, n);
    vstd::arithmetic::div_mod::lemma_mod_bound(slot as int, s);
    vstd::arithmetic::div_mod::lemma_mod_bound(idx, n);
    vstd::arithmetic::div_mod::lemma_div_pos_is_pos(slot as int, s);
    vstd::arithmetic::div_mod::lemma_div_pos_is_pos(idx, n);
    vstd::arithmetic::div_mod::lemma_div_is_ordered_by_denominator(slot as int, 1, s);
    vstd::arithmetic::div_mod::lemma_div_is_ordered_by_denominator(idx, 1, n);
}

/// The active bucket is the one of the next sample: all buckets before it are full, and it is not.
pub proof fn law_active_bucket_is_not_full(frontier: FrontierModel)
    requires
        frontier.wf(),
    ensures
        frontier.active_bucket() == sample_at(
            frontier.next_slot,
            frontier.samples_per_bucket,
            frontier.num_metrics,
        ).0,
        frontier.samples_per_bucket * frontier.active_bucket() <= frontier.next_slot,
        frontier.next_slot < frontier.samples_per_bucket * frontier.active_bucket()
            + frontier.samples_per_bucket,
{
    law_slot_is_made_up_of_its_sample(
        frontier.next_slot,
        frontier.samples_per_bucket,
        frontier.num_metrics,
    );
    assert(frontier.num_metrics as int * sample_at(
        frontier.next_slot,
        frontier.samples_per_bucket,
        frontier.num_metrics,
    ).2 >= 0) by (nonlinear_arith)
        requires
            frontier.num_metrics >= 0,
            sample_at(
                frontier.next_slot,
                frontier.samples_per_bucket,
                frontier.num_metrics,
            ).2 >= 0,
    ;
}

} // verus!
