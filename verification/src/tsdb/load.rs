//! What the writer and the readers of the load do next.
use super::frontier::Frontier;
use super::keys::{encode_key, encode_prefix};
use bytes::Bytes;
use rand::{Rng, RngCore};
use rand_xorshift::XorShiftRng;
use vstd::prelude::*;

verus! {

/// The type `rand_xorshift::XorShiftRng`.
#[verifier::external_type_specification]
#[verifier::external_body]
pub struct ExXorShiftRng(rand_xorshift::XorShiftRng);

/// `<XorShiftRng as Rng>::random_range`: some number of a range that is not empty. Which one is left
/// to chance.
#[verifier::external_body]
fn random_range(rng: &mut XorShiftRng, lo: u64, hi: u64) -> (number: u64)
    requires
        lo <= hi,
    ensures
        lo <= number <= hi,
{
    rng.random_range(lo..=hi)
}

/// `<XorShiftRng as RngCore>::fill_bytes`: every byte is replaced by one that is left to chance.
#[verifier::external_body]
fn fill_bytes(rng: &mut XorShiftRng, bytes: &mut Vec<u8>)
    ensures
        final(bytes)@.len() == old(bytes)@.len(),
{
    rng.fill_bytes(bytes.as_mut_slice())
}

/// A value of so many bytes, to be filled later.
pub fn new_value(val_len: usize) -> (value: Vec<u8>)
    ensures
        value@ == Seq::new(val_len as nat, |i: int| 0u8),
{
    let mut value: Vec<u8> = Vec::new();
    while value.len() < val_len
        invariant
            value@.len() <= val_len,
            forall|i: int| 0 <= i < value@.len() ==> value@[i] == 0,
        decreases val_len - value@.len(),
    {
        value.push(0);
    }
    assert(value@ =~= Seq::new(val_len as nat, |i: int| 0u8));
    value
}

/// The next put of the writer: claims a slot, fills the value and returns the key of the slot.
pub fn next_put(frontier: &mut Frontier, rng: &mut XorShiftRng, value: &mut Vec<u8>) -> (key: Bytes)
    requires
        old(frontier)@.wf(),
    ensures
        final(frontier)@.wf(),
        final(frontier)@ == (super::frontier::FrontierModel {
            next_slot: vstd::wrapping::u64_specs::wrapping_add(old(frontier)@.next_slot, 1),
            ..old(frontier)@
        }),
        ({
            let sample = super::frontier::sample_at(
                old(frontier)@.next_slot,
                old(frontier)@.samples_per_bucket,
                old(frontier)@.num_metrics,
            );
            crate::key_order::bytes_view(key) == super::keys::key_bytes(
                sample.0,
                sample.1,
                sample.2,
            )
        }),
        final(value)@.len() == old(value)@.len(),
{
    let (bucket, metric, ts) = frontier.claim();
    fill_bytes(rng, value);
    encode_key(bucket, metric, ts)
}

/// The sealed buckets that readers look at.
#[derive(Debug, Clone, Copy, PartialEq, Eq, Structural)]
pub struct ScanWindow {
    /// The oldest bucket.
    pub lo: u64,
    /// The newest bucket.
    pub hi: u64,
}

/// The sealed buckets that readers look at: the `window_buckets` buckets before the active one, or
/// as many as there are.
pub open spec fn window_before(active: u64, window_buckets: u64) -> ScanWindow {
    ScanWindow {
        lo: if active < window_buckets {
            0
        } else {
            (active - window_buckets) as u64
        },
        hi: (active - 1) as u64,
    }
}

/// The sealed buckets that readers look at, once the frontier is far enough.
pub fn scan_window(active: u64, window_buckets: u64) -> (window: Option<ScanWindow>)
    requires
        window_buckets > 0,
    ensures
        window == (if active < 2 {
            None
        } else {
            Some(window_before(active, window_buckets))
        }),
{
    if active < 2 {
        return None;
    }
    let hi = active - 1;
    let lo = if hi < window_buckets - 1 {
        0
    } else {
        hi - (window_buckets - 1)
    };
    Some(ScanWindow { lo, hi })
}

/// The metric of a sample from `1..=num_metrics`; samples out of that range count as its ends.
pub fn pick_metric(sample: u32, num_metrics: u32) -> (metric: u32)
    requires
        num_metrics > 0,
    ensures
        metric == (if sample == 0 {
            0
        } else if sample > num_metrics {
            num_metrics - 1
        } else {
            sample - 1
        }),
        metric < num_metrics,
{
    if sample == 0 {
        0
    } else if sample > num_metrics {
        num_metrics - 1
    } else {
        sample - 1
    }
}

/// A scan of one metric in one bucket.
#[derive(Debug)]
pub struct ScanPlan {
    pub bucket: u64,
    pub metric: u32,
    /// The first key that the scan may return.
    pub start: Bytes,
    /// The first key behind those that the scan may return.
    pub end: Bytes,
}

impl ScanPlan {
    /// Whether the plan covers one metric in one bucket.
    pub open spec fn covers(self, bucket: u64, metric: u32) -> bool {
        &&& self.bucket == bucket
        &&& self.metric == metric
        &&& crate::key_order::bytes_view(self.start) == super::keys::prefix_bytes(bucket, metric)
        &&& crate::key_order::bytes_view(self.end) == super::keys::prefix_bytes(
            bucket,
            (metric + 1) as u32,
        )
    }
}

/// The scan of one metric in one bucket.
pub fn plan_scan(bucket: u64, metric: u32) -> (plan: ScanPlan)
    requires
        metric < u32::MAX,
    ensures
        plan.covers(bucket, metric),
{
    ScanPlan {
        bucket,
        metric,
        start: encode_prefix(bucket, metric),
        end: encode_prefix(bucket, metric + 1),
    }
}

/// The next scan of a reader, once the frontier is far enough: some bucket of the window, and the
/// metric that was drawn.
pub fn next_scan(
    active: u64,
    window_buckets: u64,
    metric_sample: u32,
    num_metrics: u32,
    rng: &mut XorShiftRng,
) -> (plan: Option<ScanPlan>)
    requires
        window_buckets > 0,
        num_metrics > 0,
    ensures
        plan is None <==> active < 2,
        plan matches Some(plan) ==> {
            let window = window_before(active, window_buckets);
            &&& window.lo <= plan.bucket <= window.hi
            &&& plan.covers(
                plan.bucket,
                if metric_sample == 0 {
                    0
                } else if metric_sample > num_metrics {
                    (num_metrics - 1) as u32
                } else {
                    (metric_sample - 1) as u32
                },
            )
        },
{
    match scan_window(active, window_buckets) {
        None => None,
        Some(window) => {
            let bucket = random_range(rng, window.lo, window.hi);
            let metric = pick_metric(metric_sample, num_metrics);
            Some(plan_scan(bucket, metric))
        },
    }
}

/// What a scan's last call returned.
#[derive(Debug, Clone, Copy, PartialEq, Eq, Structural)]
pub enum ScanEvent {
    Row,
    End,
    Failed,
}

/// Counts the rows of a scan until its end or its first failure.
#[derive(Debug, Clone, Copy)]
pub struct RowTally {
    rows: u64,
}

impl View for RowTally {
    type V = u64;

    closed spec fn view(&self) -> u64 {
        self.rows
    }
}

impl RowTally {
    pub fn new() -> (tally: Self)
        ensures
            tally@ == 0,
    {
        RowTally { rows: 0 }
    }

    /// Counts what the scan returned; `true` as long as it is to be asked for more.
    pub fn count(&mut self, event: ScanEvent) -> (more: bool)
        requires
            event is Row ==> old(self)@ < u64::MAX,
        ensures
            more == (event is Row),
            final(self)@ == (if event is Row {
                (old(self)@ + 1) as u64
            } else {
                old(self)@
            }),
    {
        match event {
            ScanEvent::Row => {
                self.rows = self.rows + 1;
                true
            },
            ScanEvent::End | ScanEvent::Failed => false,
        }
    }

    /// The number of rows.
    pub fn rows(&self) -> (rows: u64)
        ensures
            rows == self@,
    {
        self.rows
    }
}

/// Readers only look at sealed buckets, the newest one among them, and at no more than
/// `window_buckets` of them.
pub proof fn law_window_is_sealed(active: u64, window_buckets: u64)
    requires
        window_buckets > 0,
        active >= 2,
    ensures
        ({
            let window = window_before(active, window_buckets);
            &&& window.lo <= window.hi
            &&& window.hi < active
            &&& window.hi == active - 1
            &&& window.hi - window.lo < window_buckets
            &&& window.lo == 0 || window.hi - window.lo + 1 == window_buckets
        }),
{
}

/// A planned scan returns exactly the samples of its bucket and its metric.
pub proof fn law_plan_reads_one_metric_of_one_bucket(
    plan: ScanPlan,
    bucket: u64,
    metric: u32,
    sample: (u64, u32, u64),
)
    requires
        metric < u32::MAX,
        plan.covers(bucket, metric),
    ensures
        plan.bucket == bucket,
        plan.metric == metric,
        ({
            let key = super::keys::key_bytes(sample.0, sample.1, sample.2);
            (crate::key_order::lex_le(crate::key_order::bytes_view(plan.start), key)
                && crate::key_order::lex_lt(key, crate::key_order::bytes_view(plan.end))) == (
            sample.0 == bucket && sample.1 == metric)
        }),
{
    super::keys::law_scan_covers_one_metric_of_one_bucket(bucket, metric, sample);
}

} // verus!
