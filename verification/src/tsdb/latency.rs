//! Latencies and operation counts of a load.
use hdrhistogram::Histogram;
use vstd::multiset::Multiset;
use vstd::prelude::*;

verus! {

/// A `hdrhistogram::Histogram` of latencies in microseconds.
#[verifier::external_body]
pub struct LatencyHistogram {
    inner: Histogram<u64>,
}

/// The samples that a histogram counts, each as the lowest value that it cannot tell apart from the
/// sample.
pub uninterp spec fn histogram_samples(h: LatencyHistogram) -> Multiset<u64>;

/// How a histogram was made: whether it grows for values out of its range, the lowest value that it
/// can tell apart from 0, and the number of significant decimal digits that it keeps.
pub uninterp spec fn histogram_settings(h: LatencyHistogram) -> (bool, u64, u8);

/// The number of values, from 0 on, that a histogram with so many significant digits can tell apart
/// one by one: the power of two that is not below twice that power of ten.
pub open spec fn exact_values(sigfig: u8) -> nat {
    if sigfig == 0 {
        2
    } else if sigfig == 1 {
        32
    } else if sigfig == 2 {
        256
    } else if sigfig == 3 {
        2048
    } else if sigfig == 4 {
        32768
    } else {
        262144
    }
}

/// The lowest value that a histogram cannot tell apart from `value`: it keeps the leading binary
/// digits of a value, as many as the values that it tells apart one by one have.
pub open spec fn lowest_equivalent(sigfig: u8, value: nat) -> nat
    decreases value,
{
    if value < exact_values(sigfig) {
        value
    } else {
        2 * lowest_equivalent(sigfig, value / 2)
    }
}

/// The samples of a histogram once it was given another one: it counts up to `u64::MAX` of those
/// that it cannot tell apart.
pub open spec fn with_sample(samples: Multiset<u64>, sigfig: u8, value: u64) -> Multiset<u64> {
    let kept = lowest_equivalent(sigfig, value as nat) as u64;
    if samples.count(kept) < u64::MAX {
        samples.insert(kept)
    } else {
        samples
    }
}

/// Whether `counts` lists what a histogram holds: in ascending order, a value for each sample that
/// it can tell apart from the others, and how many of these there are.
pub open spec fn lists_samples(samples: Multiset<u64>, sigfig: u8, counts: Seq<(u64, u64)>) -> bool {
    &&& forall|i: int, j: int| 0 <= i < j < counts.len() ==> counts[i].0 < counts[j].0
    &&& forall|i: int|
        0 <= i < counts.len() ==> {
            &&& (#[trigger] counts[i]).1 > 0
            &&& counts[i].1 == samples.count(
                lowest_equivalent(sigfig, counts[i].0 as nat) as u64,
            )
        }
    &&& forall|value: u64| #[trigger]
        samples.count(value) > 0 ==> exists|i: int|
            0 <= i < counts.len() && lowest_equivalent(sigfig, (#[trigger] counts[i]).0 as nat)
                == value
}

impl LatencyHistogram {
    /// `Histogram::new`: for up to five significant digits, an empty histogram that grows, with 1
    /// as the lowest value that it tells apart from 0.
    #[verifier::external_body]
    fn new(sigfig: u8) -> (h: Self)
        requires
            sigfig <= 5,
        ensures
            histogram_settings(h) == (true, 1u64, sigfig),
            histogram_samples(h) == Multiset::<u64>::empty(),
    {
        LatencyHistogram { inner: Histogram::new(sigfig).expect("histogram") }
    }

    /// `Histogram::record`: a histogram that grows counts any value.
    #[verifier::external_body]
    fn record(&mut self, value: u64)
        requires
            histogram_settings(*old(self)).0,
            histogram_settings(*old(self)).1 == 1,
        ensures
            histogram_settings(*final(self)) == histogram_settings(*old(self)),
            histogram_samples(*final(self)) == with_sample(
                histogram_samples(*old(self)),
                histogram_settings(*old(self)).2,
                value,
            ),
    {
        let _ = self.inner.record(value);
    }

    /// `Histogram::clear`: no sample is left, and the settings stay.
    #[verifier::external_body]
    fn clear(&mut self)
        ensures
            histogram_settings(*final(self)) == histogram_settings(*old(self)),
            histogram_samples(*final(self)) == Multiset::<u64>::empty(),
    {
        self.inner.clear()
    }

    /// `Histogram::iter_recorded`: every value that was recorded, in ascending order, and how often
    /// it was. A value stands for all that the histogram cannot tell apart from it.
    #[verifier::external_body]
    fn recorded(&self) -> (counts: Vec<(u64, u64)>)
        requires
            histogram_settings(*self).1 == 1,
        ensures
            lists_samples(histogram_samples(*self), histogram_settings(*self).2, counts@),
    {
        self.inner.iter_recorded().map(|v| (v.value_iterated_to(), v.count_at_value())).collect()
    }
}

/// The significant decimal digits that latencies are kept with.
pub const LATENCY_SIGFIG: u8 = 3;

/// `TsdbStats` as a mathematical value.
#[verifier::ext_equal]
pub ghost struct TsdbStatsModel {
    /// Scan latencies of the current window, in microseconds.
    pub scan_latencies: Multiset<u64>,
    /// Put latencies of the current window, in microseconds.
    pub put_latencies: Multiset<u64>,
    pub scans: u64,
    pub scan_rows: u64,
    pub scan_empty: u64,
    pub puts: u64,
}

/// Latencies of the current window, and operation counts since the start. The counts wrap around.
pub struct TsdbStats {
    scan_hist: LatencyHistogram,
    put_hist: LatencyHistogram,
    scans: u64,
    scan_rows: u64,
    scan_empty: u64,
    puts: u64,
}

impl View for TsdbStats {
    type V = TsdbStatsModel;

    closed spec fn view(&self) -> TsdbStatsModel {
        TsdbStatsModel {
            scan_latencies: histogram_samples(self.scan_hist),
            put_latencies: histogram_samples(self.put_hist),
            scans: self.scans,
            scan_rows: self.scan_rows,
            scan_empty: self.scan_empty,
            puts: self.puts,
        }
    }
}

impl TsdbStats {
    /// Whether both histograms count any latency.
    pub closed spec fn wf(&self) -> bool {
        &&& histogram_settings(self.scan_hist) == (true, 1u64, LATENCY_SIGFIG)
        &&& histogram_settings(self.put_hist) == (true, 1u64, LATENCY_SIGFIG)
    }

    pub fn new() -> (stats: Self)
        ensures
            stats.wf(),
            stats@ == (TsdbStatsModel {
                scan_latencies: Multiset::empty(),
                put_latencies: Multiset::empty(),
                scans: 0,
                scan_rows: 0,
                scan_empty: 0,
                puts: 0,
            }),
    {
        TsdbStats {
            scan_hist: LatencyHistogram::new(LATENCY_SIGFIG),
            put_hist: LatencyHistogram::new(LATENCY_SIGFIG),
            scans: 0,
            scan_rows: 0,
            scan_empty: 0,
            puts: 0,
        }
    }

    /// A scan took `elapsed_us` microseconds and returned `rows` rows.
    pub fn record_scan(&mut self, elapsed_us: u64, rows: u64)
        requires
            old(self).wf(),
        ensures
            final(self).wf(),
            final(self)@ == (TsdbStatsModel {
                scan_latencies: with_sample(old(self)@.scan_latencies, LATENCY_SIGFIG, elapsed_us),
                scans: vstd::wrapping::u64_specs::wrapping_add(old(self)@.scans, 1),
                scan_rows: vstd::wrapping::u64_specs::wrapping_add(old(self)@.scan_rows, rows),
                scan_empty: if rows == 0 {
                    vstd::wrapping::u64_specs::wrapping_add(old(self)@.scan_empty, 1)
                } else {
                    old(self)@.scan_empty
                },
                ..old(self)@
            }),
    {
        self.scan_hist.record(elapsed_us);
        self.scans = self.scans.wrapping_add(1);
        self.scan_rows = self.scan_rows.wrapping_add(rows);
        if rows == 0 {
            self.scan_empty = self.scan_empty.wrapping_add(1);
        }
    }

    /// A put took `elapsed_us` microseconds.
    pub fn record_put(&mut self, elapsed_us: u64)
        requires
            old(self).wf(),
        ensures
            final(self).wf(),
            final(self)@ == (TsdbStatsModel {
                put_latencies: with_sample(old(self)@.put_latencies, LATENCY_SIGFIG, elapsed_us),
                puts: vstd::wrapping::u64_specs::wrapping_add(old(self)@.puts, 1),
                ..old(self)@
            }),
    {
        self.put_hist.record(elapsed_us);
        self.puts = self.puts.wrapping_add(1);
    }

    /// Ends a window for scans: returns its latencies, in ascending order and with their counts,
    /// and starts without any.
    pub fn take_scan_latencies(&mut self) -> (counts: Vec<(u64, u64)>)
        requires
            old(self).wf(),
        ensures
            final(self).wf(),
            lists_samples(old(self)@.scan_latencies, LATENCY_SIGFIG, counts@),
            final(self)@ == (TsdbStatsModel { scan_latencies: Multiset::empty(), ..old(self)@ }),
    {
        let counts = self.scan_hist.recorded();
        self.scan_hist.clear();
        counts
    }

    /// Ends a window for puts: returns its latencies, in ascending order and with their counts, and
    /// starts without any.
    pub fn take_put_latencies(&mut self) -> (counts: Vec<(u64, u64)>)
        requires
            old(self).wf(),
        ensures
            final(self).wf(),
            lists_samples(old(self)@.put_latencies, LATENCY_SIGFIG, counts@),
            final(self)@ == (TsdbStatsModel { put_latencies: Multiset::empty(), ..old(self)@ }),
    {
        let counts = self.put_hist.recorded();
        self.put_hist.clear();
        counts
    }

    /// How many scans there were.
    pub fn scans(&self) -> (scans: u64)
        ensures
            scans == self@.scans,
    {
        self.scans
    }

    /// How many rows all scans returned.
    pub fn scan_rows(&self) -> (rows: u64)
        ensures
            rows == self@.scan_rows,
    {
        self.scan_rows
    }

    /// How many scans returned no row.
    pub fn scan_empty(&self) -> (empty: u64)
        ensures
            empty == self@.scan_empty,
    {
        self.scan_empty
    }

    /// How many puts there were.
    pub fn puts(&self) -> (puts: u64)
        ensures
            puts == self@.puts,
    {
        self.puts
    }
}

/// Latencies are kept with three significant digits: those below 2048 microseconds exactly, and
/// longer ones less than a thousandth too short.
pub proof fn law_latencies_are_kept_to_a_thousandth(value: nat)
    ensures
        ({
            let kept = lowest_equivalent(LATENCY_SIGFIG, value);
            &&& value < 2048 ==> kept == value
            &&& value >= 2048 ==> kept % 2 == 0
            &&& kept <= value
            &&& value > 0 ==> (value - kept) * 1000 < value
            &&& value >= 1024 ==> (value - kept) * 1024 <= value - 1024
        }),
    decreases value,
{
    if value >= 2048 {
        law_latencies_are_kept_to_a_thousandth(value / 2);
    }
}

/// A latency that is recorded counts once more, and no other latency counts differently.
pub proof fn law_recorded_latency_counts(
    samples: Multiset<u64>,
    value: u64,
    kept: u64,
    other: u64,
)
    requires
        kept == lowest_equivalent(LATENCY_SIGFIG, value as nat),
        samples.count(kept) < u64::MAX,
    ensures
        with_sample(samples, LATENCY_SIGFIG, value).count(kept) == samples.count(kept) + 1,
        other != kept ==> with_sample(samples, LATENCY_SIGFIG, value).count(other)
            == samples.count(other),
{
}

} // verus!
