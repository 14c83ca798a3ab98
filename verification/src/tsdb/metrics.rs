//! What is read off the metrics of the database, window by window.
use crate::text::str_eq;
use vstd::prelude::*;

verus! {

/// How long a window is.
pub const WINDOW_SECS: u64 = 10;

/// How long the load runs if no duration is given.
pub const DEFAULT_RUN_SECS: u64 = 3600;

/// The value of a metric.
#[derive(Debug, Clone, Copy, PartialEq, Eq, Structural)]
pub enum MetricValue {
    Counter(u64),
    Gauge(i64),
    UpDownCounter(i64),
    /// A distribution, which has no single value.
    Histogram,
}

/// A metric with its labels.
#[derive(Debug)]
pub struct Metric {
    pub name: String,
    /// Keys and values of the labels.
    pub labels: Vec<(String, String)>,
    pub value: MetricValue,
}

/// All metrics of the database at one time.
#[derive(Debug)]
pub struct Metrics {
    pub all: Vec<Metric>,
}

/// The value of a metric as a count: 0 for what is negative or has no single value.
pub open spec fn count_of(value: MetricValue) -> u64 {
    match value {
        MetricValue::Counter(n) => n,
        MetricValue::Gauge(n) | MetricValue::UpDownCounter(n) => if n < 0 {
            0
        } else {
            n as u64
        },
        MetricValue::Histogram => 0,
    }
}

/// The value of a metric as a count.
pub fn metric_u64(m: &Metric) -> (count: u64)
    ensures
        count == count_of(m.value),
{
    match m.value {
        MetricValue::Counter(n) => n,
        MetricValue::Gauge(n) | MetricValue::UpDownCounter(n) => if n < 0 {
            0
        } else {
            n as u64
        },
        MetricValue::Histogram => 0,
    }
}

/// The count of the first metric with this name and no labels, 0 if there is none.
pub open spec fn scalar_of(metrics: Seq<Metric>, name: Seq<char>) -> u64
    decreases metrics.len(),
{
    if metrics.len() == 0 {
        0
    } else if metrics[0].name@ == name && metrics[0].labels@.len() == 0 {
        count_of(metrics[0].value)
    } else {
        scalar_of(metrics.drop_first(), name)
    }
}

/// A counter or gauge with no labels, looked up by name; 0 if absent.
pub fn scalar(snap: &Metrics, name: &str) -> (count: u64)
    ensures
        count == scalar_of(snap.all@, name@),
{
    let mut i: usize = 0;
    assert(snap.all@.skip(0) =~= snap.all@);
    while i < snap.all.len()
        invariant
            i <= snap.all.len(),
            scalar_of(snap.all@.skip(i as int), name@) == scalar_of(snap.all@, name@),
        decreases snap.all.len() - i,
    {
        let metric = &snap.all[i];
        proof {
            assert(snap.all@.skip(i as int)[0] == snap.all@[i as int]);
            assert(snap.all@.skip(i as int).drop_first() =~= snap.all@.skip(i + 1));
        }
        if str_eq(metric.name.as_str(), name) && metric.labels.len() == 0 {
            return metric_u64(metric);
        }
        i = i + 1;
    }
    0
}

/// Whether a metric has a label.
pub open spec fn has_label(m: Metric, key: Seq<char>, value: Seq<char>) -> bool {
    exists|i: int|
        0 <= i < m.labels@.len() && (#[trigger] m.labels@[i]).0@ == key && m.labels@[i].1@ == value
}

/// Whether a metric counts the range reads of a component from the object store.
pub open spec fn counts_range_reads(m: Metric, component: Seq<char>) -> bool {
    &&& m.name@ == "slatedb.object_store.request_count"@
    &&& has_label(m, "component"@, component)
    &&& has_label(m, "op"@, "get"@)
    &&& has_label(m, "api"@, "get_range"@) || has_label(m, "api"@, "get_ranges"@)
}

/// The number of range reads of a component from the object store.
pub open spec fn range_reads(metrics: Seq<Metric>, component: Seq<char>) -> nat
    decreases metrics.len(),
{
    if metrics.len() == 0 {
        0
    } else {
        range_reads(metrics.drop_last(), component) + (if counts_range_reads(
            metrics.last(),
            component,
        ) {
            count_of(metrics.last().value) as nat
        } else {
            0nat
        })
    }
}

fn has(m: &Metric, key: &str, value: &str) -> (found: bool)
    ensures
        found == has_label(*m, key@, value@),
{
    let mut i: usize = 0;
    while i < m.labels.len()
        invariant
            i <= m.labels.len(),
            forall|j: int|
                0 <= j < i ==> (#[trigger] m.labels@[j]).0@ != key@ || m.labels@[j].1@ != value@,
        decreases m.labels.len() - i,
    {
        let label = &m.labels[i];
        if str_eq(label.0.as_str(), key) && str_eq(label.1.as_str(), value) {
            assert(m.labels@[i as int].0@ == key@);
            return true;
        }
        i = i + 1;
    }
    false
}

proof fn lemma_range_reads_grow(metrics: Seq<Metric>, component: Seq<char>, n: int)
    requires
        0 <= n <= metrics.len(),
    ensures
        range_reads(metrics.take(n), component) <= range_reads(metrics, component),
    decreases metrics.len(),
{
    if n == metrics.len() {
        assert(metrics.take(n) =~= metrics);
    } else {
        lemma_range_reads_grow(metrics.drop_last(), component, n);
        assert(metrics.drop_last().take(n) =~= metrics.take(n));
    }
}

/// The number of range reads of a component from the object store, unless it is too large.
pub fn checked_range_reads(snap: &Metrics, component: &str) -> (count: Option<u64>)
    ensures
        count == (if range_reads(snap.all@, component@) <= u64::MAX {
            Some(range_reads(snap.all@, component@) as u64)
        } else {
            None
        }),
{
    let mut sum: u64 = 0;
    let mut i: usize = 0;
    while i < snap.all.len()
        invariant
            i <= snap.all.len(),
            sum == range_reads(snap.all@.take(i as int), component@),
        decreases snap.all.len() - i,
    {
        let metric = &snap.all[i];
        proof {
            let next = snap.all@.take(i + 1);
            assert(next.drop_last() =~= snap.all@.take(i as int));
            assert(next.last() == snap.all@[i as int]);
            lemma_range_reads_grow(snap.all@, component@, i + 1);
        }
        if str_eq(metric.name.as_str(), "slatedb.object_store.request_count") && has(
            metric,
            "component",
            component,
        ) && has(metric, "op", "get") && (has(metric, "api", "get_range") || has(
            metric,
            "api",
            "get_ranges",
        )) {
            let count = metric_u64(metric);
            if count > u64::MAX - sum {
                return None;
            }
            sum = sum + count;
        }
        i = i + 1;
    }
    assert(snap.all@.take(i as int) =~= snap.all@);
    Some(sum)
}

/// The number of range reads of a component from the object store: `"db"` for block fetches of the
/// read path, `"compactor"` for compaction input.
pub fn os_get_range(snap: &Metrics, component: &str) -> (count: u64)
    requires
        range_reads(snap.all@, component@) <= u64::MAX,
    ensures
        count == range_reads(snap.all@, component@),
{
    checked_range_reads(snap, component).unwrap()
}

/// The metrics that a window is made of.
#[derive(Debug, Clone, Copy, PartialEq, Eq, Structural)]
pub struct MetricsSample {
    pub bytes_compacted: u64,
    pub memtable_write_bytes: u64,
    pub wal_flush_bytes: u64,
    pub l0_flush_bytes: u64,
    pub l0_sst_count: u64,
    pub segment_max_l0_sst_count: u64,
    pub backpressure_count: u64,
    pub read_get_range: u64,
    pub compactor_get_range: u64,
}

/// The metrics that a window is made of, in a snapshot.
pub open spec fn sample_of(metrics: Seq<Metric>) -> MetricsSample {
    MetricsSample {
        bytes_compacted: scalar_of(metrics, "slatedb.compactor.bytes_compacted"@),
        memtable_write_bytes: scalar_of(metrics, "slatedb.db.memtable_write_bytes"@),
        wal_flush_bytes: scalar_of(metrics, "slatedb.db.wal_flush_bytes"@),
        l0_flush_bytes: scalar_of(metrics, "slatedb.db.l0_flush_bytes"@),
        l0_sst_count: scalar_of(metrics, "slatedb.db.l0_sst_count"@),
        segment_max_l0_sst_count: scalar_of(metrics, "slatedb.db.segment_max_l0_sst_count"@),
        backpressure_count: scalar_of(metrics, "slatedb.db.backpressure_count"@),
        read_get_range: range_reads(metrics, "db"@) as u64,
        compactor_get_range: range_reads(metrics, "compactor"@) as u64,
    }
}

/// Reads the metrics that a window is made of from a snapshot.
pub fn sample_metrics(snap: &Metrics) -> (sample: MetricsSample)
    requires
        range_reads(snap.all@, "db"@) <= u64::MAX,
        range_reads(snap.all@, "compactor"@) <= u64::MAX,
    ensures
        sample == sample_of(snap.all@),
{
    MetricsSample {
        bytes_compacted: scalar(snap, "slatedb.compactor.bytes_compacted"),
        memtable_write_bytes: scalar(snap, "slatedb.db.memtable_write_bytes"),
        wal_flush_bytes: scalar(snap, "slatedb.db.wal_flush_bytes"),
        l0_flush_bytes: scalar(snap, "slatedb.db.l0_flush_bytes"),
        l0_sst_count: scalar(snap, "slatedb.db.l0_sst_count"),
        segment_max_l0_sst_count: scalar(snap, "slatedb.db.segment_max_l0_sst_count"),
        backpressure_count: scalar(snap, "slatedb.db.backpressure_count"),
        read_get_range: os_get_range(snap, "db"),
        compactor_get_range: os_get_range(snap, "compactor"),
    }
}

/// Bytes written to the object store, and bytes written by users. Their ratio is the write
/// amplification.
#[derive(Debug, Clone, Copy, PartialEq, Eq, Structural)]
pub struct WriteAmp {
    pub stored: u64,
    pub user: u64,
}

/// What is reported of a window.
#[derive(Debug, Clone, Copy, PartialEq, Eq, Structural)]
pub struct WindowRow {
    pub compaction_bytes_delta: u64,
    /// Absent as long as users have written nothing.
    pub cum_write_amp: Option<WriteAmp>,
    pub l0_sst_count: u64,
    pub segment_max_l0: u64,
    pub backpressure_delta: u64,
    pub read_get_range_delta: u64,
    pub compactor_get_delta: u64,
    pub scans_delta: u64,
    pub puts_delta: u64,
}

/// How much a count has grown; nothing if it was reset.
pub open spec fn growth(now: u64, before: u64) -> u64 {
    if now >= before {
        (now - before) as u64
    } else {
        0
    }
}

/// What is reported of the window that ends with a sample.
pub open spec fn window_row(start: WindowStart, sample: MetricsSample, scans: u64, puts: u64)
    -> WindowRow {
    WindowRow {
        compaction_bytes_delta: growth(sample.bytes_compacted, start.sample.bytes_compacted),
        cum_write_amp: if sample.memtable_write_bytes > 0 {
            Some(
                WriteAmp {
                    stored: (sample.wal_flush_bytes + sample.l0_flush_bytes
                        + sample.bytes_compacted) as u64,
                    user: sample.memtable_write_bytes,
                },
            )
        } else {
            None
        },
        l0_sst_count: sample.l0_sst_count,
        segment_max_l0: sample.segment_max_l0_sst_count,
        backpressure_delta: growth(sample.backpressure_count, start.sample.backpressure_count),
        read_get_range_delta: growth(sample.read_get_range, start.sample.read_get_range),
        compactor_get_delta: growth(sample.compactor_get_range, start.sample.compactor_get_range),
        scans_delta: (scans - start.scans) as u64,
        puts_delta: (puts - start.puts) as u64,
    }
}

fn grown(now: u64, before: u64) -> (by: u64)
    ensures
        by == growth(now, before),
{
    if now >= before {
        now - before
    } else {
        0
    }
}

/// The end of the window before.
#[derive(Debug, Clone, Copy, PartialEq, Eq, Structural)]
pub struct WindowStart {
    pub sample: MetricsSample,
    pub scans: u64,
    pub puts: u64,
}

impl WindowStart {
    /// Before the first window.
    pub fn new(sample: MetricsSample) -> (start: Self)
        ensures
            start == (WindowStart { sample, scans: 0, puts: 0 }),
    {
        WindowStart { sample, scans: 0, puts: 0 }
    }

    /// Ends a window: reports how cumulative counts have grown since it began, and begins the next.
    pub fn end_window(&mut self, sample: MetricsSample, scans: u64, puts: u64) -> (row: WindowRow)
        requires
            old(self).scans <= scans,
            old(self).puts <= puts,
            sample.memtable_write_bytes > 0 ==> sample.wal_flush_bytes + sample.l0_flush_bytes
                + sample.bytes_compacted <= u64::MAX,
        ensures
            *final(self) == (WindowStart { sample, scans, puts }),
            row == (WindowRow {
                compaction_bytes_delta: growth(
                    sample.bytes_compacted,
                    old(self).sample.bytes_compacted,
                ),
                cum_write_amp: if sample.memtable_write_bytes > 0 {
                    Some(
                        WriteAmp {
                            stored: (sample.wal_flush_bytes + sample.l0_flush_bytes
                                + sample.bytes_compacted) as u64,
                            user: sample.memtable_write_bytes,
                        },
                    )
                } else {
                    None
                },
                l0_sst_count: sample.l0_sst_count,
                segment_max_l0: sample.segment_max_l0_sst_count,
                backpressure_delta: growth(
                    sample.backpressure_count,
                    old(self).sample.backpressure_count,
                ),
                read_get_range_delta: growth(
                    sample.read_get_range,
                    old(self).sample.read_get_range,
                ),
                compactor_get_delta: growth(
                    sample.compactor_get_range,
                    old(self).sample.compactor_get_range,
                ),
                scans_delta: (scans - old(self).scans) as u64,
                puts_delta: (puts - old(self).puts) as u64,
            }),
            row == window_row(*old(self), sample, scans, puts),
            old(self).scans + row.scans_delta == scans,
            old(self).puts + row.puts_delta == puts,
            sample.bytes_compacted >= old(self).sample.bytes_compacted
                ==> old(self).sample.bytes_compacted + row.compaction_bytes_delta
                == sample.bytes_compacted,
            sample.backpressure_count >= old(self).sample.backpressure_count
                ==> old(self).sample.backpressure_count + row.backpressure_delta
                == sample.backpressure_count,
            sample.read_get_range >= old(self).sample.read_get_range
                ==> old(self).sample.read_get_range + row.read_get_range_delta
                == sample.read_get_range,
            sample.compactor_get_range >= old(self).sample.compactor_get_range
                ==> old(self).sample.compactor_get_range + row.compactor_get_delta
                == sample.compactor_get_range,
    {
        let before = *self;
        let cum_write_amp = if sample.memtable_write_bytes > 0 {
            Some(
                WriteAmp {
                    stored: sample.wal_flush_bytes + sample.l0_flush_bytes + sample.bytes_compacted,
                    user: sample.memtable_write_bytes,
                },
            )
        } else {
            None
        };
        *self = WindowStart { sample, scans, puts };
        WindowRow {
            compaction_bytes_delta: grown(sample.bytes_compacted, before.sample.bytes_compacted),
            cum_write_amp,
            l0_sst_count: sample.l0_sst_count,
            segment_max_l0: sample.segment_max_l0_sst_count,
            backpressure_delta: grown(
                sample.backpressure_count,
                before.sample.backpressure_count,
            ),
            read_get_range_delta: grown(sample.read_get_range, before.sample.read_get_range),
            compactor_get_delta: grown(
                sample.compactor_get_range,
                before.sample.compactor_get_range,
            ),
            scans_delta: scans - before.scans,
            puts_delta: puts - before.puts,
        }
    }
}

/// The range reads that two lists of metrics count add up.
pub proof fn law_range_reads_add_up(a: Seq<Metric>, b: Seq<Metric>, component: Seq<char>)
    ensures
        range_reads(a + b, component) == range_reads(a, component) + range_reads(b, component),
    decreases b.len(),
{
    if b.len() == 0 {
        assert(a + b =~= a);
    } else {
        law_range_reads_add_up(a, b.drop_last(), component);
        assert((a + b).drop_last() =~= a + b.drop_last());
        assert((a + b).last() == b.last());
    }
}

/// Growth is what has to be added to the earlier count, and never more than the count itself. The
/// growths of successive windows add up to the growth of both together.
pub proof fn law_growth_adds_up(a: u64, b: u64, c: u64)
    ensures
        a <= b ==> a + growth(b, a) == b,
        a > b ==> growth(b, a) == 0,
        a <= b <= c ==> growth(b, a) + growth(c, b) == c - a,
        a <= b <= c ==> growth(b, a) + growth(c, b) == growth(c, a),
{
}

/// The rows of two successive windows report the growth of every cumulative count over both: as
/// long as a count does not go down, its two deltas add up to the difference of the outer samples.
pub proof fn law_window_deltas_add_up(
    start: WindowStart,
    middle: WindowStart,
    end: WindowStart,
)
    requires
        start.scans <= middle.scans <= end.scans,
        start.puts <= middle.puts <= end.puts,
        start.sample.bytes_compacted <= middle.sample.bytes_compacted
            <= end.sample.bytes_compacted,
        start.sample.backpressure_count <= middle.sample.backpressure_count
            <= end.sample.backpressure_count,
        start.sample.read_get_range <= middle.sample.read_get_range <= end.sample.read_get_range,
        start.sample.compactor_get_range <= middle.sample.compactor_get_range
            <= end.sample.compactor_get_range,
    ensures
        ({
            let first = window_row(start, middle.sample, middle.scans, middle.puts);
            let second = window_row(middle, end.sample, end.scans, end.puts);
            &&& start.sample.bytes_compacted + first.compaction_bytes_delta
                == middle.sample.bytes_compacted
            &&& start.sample.backpressure_count + first.backpressure_delta
                == middle.sample.backpressure_count
            &&& start.sample.read_get_range + first.read_get_range_delta
                == middle.sample.read_get_range
            &&& start.sample.compactor_get_range + first.compactor_get_delta
                == middle.sample.compactor_get_range
            &&& first.compaction_bytes_delta + second.compaction_bytes_delta
                == end.sample.bytes_compacted - start.sample.bytes_compacted
            &&& first.backpressure_delta + second.backpressure_delta
                == end.sample.backpressure_count - start.sample.backpressure_count
            &&& first.read_get_range_delta + second.read_get_range_delta
                == end.sample.read_get_range - start.sample.read_get_range
            &&& first.compactor_get_delta + second.compactor_get_delta
                == end.sample.compactor_get_range - start.sample.compactor_get_range
            &&& first.scans_delta + second.scans_delta == end.scans - start.scans
            &&& first.puts_delta + second.puts_delta == end.puts - start.puts
        }),
{
}

/// A row shows level 0 as the sample that ends the window has it, and the write amplification of
/// all bytes since the beginning: the log, level 0 and compaction against what users wrote.
pub proof fn law_window_shows_the_last_sample(
    start: WindowStart,
    sample: MetricsSample,
    scans: u64,
    puts: u64,
)
    requires
        sample.wal_flush_bytes + sample.l0_flush_bytes + sample.bytes_compacted <= u64::MAX,
    ensures
        ({
            let row = window_row(start, sample, scans, puts);
            &&& row.l0_sst_count == sample.l0_sst_count
            &&& row.segment_max_l0 == sample.segment_max_l0_sst_count
            &&& row.cum_write_amp is None <==> sample.memtable_write_bytes == 0
            &&& row.cum_write_amp matches Some(amp) ==> amp.user == sample.memtable_write_bytes
                && amp.stored == sample.wal_flush_bytes + sample.l0_flush_bytes
                + sample.bytes_compacted
        }),
{
}

/// A metric counts as its value, and as nothing if that is negative or no single number.
pub proof fn law_metrics_count_as_their_value(n: u64, level: i64)
    ensures
        count_of(MetricValue::Counter(n)) == n,
        level >= 0 ==> count_of(MetricValue::Gauge(level)) == level,
        level < 0 ==> count_of(MetricValue::Gauge(level)) == 0,
        level >= 0 ==> count_of(MetricValue::UpDownCounter(level)) == level,
        level < 0 ==> count_of(MetricValue::UpDownCounter(level)) == 0,
        count_of(MetricValue::Histogram) == 0,
{
}

/// A scalar is the count of the first metric with its name and without labels, and 0 if there is
/// none.
pub proof fn law_scalar_is_the_first_match(metrics: Seq<Metric>, name: Seq<char>, i: int)
    ensures
        0 <= i < metrics.len() && metrics[i].name@ == name && metrics[i].labels@.len() == 0 && (
        forall|j: int|
            0 <= j < i ==> (#[trigger] metrics[j]).name@ != name || metrics[j].labels@.len() > 0)
            ==> scalar_of(metrics, name) == count_of(metrics[i].value),
        (forall|j: int|
            0 <= j < metrics.len() ==> (#[trigger] metrics[j]).name@ != name
                || metrics[j].labels@.len() > 0) ==> scalar_of(metrics, name) == 0,
    decreases metrics.len(),
{
    if metrics.len() > 0 {
        let rest = metrics.drop_first();
        assert(forall|j: int| 0 <= j < rest.len() ==> rest[j] == metrics[j + 1]);
        law_scalar_is_the_first_match(rest, name, i - 1);
        if metrics[0].name@ != name || metrics[0].labels@.len() > 0 {
            if 0 < i < metrics.len() && (forall|j: int|
                0 <= j < i ==> (#[trigger] metrics[j]).name@ != name || metrics[j].labels@.len()
                    > 0) {
                assert(rest[i - 1] == metrics[i]);
                assert forall|j: int| 0 <= j < i - 1 implies (#[trigger] rest[j]).name@ != name
                    || rest[j].labels@.len() > 0 by {
                    assert(rest[j] == metrics[j + 1]);
                }
            }
        }
    }
}

/// A single metric is counted as range reads of a component exactly if it counts requests to the
/// object store and its labels name the component, the operation `get` and one of the two calls
/// that read ranges.
pub proof fn law_range_reads_of_one_metric(m: Metric, component: Seq<char>)
    ensures
        range_reads(seq![m], component) == (if m.name@ == "slatedb.object_store.request_count"@ && (
        exists|i: int|
            0 <= i < m.labels@.len() && (#[trigger] m.labels@[i]).0@ == "component"@
                && m.labels@[i].1@ == component) && (exists|i: int|
            0 <= i < m.labels@.len() && (#[trigger] m.labels@[i]).0@ == "op"@ && m.labels@[i].1@
                == "get"@) && (exists|i: int|
            0 <= i < m.labels@.len() && (#[trigger] m.labels@[i]).0@ == "api"@ && (
            m.labels@[i].1@ == "get_range"@ || m.labels@[i].1@ == "get_ranges"@)) {
            count_of(m.value) as nat
        } else {
            0nat
        }),
        range_reads(Seq::empty(), component) == 0,
{
    reveal_with_fuel(range_reads, 2);
    assert(seq![m].drop_last() =~= Seq::<Metric>::empty());
    assert(seq![m].last() == m);
    if exists|i: int|
        0 <= i < m.labels@.len() && (#[trigger] m.labels@[i]).0@ == "api"@ && (m.labels@[i].1@
            == "get_range"@ || m.labels@[i].1@ == "get_ranges"@) {
        let i = choose|i: int|
            0 <= i < m.labels@.len() && (#[trigger] m.labels@[i]).0@ == "api"@ && (m.labels@[i].1@
                == "get_range"@ || m.labels@[i].1@ == "get_ranges"@);
        if m.labels@[i].1@ == "get_range"@ {
            assert(has_label(m, "api"@, "get_range"@));
        } else {
            assert(has_label(m, "api"@, "get_ranges"@));
        }
    }
    if has_label(m, "api"@, "get_range"@) {
        let i = choose|i: int|
            0 <= i < m.labels@.len() && (#[trigger] m.labels@[i]).0@ == "api"@ && m.labels@[i].1@
                == "get_range"@;
        assert(m.labels@[i].0@ == "api"@);
    }
    if has_label(m, "api"@, "get_ranges"@) {
        let i = choose|i: int|
            0 <= i < m.labels@.len() && (#[trigger] m.labels@[i]).0@ == "api"@ && m.labels@[i].1@
                == "get_ranges"@;
        assert(m.labels@[i].0@ == "api"@);
    }
}

/// Every figure of a sample is read from the metric that is named after it.
pub proof fn law_sample_reads_each_metric(metrics: Seq<Metric>)
    ensures
        sample_of(metrics).bytes_compacted == scalar_of(
            metrics,
            "slatedb.compactor.bytes_compacted"@,
        ),
        sample_of(metrics).memtable_write_bytes == scalar_of(
            metrics,
            "slatedb.db.memtable_write_bytes"@,
        ),
        sample_of(metrics).wal_flush_bytes == scalar_of(metrics, "slatedb.db.wal_flush_bytes"@),
        sample_of(metrics).l0_flush_bytes == scalar_of(metrics, "slatedb.db.l0_flush_bytes"@),
        sample_of(metrics).l0_sst_count == scalar_of(metrics, "slatedb.db.l0_sst_count"@),
        sample_of(metrics).segment_max_l0_sst_count == scalar_of(
            metrics,
            "slatedb.db.segment_max_l0_sst_count"@,
        ),
        sample_of(metrics).backpressure_count == scalar_of(
            metrics,
            "slatedb.db.backpressure_count"@,
        ),
        range_reads(metrics, "db"@) <= u64::MAX ==> sample_of(metrics).read_get_range
            == range_reads(metrics, "db"@),
        range_reads(metrics, "compactor"@) <= u64::MAX ==> sample_of(metrics).compactor_get_range
            == range_reads(metrics, "compactor"@),
{
}

/// A window takes ten seconds, and a run an hour unless it is told otherwise: that is 360 windows.
pub proof fn law_windows_fill_a_run()
    ensures
        WINDOW_SECS == 10,
        DEFAULT_RUN_SECS == 360 * WINDOW_SECS,
{
}

} // verus!
