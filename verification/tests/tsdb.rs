use bytes::Bytes;
use rand::SeedableRng;
use rand_xorshift::XorShiftRng;
use slatedb::tsdb::frontier::Frontier;
use slatedb::tsdb::keys::{
    encode_key, encode_prefix, BucketPrefixExtractor, PrefixTarget, BUCKET_PREFIX_LEN,
};
use slatedb::tsdb::latency::TsdbStats;
use slatedb::tsdb::load::{
    new_value, next_put, next_scan, pick_metric, plan_scan, scan_window, RowTally, ScanEvent,
    ScanWindow,
};
use slatedb::tsdb::metrics::{
    checked_range_reads, metric_u64, os_get_range, sample_metrics, scalar, Metric, MetricValue,
    Metrics, WindowStart, WriteAmp, DEFAULT_RUN_SECS, WINDOW_SECS,
};

#[test]
fn keys_are_big_endian() {
    let key = encode_key(0x0102030405060708, 0x0a0b0c0d, 0x1112131415161718);
    assert_eq!(
        key.as_ref(),
        [
            1, 2, 3, 4, 5, 6, 7, 8, 0x0a, 0x0b, 0x0c, 0x0d, 0x11, 0x12, 0x13, 0x14, 0x15, 0x16,
            0x17, 0x18
        ]
    );
    let prefix = encode_prefix(0x0102030405060708, 0x0a0b0c0d);
    assert_eq!(prefix.as_ref(), &key.as_ref()[..12]);
}

#[test]
fn keys_order_as_samples() {
    let samples = [
        (0, 0, 0),
        (0, 0, 255),
        (0, 0, 256),
        (0, 1, 0),
        (0, u32::MAX, u64::MAX),
        (1, 0, 0),
        (256, 0, 0),
        (u64::MAX, 0, 0),
    ];
    for pair in samples.windows(2) {
        let (a, b) = (pair[0], pair[1]);
        assert!(encode_key(a.0, a.1, a.2) < encode_key(b.0, b.1, b.2));
    }
}

#[test]
fn segment_is_the_bucket() {
    let extractor = BucketPrefixExtractor;
    assert_eq!(extractor.name(), "tsdb-bucket-8");
    assert_eq!(BUCKET_PREFIX_LEN, 8);
    let key = encode_key(7, 1, 2);
    assert_eq!(extractor.prefix_len(&PrefixTarget::Point(key.clone())), Some(8));
    assert_eq!(&key.as_ref()[..8], &7u64.to_be_bytes());
    let short = Bytes::copy_from_slice(&[0; 7]);
    assert_eq!(extractor.prefix_len(&PrefixTarget::Point(short.clone())), None);
    assert_eq!(extractor.prefix_len(&PrefixTarget::Prefix(short)), None);
    let exact = Bytes::copy_from_slice(&[0; 8]);
    assert_eq!(extractor.prefix_len(&PrefixTarget::Prefix(exact)), Some(8));
}

#[test]
fn scan_covers_one_metric_of_one_bucket() {
    let plan = plan_scan(3, 5);
    assert_eq!((plan.bucket, plan.metric), (3, 5));
    for (bucket, metric, ts, inside) in [
        (3, 5, 0, true),
        (3, 5, u64::MAX, true),
        (3, 4, u64::MAX, false),
        (3, 6, 0, false),
        (2, 5, 1, false),
        (4, 5, 1, false),
    ] {
        let key = encode_key(bucket, metric, ts);
        assert_eq!(plan.start <= key && key < plan.end, inside);
    }
}

#[test]
fn frontier_derives_samples_from_slots() {
    let mut frontier = Frontier::new(100, 25, 3);
    let claimed: Vec<(u64, u32, u64)> = (0..6).map(|_| frontier.claim()).collect();
    assert_eq!(
        claimed,
        vec![(0, 0, 0), (0, 1, 0), (0, 2, 0), (0, 0, 1), (1, 0, 0), (1, 1, 0)]
    );
    assert_eq!(frontier.active_bucket(), 1);
    assert_eq!(frontier.bytes_written(), 150);
}

#[test]
fn bucket_holds_at_least_one_sample() {
    let mut frontier = Frontier::new(10, 100, 1);
    assert_eq!(frontier.claim(), (0, 0, 0));
    assert_eq!(frontier.active_bucket(), 1);
    assert_eq!(frontier.claim(), (1, 0, 0));
}

#[test]
fn slots_hold_distinct_samples() {
    let mut frontier = Frontier::new(70, 10, 3);
    let mut claimed: Vec<(u64, u32, u64)> = (0..50).map(|_| frontier.claim()).collect();
    claimed.sort();
    claimed.dedup();
    assert_eq!(claimed.len(), 50);
}

#[test]
fn window_holds_sealed_buckets() {
    assert_eq!(scan_window(0, 4), None);
    assert_eq!(scan_window(1, 4), None);
    assert_eq!(scan_window(2, 4), Some(ScanWindow { lo: 0, hi: 1 }));
    assert_eq!(scan_window(4, 4), Some(ScanWindow { lo: 0, hi: 3 }));
    assert_eq!(scan_window(10, 4), Some(ScanWindow { lo: 6, hi: 9 }));
    assert_eq!(scan_window(10, 1), Some(ScanWindow { lo: 9, hi: 9 }));
    assert_eq!(
        scan_window(5, u64::MAX),
        Some(ScanWindow { lo: 0, hi: 4 })
    );
}

#[test]
fn metric_samples_are_clamped() {
    assert_eq!(pick_metric(0, 5), 0);
    assert_eq!(pick_metric(1, 5), 0);
    assert_eq!(pick_metric(5, 5), 4);
    assert_eq!(pick_metric(6, 5), 4);
    assert_eq!(pick_metric(u32::MAX, u32::MAX), u32::MAX - 1);
}

#[test]
fn readers_scan_the_window() {
    let mut rng = XorShiftRng::seed_from_u64(1);
    assert!(next_scan(1, 3, 1, 10, &mut rng).is_none());
    let mut buckets = Vec::new();
    for _ in 0..200 {
        let plan = next_scan(20, 3, 4, 10, &mut rng).unwrap();
        assert!(17 <= plan.bucket && plan.bucket <= 19);
        assert_eq!(plan.metric, 3);
        assert_eq!(plan.start, encode_prefix(plan.bucket, 3));
        assert_eq!(plan.end, encode_prefix(plan.bucket, 4));
        buckets.push(plan.bucket);
    }
    buckets.sort();
    buckets.dedup();
    assert_eq!(buckets, vec![17, 18, 19]);
}

#[test]
fn writer_fills_its_value() {
    let mut rng = XorShiftRng::seed_from_u64(2);
    let mut frontier = Frontier::new(64, 16, 2);
    let mut value = new_value(16);
    assert_eq!(value, vec![0; 16]);
    let key = next_put(&mut frontier, &mut rng, &mut value);
    assert_eq!(key, encode_key(0, 0, 0));
    assert_eq!(value.len(), 16);
    assert_ne!(value, vec![0; 16]);
    let first = value.clone();
    let key = next_put(&mut frontier, &mut rng, &mut value);
    assert_eq!(key, encode_key(0, 1, 0));
    assert_ne!(value, first);
}

#[test]
fn rows_are_counted_until_the_end() {
    let mut tally = RowTally::new();
    assert!(tally.count(ScanEvent::Row));
    assert!(tally.count(ScanEvent::Row));
    assert!(!tally.count(ScanEvent::Failed));
    assert!(!tally.count(ScanEvent::End));
    assert_eq!(tally.rows(), 2);
}

#[test]
fn latencies_are_recorded_per_window() {
    let mut stats = TsdbStats::new();
    assert_eq!(stats.take_scan_latencies(), vec![]);
    stats.record_scan(7, 0);
    stats.record_scan(2047, 3);
    stats.record_scan(7, 1);
    // From 2048 on, two neighbouring values are not told apart.
    stats.record_scan(4000, 0);
    stats.record_scan(4001, 0);
    stats.record_scan(u64::MAX, 0);
    stats.record_put(5);
    assert_eq!(
        stats.take_scan_latencies(),
        vec![(7, 2), (2047, 1), (4001, 2), (u64::MAX - 1, 1)]
    );
    assert_eq!(stats.take_scan_latencies(), vec![]);
    assert_eq!(stats.take_put_latencies(), vec![(5, 1)]);
    assert_eq!(stats.take_put_latencies(), vec![]);
    assert_eq!(stats.scans(), 6);
    assert_eq!(stats.scan_rows(), 4);
    assert_eq!(stats.scan_empty(), 4);
    assert_eq!(stats.puts(), 1);
}

fn metric(name: &str, labels: &[(&str, &str)], value: MetricValue) -> Metric {
    Metric {
        name: name.to_string(),
        labels: labels
            .iter()
            .map(|(k, v)| (k.to_string(), v.to_string()))
            .collect(),
        value,
    }
}

#[test]
fn metrics_count_as_numbers() {
    for (value, count) in [
        (MetricValue::Counter(9), 9),
        (MetricValue::Gauge(8), 8),
        (MetricValue::Gauge(-8), 0),
        (MetricValue::UpDownCounter(7), 7),
        (MetricValue::UpDownCounter(-1), 0),
        (MetricValue::Histogram, 0),
    ] {
        assert_eq!(metric_u64(&metric("m", &[], value)), count);
    }
}

#[test]
fn scalar_needs_the_name_and_no_labels() {
    let snap = Metrics {
        all: vec![
            metric("a", &[("k", "v")], MetricValue::Counter(1)),
            metric("b", &[], MetricValue::Counter(2)),
            metric("a", &[], MetricValue::Counter(3)),
        ],
    };
    assert_eq!(scalar(&snap, "a"), 3);
    assert_eq!(scalar(&snap, "b"), 2);
    assert_eq!(scalar(&snap, "c"), 0);
}

fn requests() -> Vec<Metric> {
    let name = "slatedb.object_store.request_count";
    let get = |component, api, n| {
        metric(
            name,
            &[("component", component), ("op", "get"), ("api", api)],
            MetricValue::Counter(n),
        )
    };
    vec![
        get("db", "get_range", 10),
        get("db", "get_ranges", 20),
        get("db", "head", 40),
        get("compactor", "get_range", 80),
        metric(
            name,
            &[("component", "db"), ("op", "put"), ("api", "get_range")],
            MetricValue::Counter(160),
        ),
        metric(
            "other",
            &[("component", "db"), ("op", "get"), ("api", "get_range")],
            MetricValue::Counter(320),
        ),
    ]
}

#[test]
fn range_reads_are_summed_by_component() {
    let snap = Metrics { all: requests() };
    assert_eq!(os_get_range(&snap, "db"), 30);
    assert_eq!(os_get_range(&snap, "compactor"), 80);
    assert_eq!(os_get_range(&snap, "nobody"), 0);
    assert_eq!(checked_range_reads(&snap, "db"), Some(30));
    let mut all = requests();
    all[0].value = MetricValue::Counter(u64::MAX - 20);
    let snap = Metrics { all };
    assert_eq!(checked_range_reads(&snap, "db"), Some(u64::MAX));
    let mut all = requests();
    all[0].value = MetricValue::Counter(u64::MAX - 19);
    let snap = Metrics { all };
    assert_eq!(checked_range_reads(&snap, "db"), None);
    assert_eq!(checked_range_reads(&snap, "compactor"), Some(80));
}

#[test]
fn window_without_user_writes_has_no_write_amplification() {
    let mut window = WindowStart::new(sample_metrics(&Metrics { all: vec![] }));
    let all = vec![
        metric("slatedb.db.wal_flush_bytes", &[], MetricValue::Counter(u64::MAX)),
        metric("slatedb.db.l0_flush_bytes", &[], MetricValue::Counter(u64::MAX)),
    ];
    let row = window.end_window(sample_metrics(&Metrics { all }), 0, 0);
    assert_eq!(row.cum_write_amp, None);
}

#[test]
fn window_reports_what_has_grown() {
    assert_eq!((WINDOW_SECS, DEFAULT_RUN_SECS), (10, 3600));
    let empty = sample_metrics(&Metrics { all: vec![] });
    let mut window = WindowStart::new(empty);
    let row = window.end_window(empty, 0, 0);
    assert_eq!(row.cum_write_amp, None);
    let mut all = requests();
    all.push(metric("slatedb.compactor.bytes_compacted", &[], MetricValue::Counter(300)));
    all.push(metric("slatedb.db.memtable_write_bytes", &[], MetricValue::Counter(100)));
    all.push(metric("slatedb.db.wal_flush_bytes", &[], MetricValue::Counter(110)));
    all.push(metric("slatedb.db.l0_flush_bytes", &[], MetricValue::Counter(90)));
    all.push(metric("slatedb.db.l0_sst_count", &[], MetricValue::Gauge(4)));
    all.push(metric("slatedb.db.segment_max_l0_sst_count", &[], MetricValue::Gauge(2)));
    all.push(metric("slatedb.db.backpressure_count", &[], MetricValue::Counter(5)));
    let sample = sample_metrics(&Metrics { all });
    let row = window.end_window(sample, 12, 34);
    assert_eq!(row.compaction_bytes_delta, 300);
    assert_eq!(
        row.cum_write_amp,
        Some(WriteAmp {
            stored: 500,
            user: 100
        })
    );
    assert_eq!((row.l0_sst_count, row.segment_max_l0), (4, 2));
    assert_eq!(row.backpressure_delta, 5);
    assert_eq!((row.read_get_range_delta, row.compactor_get_delta), (30, 80));
    assert_eq!((row.scans_delta, row.puts_delta), (12, 34));
    // Counts that were reset have not grown.
    let row = window.end_window(empty, 20, 40);
    assert_eq!(row.compaction_bytes_delta, 0);
    assert_eq!(row.backpressure_delta, 0);
    assert_eq!((row.scans_delta, row.puts_delta), (8, 6));
}
