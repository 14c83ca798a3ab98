use slatedb::db_stats::{
    DbStats, BACKPRESSURE_COUNT, IMMUTABLE_MEMTABLE_FLUSHES, L0_FLUSH_TOTAL_MS_LAST, L0_SST_COUNT,
    WAL_BUFFER_ESTIMATED_BYTES,
};
use slatedb::stats::{StatRegistry, StatValue};

#[test]
fn database_statistics_start_at_zero() {
    let mut registry = StatRegistry::new();
    let _stats = DbStats::new(&mut registry);
    assert_eq!(registry.len(), 67);
    assert_eq!(
        registry.lookup(IMMUTABLE_MEMTABLE_FLUSHES),
        Some(StatValue::Counter(0))
    );
    assert_eq!(
        registry.lookup(L0_FLUSH_TOTAL_MS_LAST),
        Some(StatValue::GaugeU64(0))
    );
    assert_eq!(registry.lookup(L0_SST_COUNT), Some(StatValue::GaugeI64(0)));
    assert_eq!(
        registry.lookup(WAL_BUFFER_ESTIMATED_BYTES),
        Some(StatValue::GaugeI64(0))
    );
    assert_eq!(registry.lookup(BACKPRESSURE_COUNT), Some(StatValue::Counter(0)));
    assert_eq!(registry.lookup("db/no_such_statistic"), None);
}

#[test]
fn names_have_the_prefix_of_the_database() {
    assert_eq!(IMMUTABLE_MEMTABLE_FLUSHES, "db/immutable_memtable_flushes");
    assert_eq!(L0_SST_COUNT, "db/l0_sst_count");
}

#[test]
fn lookup_reads_the_last_write() {
    let mut registry = StatRegistry::new();
    let stats = DbStats::new(&mut registry);
    stats.backpressure_count.inc(&mut registry);
    stats.backpressure_count.add(&mut registry, 41);
    assert_eq!(stats.backpressure_count.get(&registry), 42);
    assert_eq!(registry.lookup(BACKPRESSURE_COUNT), Some(StatValue::Counter(42)));
    stats.l0_flush_total_ms_last.set(&mut registry, 9);
    stats.l0_flush_total_ms_last.set(&mut registry, 7);
    assert_eq!(
        registry.lookup(L0_FLUSH_TOTAL_MS_LAST),
        Some(StatValue::GaugeU64(7))
    );
    stats.wal_buffer_estimated_bytes.set(&mut registry, -3);
    assert_eq!(
        registry.lookup(WAL_BUFFER_ESTIMATED_BYTES),
        Some(StatValue::GaugeI64(-3))
    );
    stats.show_l0_sst_count(&mut registry, 5);
    assert_eq!(registry.lookup(L0_SST_COUNT), Some(StatValue::GaugeI64(5)));
}

#[test]
fn counters_wrap_around() {
    let mut registry = StatRegistry::new();
    let stats = DbStats::new(&mut registry);
    stats.write_ops.add(&mut registry, u64::MAX);
    stats.write_ops.add(&mut registry, 3);
    assert_eq!(stats.write_ops.get(&registry), 2);
}

#[test]
fn later_registration_hides_an_earlier_one() {
    let mut registry = StatRegistry::new();
    let first = DbStats::new(&mut registry);
    let second = DbStats::new(&mut registry);
    assert_eq!(registry.len(), 134);
    first.get_requests.add(&mut registry, 5);
    second.get_requests.add(&mut registry, 1);
    assert_eq!(registry.lookup("db/get_requests"), Some(StatValue::Counter(1)));
    assert_eq!(first.get_requests.get(&registry), 5);
}

#[test]
fn every_statistic_has_a_name_of_its_own() {
    let mut names = vec![
        slatedb::db_stats::IMMUTABLE_MEMTABLE_FLUSHES,
        slatedb::db_stats::WAL_FLUSH_TOTAL_MS,
        slatedb::db_stats::WAL_FLUSH_TOTAL_MS_LAST,
        slatedb::db_stats::WAL_FLUSH_ROW_LOOP_MS,
        slatedb::db_stats::WAL_FLUSH_ROW_LOOP_MS_LAST,
        slatedb::db_stats::WAL_FLUSH_BUILD_MS,
        slatedb::db_stats::WAL_FLUSH_BUILD_MS_LAST,
        slatedb::db_stats::WAL_FLUSH_PUT_MS,
        slatedb::db_stats::WAL_FLUSH_PUT_MS_LAST,
        slatedb::db_stats::WAL_FLUSH_CACHE_MS,
        slatedb::db_stats::WAL_FLUSH_CACHE_MS_LAST,
        slatedb::db_stats::WAL_FLUSH_INPUT_ROWS_LAST,
        slatedb::db_stats::WAL_FLUSH_INPUT_BYTES,
        slatedb::db_stats::WAL_FLUSH_INPUT_BYTES_LAST,
        slatedb::db_stats::WAL_FLUSH_OUTPUT_BYTES,
        slatedb::db_stats::WAL_FLUSH_OUTPUT_BYTES_LAST,
        slatedb::db_stats::SST_FILTER_FALSE_POSITIVES,
        slatedb::db_stats::SST_FILTER_POSITIVES,
        slatedb::db_stats::SST_FILTER_NEGATIVES,
        slatedb::db_stats::BACKPRESSURE_COUNT,
        slatedb::db_stats::WAL_BUFFER_ESTIMATED_BYTES,
        slatedb::db_stats::WAL_BUFFER_FLUSHES,
        slatedb::db_stats::GET_REQUESTS,
        slatedb::db_stats::SCAN_REQUESTS,
        slatedb::db_stats::FLUSH_REQUESTS,
        slatedb::db_stats::WRITE_BATCH_COUNT,
        slatedb::db_stats::WRITE_OPS,
        slatedb::db_stats::TOTAL_MEM_SIZE_BYTES,
        slatedb::db_stats::L0_SST_COUNT,
        slatedb::db_stats::ACTIVE_MEMTABLE_BYTES,
        slatedb::db_stats::IMM_MEMTABLE_COUNT,
        slatedb::db_stats::IMM_MEMTABLE_BYTES,
        slatedb::db_stats::L0_FLUSH_TOTAL_MS,
        slatedb::db_stats::L0_FLUSH_TOTAL_MS_LAST,
        slatedb::db_stats::L0_FLUSH_WAL_WAIT_MS,
        slatedb::db_stats::L0_FLUSH_WAL_WAIT_MS_LAST,
        slatedb::db_stats::L0_FLUSH_ENCODE_MS,
        slatedb::db_stats::L0_FLUSH_ENCODE_MS_LAST,
        slatedb::db_stats::L0_FLUSH_ITER_SETUP_MS,
        slatedb::db_stats::L0_FLUSH_ITER_SETUP_MS_LAST,
        slatedb::db_stats::L0_FLUSH_ROW_LOOP_MS,
        slatedb::db_stats::L0_FLUSH_ROW_LOOP_MS_LAST,
        slatedb::db_stats::L0_FLUSH_FINISH_BLOCK_MS,
        slatedb::db_stats::L0_FLUSH_FINISH_BLOCK_MS_LAST,
        slatedb::db_stats::L0_FLUSH_FOOTER_MS,
        slatedb::db_stats::L0_FLUSH_FOOTER_MS_LAST,
        slatedb::db_stats::L0_FLUSH_WRITE_MS,
        slatedb::db_stats::L0_FLUSH_WRITE_MS_LAST,
        slatedb::db_stats::L0_FLUSH_PUT_MS,
        slatedb::db_stats::L0_FLUSH_PUT_MS_LAST,
        slatedb::db_stats::L0_FLUSH_CACHE_MS,
        slatedb::db_stats::L0_FLUSH_CACHE_MS_LAST,
        slatedb::db_stats::L0_FLUSH_PUBLISH_MS,
        slatedb::db_stats::L0_FLUSH_PUBLISH_MS_LAST,
        slatedb::db_stats::L0_FLUSH_MANIFEST_MS,
        slatedb::db_stats::L0_FLUSH_MANIFEST_MS_LAST,
        slatedb::db_stats::L0_FLUSH_INPUT_ROWS_LAST,
        slatedb::db_stats::L0_FLUSH_INPUT_BYTES_LAST,
        slatedb::db_stats::L0_FLUSH_INPUT_BYTES,
        slatedb::db_stats::L0_FLUSH_OUTPUT_BYTES_LAST,
        slatedb::db_stats::L0_FLUSH_OUTPUT_BYTES,
        slatedb::db_stats::L0_FLUSH_MANIFEST_RETRIES,
        slatedb::db_stats::L0_FLUSH_COMMIT_BATCH_SIZE_LAST,
        slatedb::db_stats::L0_FLUSH_BUILD_INFLIGHT,
        slatedb::db_stats::L0_FLUSH_UPLOAD_INFLIGHT,
        slatedb::db_stats::L0_FLUSH_BUILT_READY,
        slatedb::db_stats::L0_FLUSH_UPLOADED_READY,
    ];
    let mut registry = StatRegistry::new();
    let _stats = DbStats::new(&mut registry);
    for name in &names {
        assert!(registry.lookup(name).is_some());
        assert!(name.starts_with("db/"));
    }
    names.sort();
    names.dedup();
    assert_eq!(names.len(), 67);
}
