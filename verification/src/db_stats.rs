//! The statistics of a database.
use crate::stats::{Gauge, SignedGauge, StatCounter, StatEntry, StatKind, StatRegistry, StatValue};
use vstd::prelude::*;

verus! {

pub const IMMUTABLE_MEMTABLE_FLUSHES: &'static str = "db/immutable_memtable_flushes";

pub const WAL_FLUSH_TOTAL_MS: &'static str = "db/wal_flush_total_ms";

pub const WAL_FLUSH_TOTAL_MS_LAST: &'static str = "db/wal_flush_total_ms_last";

pub const WAL_FLUSH_ROW_LOOP_MS: &'static str = "db/wal_flush_row_loop_ms";

pub const WAL_FLUSH_ROW_LOOP_MS_LAST: &'static str = "db/wal_flush_row_loop_ms_last";

pub const WAL_FLUSH_BUILD_MS: &'static str = "db/wal_flush_build_ms";

pub const WAL_FLUSH_BUILD_MS_LAST: &'static str = "db/wal_flush_build_ms_last";

pub const WAL_FLUSH_PUT_MS: &'static str = "db/wal_flush_put_ms";

pub const WAL_FLUSH_PUT_MS_LAST: &'static str = "db/wal_flush_put_ms_last";

pub const WAL_FLUSH_CACHE_MS: &'static str = "db/wal_flush_cache_ms";

pub const WAL_FLUSH_CACHE_MS_LAST: &'static str = "db/wal_flush_cache_ms_last";

pub const WAL_FLUSH_INPUT_ROWS_LAST: &'static str = "db/wal_flush_input_rows_last";

pub const WAL_FLUSH_INPUT_BYTES: &'static str = "db/wal_flush_input_bytes";

pub const WAL_FLUSH_INPUT_BYTES_LAST: &'static str = "db/wal_flush_input_bytes_last";

pub const WAL_FLUSH_OUTPUT_BYTES: &'static str = "db/wal_flush_output_bytes";

pub const WAL_FLUSH_OUTPUT_BYTES_LAST: &'static str = "db/wal_flush_output_bytes_last";

pub const SST_FILTER_FALSE_POSITIVES: &'static str = "db/sst_filter_false_positives";

pub const SST_FILTER_POSITIVES: &'static str = "db/sst_filter_positives";

pub const SST_FILTER_NEGATIVES: &'static str = "db/sst_filter_negatives";

pub const BACKPRESSURE_COUNT: &'static str = "db/backpressure_count";

pub const WAL_BUFFER_ESTIMATED_BYTES: &'static str = "db/wal_buffer_estimated_bytes";

pub const WAL_BUFFER_FLUSHES: &'static str = "db/wal_buffer_flushes";

pub const GET_REQUESTS: &'static str = "db/get_requests";

pub const SCAN_REQUESTS: &'static str = "db/scan_requests";

pub const FLUSH_REQUESTS: &'static str = "db/flush_requests";

pub const WRITE_BATCH_COUNT: &'static str = "db/write_batch_count";

pub const WRITE_OPS: &'static str = "db/write_ops";

pub const TOTAL_MEM_SIZE_BYTES: &'static str = "db/total_mem_size_bytes";

pub const L0_SST_COUNT: &'static str = "db/l0_sst_count";

pub const ACTIVE_MEMTABLE_BYTES: &'static str = "db/active_memtable_bytes";

pub const IMM_MEMTABLE_COUNT: &'static str = "db/imm_memtable_count";

pub const IMM_MEMTABLE_BYTES: &'static str = "db/imm_memtable_bytes";

pub const L0_FLUSH_TOTAL_MS: &'static str = "db/l0_flush_total_ms";

pub const L0_FLUSH_TOTAL_MS_LAST: &'static str = "db/l0_flush_total_ms_last";

pub const L0_FLUSH_WAL_WAIT_MS: &'static str = "db/l0_flush_wal_wait_ms";

pub const L0_FLUSH_WAL_WAIT_MS_LAST: &'static str = "db/l0_flush_wal_wait_ms_last";

pub const L0_FLUSH_ENCODE_MS: &'static str = "db/l0_flush_encode_ms";

pub const L0_FLUSH_ENCODE_MS_LAST: &'static str = "db/l0_flush_encode_ms_last";

pub const L0_FLUSH_ITER_SETUP_MS: &'static str = "db/l0_flush_iter_setup_ms";

pub const L0_FLUSH_ITER_SETUP_MS_LAST: &'static str = "db/l0_flush_iter_setup_ms_last";

pub const L0_FLUSH_ROW_LOOP_MS: &'static str = "db/l0_flush_row_loop_ms";

pub const L0_FLUSH_ROW_LOOP_MS_LAST: &'static str = "db/l0_flush_row_loop_ms_last";

pub const L0_FLUSH_FINISH_BLOCK_MS: &'static str = "db/l0_flush_finish_block_ms";

pub const L0_FLUSH_FINISH_BLOCK_MS_LAST: &'static str = "db/l0_flush_finish_block_ms_last";

pub const L0_FLUSH_FOOTER_MS: &'static str = "db/l0_flush_footer_ms";

pub const L0_FLUSH_FOOTER_MS_LAST: &'static str = "db/l0_flush_footer_ms_last";

pub const L0_FLUSH_WRITE_MS: &'static str = "db/l0_flush_write_ms";

pub const L0_FLUSH_WRITE_MS_LAST: &'static str = "db/l0_flush_write_ms_last";

pub const L0_FLUSH_PUT_MS: &'static str = "db/l0_flush_put_ms";

pub const L0_FLUSH_PUT_MS_LAST: &'static str = "db/l0_flush_put_ms_last";

pub const L0_FLUSH_CACHE_MS: &'static str = "db/l0_flush_cache_ms";

pub const L0_FLUSH_CACHE_MS_LAST: &'static str = "db/l0_flush_cache_ms_last";

pub const L0_FLUSH_PUBLISH_MS: &'static str = "db/l0_flush_publish_ms";

pub const L0_FLUSH_PUBLISH_MS_LAST: &'static str = "db/l0_flush_publish_ms_last";

pub const L0_FLUSH_MANIFEST_MS: &'static str = "db/l0_flush_manifest_ms";

pub const L0_FLUSH_MANIFEST_MS_LAST: &'static str = "db/l0_flush_manifest_ms_last";

pub const L0_FLUSH_INPUT_ROWS_LAST: &'static str = "db/l0_flush_input_rows_last";

pub const L0_FLUSH_INPUT_BYTES_LAST: &'static str = "db/l0_flush_input_bytes_last";

pub const L0_FLUSH_INPUT_BYTES: &'static str = "db/l0_flush_input_bytes";

pub const L0_FLUSH_OUTPUT_BYTES_LAST: &'static str = "db/l0_flush_output_bytes_last";

pub const L0_FLUSH_OUTPUT_BYTES: &'static str = "db/l0_flush_output_bytes";

pub const L0_FLUSH_MANIFEST_RETRIES: &'static str = "db/l0_flush_manifest_retries";

pub const L0_FLUSH_COMMIT_BATCH_SIZE_LAST: &'static str = "db/l0_flush_commit_batch_size_last";

pub const L0_FLUSH_BUILD_INFLIGHT: &'static str = "db/l0_flush_build_inflight";

pub const L0_FLUSH_UPLOAD_INFLIGHT: &'static str = "db/l0_flush_upload_inflight";

pub const L0_FLUSH_BUILT_READY: &'static str = "db/l0_flush_built_ready";

pub const L0_FLUSH_UPLOADED_READY: &'static str = "db/l0_flush_uploaded_ready";


/// Handles of the statistics that a database keeps in a registry.
#[non_exhaustive]
#[derive(Clone, Copy, Debug)]
pub struct DbStats {
    pub immutable_memtable_flushes: StatCounter,
    pub wal_flush_total_ms: StatCounter,
    pub wal_flush_total_ms_last: Gauge,
    pub wal_flush_row_loop_ms: StatCounter,
    pub wal_flush_row_loop_ms_last: Gauge,
    pub wal_flush_build_ms: StatCounter,
    pub wal_flush_build_ms_last: Gauge,
    pub wal_flush_put_ms: StatCounter,
    pub wal_flush_put_ms_last: Gauge,
    pub wal_flush_cache_ms: StatCounter,
    pub wal_flush_cache_ms_last: Gauge,
    pub wal_flush_input_rows_last: Gauge,
    pub wal_flush_input_bytes: StatCounter,
    pub wal_flush_input_bytes_last: Gauge,
    pub wal_flush_output_bytes: StatCounter,
    pub wal_flush_output_bytes_last: Gauge,
    pub wal_buffer_estimated_bytes: SignedGauge,
    pub wal_buffer_flushes: StatCounter,
    pub sst_filter_false_positives: StatCounter,
    pub sst_filter_positives: StatCounter,
    pub sst_filter_negatives: StatCounter,
    pub backpressure_count: StatCounter,
    pub get_requests: StatCounter,
    pub scan_requests: StatCounter,
    pub flush_requests: StatCounter,
    pub write_batch_count: StatCounter,
    pub write_ops: StatCounter,
    pub total_mem_size_bytes: SignedGauge,
    pub l0_sst_count: SignedGauge,
    pub active_memtable_bytes: SignedGauge,
    pub imm_memtable_count: SignedGauge,
    pub imm_memtable_bytes: SignedGauge,
    pub l0_flush_total_ms: StatCounter,
    pub l0_flush_total_ms_last: Gauge,
    pub l0_flush_wal_wait_ms: StatCounter,
    pub l0_flush_wal_wait_ms_last: Gauge,
    pub l0_flush_encode_ms: StatCounter,
    pub l0_flush_encode_ms_last: Gauge,
    pub l0_flush_iter_setup_ms: StatCounter,
    pub l0_flush_iter_setup_ms_last: Gauge,
    pub l0_flush_row_loop_ms: StatCounter,
    pub l0_flush_row_loop_ms_last: Gauge,
    pub l0_flush_finish_block_ms: StatCounter,
    pub l0_flush_finish_block_ms_last: Gauge,
    pub l0_flush_footer_ms: StatCounter,
    pub l0_flush_footer_ms_last: Gauge,
    pub l0_flush_write_ms: StatCounter,
    pub l0_flush_write_ms_last: Gauge,
    pub l0_flush_put_ms: StatCounter,
    pub l0_flush_put_ms_last: Gauge,
    pub l0_flush_cache_ms: StatCounter,
    pub l0_flush_cache_ms_last: Gauge,
    pub l0_flush_publish_ms: StatCounter,
    pub l0_flush_publish_ms_last: Gauge,
    pub l0_flush_manifest_ms: StatCounter,
    pub l0_flush_manifest_ms_last: Gauge,
    pub l0_flush_input_rows_last: Gauge,
    pub l0_flush_input_bytes: StatCounter,
    pub l0_flush_input_bytes_last: Gauge,
    pub l0_flush_output_bytes: StatCounter,
    pub l0_flush_output_bytes_last: Gauge,
    pub l0_flush_manifest_retries: StatCounter,
    pub l0_flush_commit_batch_size_last: Gauge,
    pub l0_flush_build_inflight: SignedGauge,
    pub l0_flush_upload_inflight: SignedGauge,
    pub l0_flush_built_ready: SignedGauge,
    pub l0_flush_uploaded_ready: SignedGauge,
}

/// A counter before anything was counted.
pub open spec fn zero_counter(name: &'static str) -> StatEntry {
    StatEntry { name, value: StatValue::Counter(0) }
}

/// An unsigned gauge before anything was measured.
pub open spec fn zero_gauge(name: &'static str) -> StatEntry {
    StatEntry { name, value: StatValue::GaugeU64(0) }
}

/// A signed gauge before anything was measured.
pub open spec fn zero_signed_gauge(name: &'static str) -> StatEntry {
    StatEntry { name, value: StatValue::GaugeI64(0) }
}

/// The statistics of a database that nothing has happened to, in the order of registration.
pub open spec fn db_stat_entries() -> Seq<StatEntry> {
    seq![
        zero_counter(IMMUTABLE_MEMTABLE_FLUSHES),
        zero_counter(WAL_FLUSH_TOTAL_MS),
        zero_gauge(WAL_FLUSH_TOTAL_MS_LAST),
        zero_counter(WAL_FLUSH_ROW_LOOP_MS),
        zero_gauge(WAL_FLUSH_ROW_LOOP_MS_LAST),
        zero_counter(WAL_FLUSH_BUILD_MS),
        zero_gauge(WAL_FLUSH_BUILD_MS_LAST),
        zero_counter(WAL_FLUSH_PUT_MS),
        zero_gauge(WAL_FLUSH_PUT_MS_LAST),
        zero_counter(WAL_FLUSH_CACHE_MS),
        zero_gauge(WAL_FLUSH_CACHE_MS_LAST),
        zero_gauge(WAL_FLUSH_INPUT_ROWS_LAST),
        zero_counter(WAL_FLUSH_INPUT_BYTES),
        zero_gauge(WAL_FLUSH_INPUT_BYTES_LAST),
        zero_counter(WAL_FLUSH_OUTPUT_BYTES),
        zero_gauge(WAL_FLUSH_OUTPUT_BYTES_LAST),
        zero_signed_gauge(WAL_BUFFER_ESTIMATED_BYTES),
        zero_counter(WAL_BUFFER_FLUSHES),
        zero_counter(SST_FILTER_FALSE_POSITIVES),
        zero_counter(SST_FILTER_POSITIVES),
        zero_counter(SST_FILTER_NEGATIVES),
        zero_counter(BACKPRESSURE_COUNT),
        zero_counter(GET_REQUESTS),
        zero_counter(SCAN_REQUESTS),
        zero_counter(FLUSH_REQUESTS),
        zero_counter(WRITE_BATCH_COUNT),
        zero_counter(WRITE_OPS),
        zero_signed_gauge(TOTAL_MEM_SIZE_BYTES),
        zero_signed_gauge(L0_SST_COUNT),
        zero_signed_gauge(ACTIVE_MEMTABLE_BYTES),
        zero_signed_gauge(IMM_MEMTABLE_COUNT),
        zero_signed_gauge(IMM_MEMTABLE_BYTES),
        zero_counter(L0_FLUSH_TOTAL_MS),
        zero_gauge(L0_FLUSH_TOTAL_MS_LAST),
        zero_counter(L0_FLUSH_WAL_WAIT_MS),
        zero_gauge(L0_FLUSH_WAL_WAIT_MS_LAST),
        zero_counter(L0_FLUSH_ENCODE_MS),
        zero_gauge(L0_FLUSH_ENCODE_MS_LAST),
        zero_counter(L0_FLUSH_ITER_SETUP_MS),
        zero_gauge(L0_FLUSH_ITER_SETUP_MS_LAST),
        zero_counter(L0_FLUSH_ROW_LOOP_MS),
        zero_gauge(L0_FLUSH_ROW_LOOP_MS_LAST),
        zero_counter(L0_FLUSH_FINISH_BLOCK_MS),
        zero_gauge(L0_FLUSH_FINISH_BLOCK_MS_LAST),
        zero_counter(L0_FLUSH_FOOTER_MS),
        zero_gauge(L0_FLUSH_FOOTER_MS_LAST),
        zero_counter(L0_FLUSH_WRITE_MS),
        zero_gauge(L0_FLUSH_WRITE_MS_LAST),
        zero_counter(L0_FLUSH_PUT_MS),
        zero_gauge(L0_FLUSH_PUT_MS_LAST),
        zero_counter(L0_FLUSH_CACHE_MS),
        zero_gauge(L0_FLUSH_CACHE_MS_LAST),
        zero_counter(L0_FLUSH_PUBLISH_MS),
        zero_gauge(L0_FLUSH_PUBLISH_MS_LAST),
        zero_counter(L0_FLUSH_MANIFEST_MS),
        zero_gauge(L0_FLUSH_MANIFEST_MS_LAST),
        zero_gauge(L0_FLUSH_INPUT_ROWS_LAST),
        zero_counter(L0_FLUSH_INPUT_BYTES),
        zero_gauge(L0_FLUSH_INPUT_BYTES_LAST),
        zero_counter(L0_FLUSH_OUTPUT_BYTES),
        zero_gauge(L0_FLUSH_OUTPUT_BYTES_LAST),
        zero_counter(L0_FLUSH_MANIFEST_RETRIES),
        zero_gauge(L0_FLUSH_COMMIT_BATCH_SIZE_LAST),
        zero_signed_gauge(L0_FLUSH_BUILD_INFLIGHT),
        zero_signed_gauge(L0_FLUSH_UPLOAD_INFLIGHT),
        zero_signed_gauge(L0_FLUSH_BUILT_READY),
        zero_signed_gauge(L0_FLUSH_UPLOADED_READY),
    ]
}

broadcast proof fn lemma_append_one(a: Seq<StatEntry>, b: Seq<StatEntry>, entry: StatEntry)
    ensures
        #[trigger] (a + b.push(entry)) == (a + b).push(entry),
{
    assert(a + b.push(entry) =~= (a + b).push(entry));
}

impl DbStats {
    /// Whether the handles refer to the statistics of one database, the first of which is kept at
    /// `base`.
    pub open spec fn registered_at(self, base: int) -> bool {
        &&& self.immutable_memtable_flushes@ == base + 0
        &&& self.wal_flush_total_ms@ == base + 1
        &&& self.wal_flush_total_ms_last@ == base + 2
        &&& self.wal_flush_row_loop_ms@ == base + 3
        &&& self.wal_flush_row_loop_ms_last@ == base + 4
        &&& self.wal_flush_build_ms@ == base + 5
        &&& self.wal_flush_build_ms_last@ == base + 6
        &&& self.wal_flush_put_ms@ == base + 7
        &&& self.wal_flush_put_ms_last@ == base + 8
        &&& self.wal_flush_cache_ms@ == base + 9
        &&& self.wal_flush_cache_ms_last@ == base + 10
        &&& self.wal_flush_input_rows_last@ == base + 11
        &&& self.wal_flush_input_bytes@ == base + 12
        &&& self.wal_flush_input_bytes_last@ == base + 13
        &&& self.wal_flush_output_bytes@ == base + 14
        &&& self.wal_flush_output_bytes_last@ == base + 15
        &&& self.wal_buffer_estimated_bytes@ == base + 16
        &&& self.wal_buffer_flushes@ == base + 17
        &&& self.sst_filter_false_positives@ == base + 18
        &&& self.sst_filter_positives@ == base + 19
        &&& self.sst_filter_negatives@ == base + 20
        &&& self.backpressure_count@ == base + 21
        &&& self.get_requests@ == base + 22
        &&& self.scan_requests@ == base + 23
        &&& self.flush_requests@ == base + 24
        &&& self.write_batch_count@ == base + 25
        &&& self.write_ops@ == base + 26
        &&& self.total_mem_size_bytes@ == base + 27
        &&& self.l0_sst_count@ == base + 28
        &&& self.active_memtable_bytes@ == base + 29
        &&& self.imm_memtable_count@ == base + 30
        &&& self.imm_memtable_bytes@ == base + 31
        &&& self.l0_flush_total_ms@ == base + 32
        &&& self.l0_flush_total_ms_last@ == base + 33
        &&& self.l0_flush_wal_wait_ms@ == base + 34
        &&& self.l0_flush_wal_wait_ms_last@ == base + 35
        &&& self.l0_flush_encode_ms@ == base + 36
        &&& self.l0_flush_encode_ms_last@ == base + 37
        &&& self.l0_flush_iter_setup_ms@ == base + 38
        &&& self.l0_flush_iter_setup_ms_last@ == base + 39
        &&& self.l0_flush_row_loop_ms@ == base + 40
        &&& self.l0_flush_row_loop_ms_last@ == base + 41
        &&& self.l0_flush_finish_block_ms@ == base + 42
        &&& self.l0_flush_finish_block_ms_last@ == base + 43
        &&& self.l0_flush_footer_ms@ == base + 44
        &&& self.l0_flush_footer_ms_last@ == base + 45
        &&& self.l0_flush_write_ms@ == base + 46
        &&& self.l0_flush_write_ms_last@ == base + 47
        &&& self.l0_flush_put_ms@ == base + 48
        &&& self.l0_flush_put_ms_last@ == base + 49
        &&& self.l0_flush_cache_ms@ == base + 50
        &&& self.l0_flush_cache_ms_last@ == base + 51
        &&& self.l0_flush_publish_ms@ == base + 52
        &&& self.l0_flush_publish_ms_last@ == base + 53
        &&& self.l0_flush_manifest_ms@ == base + 54
        &&& self.l0_flush_manifest_ms_last@ == base + 55
        &&& self.l0_flush_input_rows_last@ == base + 56
        &&& self.l0_flush_input_bytes@ == base + 57
        &&& self.l0_flush_input_bytes_last@ == base + 58
        &&& self.l0_flush_output_bytes@ == base + 59
        &&& self.l0_flush_output_bytes_last@ == base + 60
        &&& self.l0_flush_manifest_retries@ == base + 61
        &&& self.l0_flush_commit_batch_size_last@ == base + 62
        &&& self.l0_flush_build_inflight@ == base + 63
        &&& self.l0_flush_upload_inflight@ == base + 64
        &&& self.l0_flush_built_ready@ == base + 65
        &&& self.l0_flush_uploaded_ready@ == base + 66
    }

    /// Whether every handle refers to a statistic of its own kind.
    #[verifier::opaque]
    pub open spec fn fits(self, kinds: Seq<StatKind>) -> bool {
        &&& crate::stats::is_kind(kinds, self.immutable_memtable_flushes@, StatKind::Counter)
        &&& crate::stats::is_kind(kinds, self.wal_flush_total_ms@, StatKind::Counter)
        &&& crate::stats::is_kind(kinds, self.wal_flush_total_ms_last@, StatKind::GaugeU64)
        &&& crate::stats::is_kind(kinds, self.wal_flush_row_loop_ms@, StatKind::Counter)
        &&& crate::stats::is_kind(kinds, self.wal_flush_row_loop_ms_last@, StatKind::GaugeU64)
        &&& crate::stats::is_kind(kinds, self.wal_flush_build_ms@, StatKind::Counter)
        &&& crate::stats::is_kind(kinds, self.wal_flush_build_ms_last@, StatKind::GaugeU64)
        &&& crate::stats::is_kind(kinds, self.wal_flush_put_ms@, StatKind::Counter)
        &&& crate::stats::is_kind(kinds, self.wal_flush_put_ms_last@, StatKind::GaugeU64)
        &&& crate::stats::is_kind(kinds, self.wal_flush_cache_ms@, StatKind::Counter)
        &&& crate::stats::is_kind(kinds, self.wal_flush_cache_ms_last@, StatKind::GaugeU64)
        &&& crate::stats::is_kind(kinds, self.wal_flush_input_rows_last@, StatKind::GaugeU64)
        &&& crate::stats::is_kind(kinds, self.wal_flush_input_bytes@, StatKind::Counter)
        &&& crate::stats::is_kind(kinds, self.wal_flush_input_bytes_last@, StatKind::GaugeU64)
        &&& crate::stats::is_kind(kinds, self.wal_flush_output_bytes@, StatKind::Counter)
        &&& crate::stats::is_kind(kinds, self.wal_flush_output_bytes_last@, StatKind::GaugeU64)
        &&& crate::stats::is_kind(kinds, self.wal_buffer_estimated_bytes@, StatKind::GaugeI64)
        &&& crate::stats::is_kind(kinds, self.wal_buffer_flushes@, StatKind::Counter)
        &&& crate::stats::is_kind(kinds, self.sst_filter_false_positives@, StatKind::Counter)
        &&& crate::stats::is_kind(kinds, self.sst_filter_positives@, StatKind::Counter)
        &&& crate::stats::is_kind(kinds, self.sst_filter_negatives@, StatKind::Counter)
        &&& crate::stats::is_kind(kinds, self.backpressure_count@, StatKind::Counter)
        &&& crate::stats::is_kind(kinds, self.get_requests@, StatKind::Counter)
        &&& crate::stats::is_kind(kinds, self.scan_requests@, StatKind::Counter)
        &&& crate::stats::is_kind(kinds, self.flush_requests@, StatKind::Counter)
        &&& crate::stats::is_kind(kinds, self.write_batch_count@, StatKind::Counter)
        &&& crate::stats::is_kind(kinds, self.write_ops@, StatKind::Counter)
        &&& crate::stats::is_kind(kinds, self.total_mem_size_bytes@, StatKind::GaugeI64)
        &&& crate::stats::is_kind(kinds, self.l0_sst_count@, StatKind::GaugeI64)
        &&& crate::stats::is_kind(kinds, self.active_memtable_bytes@, StatKind::GaugeI64)
        &&& crate::stats::is_kind(kinds, self.imm_memtable_count@, StatKind::GaugeI64)
        &&& crate::stats::is_kind(kinds, self.imm_memtable_bytes@, StatKind::GaugeI64)
        &&& crate::stats::is_kind(kinds, self.l0_flush_total_ms@, StatKind::Counter)
        &&& crate::stats::is_kind(kinds, self.l0_flush_total_ms_last@, StatKind::GaugeU64)
        &&& crate::stats::is_kind(kinds, self.l0_flush_wal_wait_ms@, StatKind::Counter)
        &&& crate::stats::is_kind(kinds, self.l0_flush_wal_wait_ms_last@, StatKind::GaugeU64)
        &&& crate::stats::is_kind(kinds, self.l0_flush_encode_ms@, StatKind::Counter)
        &&& crate::stats::is_kind(kinds, self.l0_flush_encode_ms_last@, StatKind::GaugeU64)
        &&& crate::stats::is_kind(kinds, self.l0_flush_iter_setup_ms@, StatKind::Counter)
        &&& crate::stats::is_kind(kinds, self.l0_flush_iter_setup_ms_last@, StatKind::GaugeU64)
        &&& crate::stats::is_kind(kinds, self.l0_flush_row_loop_ms@, StatKind::Counter)
        &&& crate::stats::is_kind(kinds, self.l0_flush_row_loop_ms_last@, StatKind::GaugeU64)
        &&& crate::stats::is_kind(kinds, self.l0_flush_finish_block_ms@, StatKind::Counter)
        &&& crate::stats::is_kind(kinds, self.l0_flush_finish_block_ms_last@, StatKind::GaugeU64)
        &&& crate::stats::is_kind(kinds, self.l0_flush_footer_ms@, StatKind::Counter)
        &&& crate::stats::is_kind(kinds, self.l0_flush_footer_ms_last@, StatKind::GaugeU64)
        &&& crate::stats::is_kind(kinds, self.l0_flush_write_ms@, StatKind::Counter)
        &&& crate::stats::is_kind(kinds, self.l0_flush_write_ms_last@, StatKind::GaugeU64)
        &&& crate::stats::is_kind(kinds, self.l0_flush_put_ms@, StatKind::Counter)
        &&& crate::stats::is_kind(kinds, self.l0_flush_put_ms_last@, StatKind::GaugeU64)
        &&& crate::stats::is_kind(kinds, self.l0_flush_cache_ms@, StatKind::Counter)
        &&& crate::stats::is_kind(kinds, self.l0_flush_cache_ms_last@, StatKind::GaugeU64)
        &&& crate::stats::is_kind(kinds, self.l0_flush_publish_ms@, StatKind::Counter)
        &&& crate::stats::is_kind(kinds, self.l0_flush_publish_ms_last@, StatKind::GaugeU64)
        &&& crate::stats::is_kind(kinds, self.l0_flush_manifest_ms@, StatKind::Counter)
        &&& crate::stats::is_kind(kinds, self.l0_flush_manifest_ms_last@, StatKind::GaugeU64)
        &&& crate::stats::is_kind(kinds, self.l0_flush_input_rows_last@, StatKind::GaugeU64)
        &&& crate::stats::is_kind(kinds, self.l0_flush_input_bytes@, StatKind::Counter)
        &&& crate::stats::is_kind(kinds, self.l0_flush_input_bytes_last@, StatKind::GaugeU64)
        &&& crate::stats::is_kind(kinds, self.l0_flush_output_bytes@, StatKind::Counter)
        &&& crate::stats::is_kind(kinds, self.l0_flush_output_bytes_last@, StatKind::GaugeU64)
        &&& crate::stats::is_kind(kinds, self.l0_flush_manifest_retries@, StatKind::Counter)
        &&& crate::stats::is_kind(kinds, self.l0_flush_commit_batch_size_last@, StatKind::GaugeU64)
        &&& crate::stats::is_kind(kinds, self.l0_flush_build_inflight@, StatKind::GaugeI64)
        &&& crate::stats::is_kind(kinds, self.l0_flush_upload_inflight@, StatKind::GaugeI64)
        &&& crate::stats::is_kind(kinds, self.l0_flush_built_ready@, StatKind::GaugeI64)
        &&& crate::stats::is_kind(kinds, self.l0_flush_uploaded_ready@, StatKind::GaugeI64)
    }

    proof fn lemma_fits(self, before: Seq<StatEntry>)
        requires
            self.registered_at(before.len() as int),
        ensures
            self.fits(crate::stats::kinds(before + db_stat_entries())),
    {
        reveal(DbStats::fits);
        let all = before + db_stat_entries();
        let base = before.len() as int;
        let own = db_stat_entries();
        let kinds = crate::stats::kinds(all);
        assert(own.len() == 67);
        assert forall|slot: int| base <= slot < base + 67 implies #[trigger] kinds[slot]
            == crate::stats::kind_of(own[slot - base].value) by {
            assert(all[slot] == own[slot - base]);
        }
    }

    /// Registers the statistics of a database, all of them at zero.
    #[verifier::rlimit(60)]
    #[verifier::spinoff_prover]
    pub fn new(registry: &mut StatRegistry) -> (stats: DbStats)
        ensures
            final(registry)@ == old(registry)@ + db_stat_entries(),
            stats.registered_at(old(registry)@.len() as int),
            stats.fits(crate::stats::kinds(final(registry)@)),
    {
        broadcast use lemma_append_one;

        assert(registry@ + Seq::<StatEntry>::empty() =~= registry@);
        let immutable_memtable_flushes = registry.register_counter(IMMUTABLE_MEMTABLE_FLUSHES);
        let wal_flush_total_ms = registry.register_counter(WAL_FLUSH_TOTAL_MS);
        let wal_flush_total_ms_last = registry.register_gauge_u64(WAL_FLUSH_TOTAL_MS_LAST);
        let wal_flush_row_loop_ms = registry.register_counter(WAL_FLUSH_ROW_LOOP_MS);
        let wal_flush_row_loop_ms_last = registry.register_gauge_u64(WAL_FLUSH_ROW_LOOP_MS_LAST);
        let wal_flush_build_ms = registry.register_counter(WAL_FLUSH_BUILD_MS);
        let wal_flush_build_ms_last = registry.register_gauge_u64(WAL_FLUSH_BUILD_MS_LAST);
        let wal_flush_put_ms = registry.register_counter(WAL_FLUSH_PUT_MS);
        let wal_flush_put_ms_last = registry.register_gauge_u64(WAL_FLUSH_PUT_MS_LAST);
        let wal_flush_cache_ms = registry.register_counter(WAL_FLUSH_CACHE_MS);
        let wal_flush_cache_ms_last = registry.register_gauge_u64(WAL_FLUSH_CACHE_MS_LAST);
        let wal_flush_input_rows_last = registry.register_gauge_u64(WAL_FLUSH_INPUT_ROWS_LAST);
        let wal_flush_input_bytes = registry.register_counter(WAL_FLUSH_INPUT_BYTES);
        let wal_flush_input_bytes_last = registry.register_gauge_u64(WAL_FLUSH_INPUT_BYTES_LAST);
        let wal_flush_output_bytes = registry.register_counter(WAL_FLUSH_OUTPUT_BYTES);
        let wal_flush_output_bytes_last = registry.register_gauge_u64(WAL_FLUSH_OUTPUT_BYTES_LAST);
        let wal_buffer_estimated_bytes = registry.register_gauge_i64(WAL_BUFFER_ESTIMATED_BYTES);
        let wal_buffer_flushes = registry.register_counter(WAL_BUFFER_FLUSHES);
        let sst_filter_false_positives = registry.register_counter(SST_FILTER_FALSE_POSITIVES);
        let sst_filter_positives = registry.register_counter(SST_FILTER_POSITIVES);
        let sst_filter_negatives = registry.register_counter(SST_FILTER_NEGATIVES);
        let backpressure_count = registry.register_counter(BACKPRESSURE_COUNT);
        let get_requests = registry.register_counter(GET_REQUESTS);
        let scan_requests = registry.register_counter(SCAN_REQUESTS);
        let flush_requests = registry.register_counter(FLUSH_REQUESTS);
        let write_batch_count = registry.register_counter(WRITE_BATCH_COUNT);
        let write_ops = registry.register_counter(WRITE_OPS);
        let total_mem_size_bytes = registry.register_gauge_i64(TOTAL_MEM_SIZE_BYTES);
        let l0_sst_count = registry.register_gauge_i64(L0_SST_COUNT);
        let active_memtable_bytes = registry.register_gauge_i64(ACTIVE_MEMTABLE_BYTES);
        let imm_memtable_count = registry.register_gauge_i64(IMM_MEMTABLE_COUNT);
        let imm_memtable_bytes = registry.register_gauge_i64(IMM_MEMTABLE_BYTES);
        let l0_flush_total_ms = registry.register_counter(L0_FLUSH_TOTAL_MS);
        let l0_flush_total_ms_last = registry.register_gauge_u64(L0_FLUSH_TOTAL_MS_LAST);
        let l0_flush_wal_wait_ms = registry.register_counter(L0_FLUSH_WAL_WAIT_MS);
        let l0_flush_wal_wait_ms_last = registry.register_gauge_u64(L0_FLUSH_WAL_WAIT_MS_LAST);
        let l0_flush_encode_ms = registry.register_counter(L0_FLUSH_ENCODE_MS);
        let l0_flush_encode_ms_last = registry.register_gauge_u64(L0_FLUSH_ENCODE_MS_LAST);
        let l0_flush_iter_setup_ms = registry.register_counter(L0_FLUSH_ITER_SETUP_MS);
        let l0_flush_iter_setup_ms_last = registry.register_gauge_u64(L0_FLUSH_ITER_SETUP_MS_LAST);
        let l0_flush_row_loop_ms = registry.register_counter(L0_FLUSH_ROW_LOOP_MS);
        let l0_flush_row_loop_ms_last = registry.register_gauge_u64(L0_FLUSH_ROW_LOOP_MS_LAST);
        let l0_flush_finish_block_ms = registry.register_counter(L0_FLUSH_FINISH_BLOCK_MS);
        let l0_flush_finish_block_ms_last = registry.register_gauge_u64(L0_FLUSH_FINISH_BLOCK_MS_LAST);
        let l0_flush_footer_ms = registry.register_counter(L0_FLUSH_FOOTER_MS);
        let l0_flush_footer_ms_last = registry.register_gauge_u64(L0_FLUSH_FOOTER_MS_LAST);
        let l0_flush_write_ms = registry.register_counter(L0_FLUSH_WRITE_MS);
        let l0_flush_write_ms_last = registry.register_gauge_u64(L0_FLUSH_WRITE_MS_LAST);
        let l0_flush_put_ms = registry.register_counter(L0_FLUSH_PUT_MS);
        let l0_flush_put_ms_last = registry.register_gauge_u64(L0_FLUSH_PUT_MS_LAST);
        let l0_flush_cache_ms = registry.register_counter(L0_FLUSH_CACHE_MS);
        let l0_flush_cache_ms_last = registry.register_gauge_u64(L0_FLUSH_CACHE_MS_LAST);
        let l0_flush_publish_ms = registry.register_counter(L0_FLUSH_PUBLISH_MS);
        let l0_flush_publish_ms_last = registry.register_gauge_u64(L0_FLUSH_PUBLISH_MS_LAST);
        let l0_flush_manifest_ms = registry.register_counter(L0_FLUSH_MANIFEST_MS);
        let l0_flush_manifest_ms_last = registry.register_gauge_u64(L0_FLUSH_MANIFEST_MS_LAST);
        let l0_flush_input_rows_last = registry.register_gauge_u64(L0_FLUSH_INPUT_ROWS_LAST);
        let l0_flush_input_bytes = registry.register_counter(L0_FLUSH_INPUT_BYTES);
        let l0_flush_input_bytes_last = registry.register_gauge_u64(L0_FLUSH_INPUT_BYTES_LAST);
        let l0_flush_output_bytes = registry.register_counter(L0_FLUSH_OUTPUT_BYTES);
        let l0_flush_output_bytes_last = registry.register_gauge_u64(L0_FLUSH_OUTPUT_BYTES_LAST);
        let l0_flush_manifest_retries = registry.register_counter(L0_FLUSH_MANIFEST_RETRIES);
        let l0_flush_commit_batch_size_last = registry.register_gauge_u64(L0_FLUSH_COMMIT_BATCH_SIZE_LAST);
        let l0_flush_build_inflight = registry.register_gauge_i64(L0_FLUSH_BUILD_INFLIGHT);
        let l0_flush_upload_inflight = registry.register_gauge_i64(L0_FLUSH_UPLOAD_INFLIGHT);
        let l0_flush_built_ready = registry.register_gauge_i64(L0_FLUSH_BUILT_READY);
        let l0_flush_uploaded_ready = registry.register_gauge_i64(L0_FLUSH_UPLOADED_READY);
        let stats = DbStats {
            immutable_memtable_flushes,
            wal_flush_total_ms,
            wal_flush_total_ms_last,
            wal_flush_row_loop_ms,
            wal_flush_row_loop_ms_last,
            wal_flush_build_ms,
            wal_flush_build_ms_last,
            wal_flush_put_ms,
            wal_flush_put_ms_last,
            wal_flush_cache_ms,
            wal_flush_cache_ms_last,
            wal_flush_input_rows_last,
            wal_flush_input_bytes,
            wal_flush_input_bytes_last,
            wal_flush_output_bytes,
            wal_flush_output_bytes_last,
            wal_buffer_estimated_bytes,
            wal_buffer_flushes,
            sst_filter_false_positives,
            sst_filter_positives,
            sst_filter_negatives,
            backpressure_count,
            get_requests,
            scan_requests,
            flush_requests,
            write_batch_count,
            write_ops,
            total_mem_size_bytes,
            l0_sst_count,
            active_memtable_bytes,
            imm_memtable_count,
            imm_memtable_bytes,
            l0_flush_total_ms,
            l0_flush_total_ms_last,
            l0_flush_wal_wait_ms,
            l0_flush_wal_wait_ms_last,
            l0_flush_encode_ms,
            l0_flush_encode_ms_last,
            l0_flush_iter_setup_ms,
            l0_flush_iter_setup_ms_last,
            l0_flush_row_loop_ms,
            l0_flush_row_loop_ms_last,
            l0_flush_finish_block_ms,
            l0_flush_finish_block_ms_last,
            l0_flush_footer_ms,
            l0_flush_footer_ms_last,
            l0_flush_write_ms,
            l0_flush_write_ms_last,
            l0_flush_put_ms,
            l0_flush_put_ms_last,
            l0_flush_cache_ms,
            l0_flush_cache_ms_last,
            l0_flush_publish_ms,
            l0_flush_publish_ms_last,
            l0_flush_manifest_ms,
            l0_flush_manifest_ms_last,
            l0_flush_input_rows_last,
            l0_flush_input_bytes,
            l0_flush_input_bytes_last,
            l0_flush_output_bytes,
            l0_flush_output_bytes_last,
            l0_flush_manifest_retries,
            l0_flush_commit_batch_size_last,
            l0_flush_build_inflight,
            l0_flush_upload_inflight,
            l0_flush_built_ready,
            l0_flush_uploaded_ready,
        };
        proof {
            assert(registry@ == old(registry)@ + db_stat_entries());
            stats.lemma_fits(old(registry)@);
        }
        stats
    }
}

impl DbStats {
    /// Shows the number of tables in level 0, as the manifest that was just merged has it.
    pub fn show_l0_sst_count(&self, registry: &mut StatRegistry, l0_len: usize)
        requires
            self.fits(crate::stats::kinds(old(registry)@)),
        ensures
            final(registry)@ == crate::stats::with_value(
                old(registry)@,
                self.l0_sst_count@,
                StatValue::GaugeI64(l0_len as i64),
            ),
            crate::stats::kinds(final(registry)@) == crate::stats::kinds(old(registry)@),
    {
        broadcast use crate::stats::lemma_kinds_kept;

        proof {
            reveal(DbStats::fits);
            let slot = self.l0_sst_count@;
            assert(crate::stats::kinds(registry@)[slot] == crate::stats::kind_of(
                registry@[slot].value,
            ));
        }
        self.l0_sst_count.set(registry, l0_len as i64);
    }
}

/// Every statistic is registered under its own name, at zero and as what it is.
pub proof fn law_statistics_have_their_names(
    stats: DbStats,
    before: Seq<StatEntry>,
    entries: Seq<StatEntry>,
)
    requires
        stats.registered_at(before.len() as int),
        entries == before + db_stat_entries(),
    ensures
        entries.len() == before.len() + 67,
        entries[stats.immutable_memtable_flushes@] == (StatEntry { name: "db/immutable_memtable_flushes", value: StatValue::Counter(0) }),
        entries[stats.wal_flush_total_ms@] == (StatEntry { name: "db/wal_flush_total_ms", value: StatValue::Counter(0) }),
        entries[stats.wal_flush_total_ms_last@] == (StatEntry { name: "db/wal_flush_total_ms_last", value: StatValue::GaugeU64(0) }),
        entries[stats.wal_flush_row_loop_ms@] == (StatEntry { name: "db/wal_flush_row_loop_ms", value: StatValue::Counter(0) }),
        entries[stats.wal_flush_row_loop_ms_last@] == (StatEntry { name: "db/wal_flush_row_loop_ms_last", value: StatValue::GaugeU64(0) }),
        entries[stats.wal_flush_build_ms@] == (StatEntry { name: "db/wal_flush_build_ms", value: StatValue::Counter(0) }),
        entries[stats.wal_flush_build_ms_last@] == (StatEntry { name: "db/wal_flush_build_ms_last", value: StatValue::GaugeU64(0) }),
        entries[stats.wal_flush_put_ms@] == (StatEntry { name: "db/wal_flush_put_ms", value: StatValue::Counter(0) }),
        entries[stats.wal_flush_put_ms_last@] == (StatEntry { name: "db/wal_flush_put_ms_last", value: StatValue::GaugeU64(0) }),
        entries[stats.wal_flush_cache_ms@] == (StatEntry { name: "db/wal_flush_cache_ms", value: StatValue::Counter(0) }),
        entries[stats.wal_flush_cache_ms_last@] == (StatEntry { name: "db/wal_flush_cache_ms_last", value: StatValue::GaugeU64(0) }),
        entries[stats.wal_flush_input_rows_last@] == (StatEntry { name: "db/wal_flush_input_rows_last", value: StatValue::GaugeU64(0) }),
        entries[stats.wal_flush_input_bytes@] == (StatEntry { name: "db/wal_flush_input_bytes", value: StatValue::Counter(0) }),
        entries[stats.wal_flush_input_bytes_last@] == (StatEntry { name: "db/wal_flush_input_bytes_last", value: StatValue::GaugeU64(0) }),
        entries[stats.wal_flush_output_bytes@] == (StatEntry { name: "db/wal_flush_output_bytes", value: StatValue::Counter(0) }),
        entries[stats.wal_flush_output_bytes_last@] == (StatEntry { name: "db/wal_flush_output_bytes_last", value: StatValue::GaugeU64(0) }),
        entries[stats.wal_buffer_estimated_bytes@] == (StatEntry { name: "db/wal_buffer_estimated_bytes", value: StatValue::GaugeI64(0) }),
        entries[stats.wal_buffer_flushes@] == (StatEntry { name: "db/wal_buffer_flushes", value: StatValue::Counter(0) }),
        entries[stats.sst_filter_false_positives@] == (StatEntry { name: "db/sst_filter_false_positives", value: StatValue::Counter(0) }),
        entries[stats.sst_filter_positives@] == (StatEntry { name: "db/sst_filter_positives", value: StatValue::Counter(0) }),
        entries[stats.sst_filter_negatives@] == (StatEntry { name: "db/sst_filter_negatives", value: StatValue::Counter(0) }),
        entries[stats.backpressure_count@] == (StatEntry { name: "db/backpressure_count", value: StatValue::Counter(0) }),
        entries[stats.get_requests@] == (StatEntry { name: "db/get_requests", value: StatValue::Counter(0) }),
        entries[stats.scan_requests@] == (StatEntry { name: "db/scan_requests", value: StatValue::Counter(0) }),
        entries[stats.flush_requests@] == (StatEntry { name: "db/flush_requests", value: StatValue::Counter(0) }),
        entries[stats.write_batch_count@] == (StatEntry { name: "db/write_batch_count", value: StatValue::Counter(0) }),
        entries[stats.write_ops@] == (StatEntry { name: "db/write_ops", value: StatValue::Counter(0) }),
        entries[stats.total_mem_size_bytes@] == (StatEntry { name: "db/total_mem_size_bytes", value: StatValue::GaugeI64(0) }),
        entries[stats.l0_sst_count@] == (StatEntry { name: "db/l0_sst_count", value: StatValue::GaugeI64(0) }),
        entries[stats.active_memtable_bytes@] == (StatEntry { name: "db/active_memtable_bytes", value: StatValue::GaugeI64(0) }),
        entries[stats.imm_memtable_count@] == (StatEntry { name: "db/imm_memtable_count", value: StatValue::GaugeI64(0) }),
        entries[stats.imm_memtable_bytes@] == (StatEntry { name: "db/imm_memtable_bytes", value: StatValue::GaugeI64(0) }),
        entries[stats.l0_flush_total_ms@] == (StatEntry { name: "db/l0_flush_total_ms", value: StatValue::Counter(0) }),
        entries[stats.l0_flush_total_ms_last@] == (StatEntry { name: "db/l0_flush_total_ms_last", value: StatValue::GaugeU64(0) }),
        entries[stats.l0_flush_wal_wait_ms@] == (StatEntry { name: "db/l0_flush_wal_wait_ms", value: StatValue::Counter(0) }),
        entries[stats.l0_flush_wal_wait_ms_last@] == (StatEntry { name: "db/l0_flush_wal_wait_ms_last", value: StatValue::GaugeU64(0) }),
        entries[stats.l0_flush_encode_ms@] == (StatEntry { name: "db/l0_flush_encode_ms", value: StatValue::Counter(0) }),
        entries[stats.l0_flush_encode_ms_last@] == (StatEntry { name: "db/l0_flush_encode_ms_last", value: StatValue::GaugeU64(0) }),
        entries[stats.l0_flush_iter_setup_ms@] == (StatEntry { name: "db/l0_flush_iter_setup_ms", value: StatValue::Counter(0) }),
        entries[stats.l0_flush_iter_setup_ms_last@] == (StatEntry { name: "db/l0_flush_iter_setup_ms_last", value: StatValue::GaugeU64(0) }),
        entries[stats.l0_flush_row_loop_ms@] == (StatEntry { name: "db/l0_flush_row_loop_ms", value: StatValue::Counter(0) }),
        entries[stats.l0_flush_row_loop_ms_last@] == (StatEntry { name: "db/l0_flush_row_loop_ms_last", value: StatValue::GaugeU64(0) }),
        entries[stats.l0_flush_finish_block_ms@] == (StatEntry { name: "db/l0_flush_finish_block_ms", value: StatValue::Counter(0) }),
        entries[stats.l0_flush_finish_block_ms_last@] == (StatEntry { name: "db/l0_flush_finish_block_ms_last", value: StatValue::GaugeU64(0) }),
        entries[stats.l0_flush_footer_ms@] == (StatEntry { name: "db/l0_flush_footer_ms", value: StatValue::Counter(0) }),
        entries[stats.l0_flush_footer_ms_last@] == (StatEntry { name: "db/l0_flush_footer_ms_last", value: StatValue::GaugeU64(0) }),
        entries[stats.l0_flush_write_ms@] == (StatEntry { name: "db/l0_flush_write_ms", value: StatValue::Counter(0) }),
        entries[stats.l0_flush_write_ms_last@] == (StatEntry { name: "db/l0_flush_write_ms_last", value: StatValue::GaugeU64(0) }),
        entries[stats.l0_flush_put_ms@] == (StatEntry { name: "db/l0_flush_put_ms", value: StatValue::Counter(0) }),
        entries[stats.l0_flush_put_ms_last@] == (StatEntry { name: "db/l0_flush_put_ms_last", value: StatValue::GaugeU64(0) }),
        entries[stats.l0_flush_cache_ms@] == (StatEntry { name: "db/l0_flush_cache_ms", value: StatValue::Counter(0) }),
        entries[stats.l0_flush_cache_ms_last@] == (StatEntry { name: "db/l0_flush_cache_ms_last", value: StatValue::GaugeU64(0) }),
        entries[stats.l0_flush_publish_ms@] == (StatEntry { name: "db/l0_flush_publish_ms", value: StatValue::Counter(0) }),
        entries[stats.l0_flush_publish_ms_last@] == (StatEntry { name: "db/l0_flush_publish_ms_last", value: StatValue::GaugeU64(0) }),
        entries[stats.l0_flush_manifest_ms@] == (StatEntry { name: "db/l0_flush_manifest_ms", value: StatValue::Counter(0) }),
        entries[stats.l0_flush_manifest_ms_last@] == (StatEntry { name: "db/l0_flush_manifest_ms_last", value: StatValue::GaugeU64(0) }),
        entries[stats.l0_flush_input_rows_last@] == (StatEntry { name: "db/l0_flush_input_rows_last", value: StatValue::GaugeU64(0) }),
        entries[stats.l0_flush_input_bytes@] == (StatEntry { name: "db/l0_flush_input_bytes", value: StatValue::Counter(0) }),
        entries[stats.l0_flush_input_bytes_last@] == (StatEntry { name: "db/l0_flush_input_bytes_last", value: StatValue::GaugeU64(0) }),
        entries[stats.l0_flush_output_bytes@] == (StatEntry { name: "db/l0_flush_output_bytes", value: StatValue::Counter(0) }),
        entries[stats.l0_flush_output_bytes_last@] == (StatEntry { name: "db/l0_flush_output_bytes_last", value: StatValue::GaugeU64(0) }),
        entries[stats.l0_flush_manifest_retries@] == (StatEntry { name: "db/l0_flush_manifest_retries", value: StatValue::Counter(0) }),
        entries[stats.l0_flush_commit_batch_size_last@] == (StatEntry { name: "db/l0_flush_commit_batch_size_last", value: StatValue::GaugeU64(0) }),
        entries[stats.l0_flush_build_inflight@] == (StatEntry { name: "db/l0_flush_build_inflight", value: StatValue::GaugeI64(0) }),
        entries[stats.l0_flush_upload_inflight@] == (StatEntry { name: "db/l0_flush_upload_inflight", value: StatValue::GaugeI64(0) }),
        entries[stats.l0_flush_built_ready@] == (StatEntry { name: "db/l0_flush_built_ready", value: StatValue::GaugeI64(0) }),
        entries[stats.l0_flush_uploaded_ready@] == (StatEntry { name: "db/l0_flush_uploaded_ready", value: StatValue::GaugeI64(0) }),
{
    let base = before.len() as int;
    let own = db_stat_entries();
    assert(own.len() == 67);
    assert forall|slot: int| base <= slot < base + 67 implies #[trigger] entries[slot] == own[slot
        - base] by {}
}

/// Every statistic has a place of its own, in the order of registration.
pub proof fn law_statistics_have_their_places(stats: DbStats, base: int)
    requires
        stats.registered_at(base),
    ensures
        stats.immutable_memtable_flushes@ == base + 0,
        stats.wal_flush_total_ms@ == base + 1,
        stats.wal_flush_total_ms_last@ == base + 2,
        stats.wal_flush_row_loop_ms@ == base + 3,
        stats.wal_flush_row_loop_ms_last@ == base + 4,
        stats.wal_flush_build_ms@ == base + 5,
        stats.wal_flush_build_ms_last@ == base + 6,
        stats.wal_flush_put_ms@ == base + 7,
        stats.wal_flush_put_ms_last@ == base + 8,
        stats.wal_flush_cache_ms@ == base + 9,
        stats.wal_flush_cache_ms_last@ == base + 10,
        stats.wal_flush_input_rows_last@ == base + 11,
        stats.wal_flush_input_bytes@ == base + 12,
        stats.wal_flush_input_bytes_last@ == base + 13,
        stats.wal_flush_output_bytes@ == base + 14,
        stats.wal_flush_output_bytes_last@ == base + 15,
        stats.wal_buffer_estimated_bytes@ == base + 16,
        stats.wal_buffer_flushes@ == base + 17,
        stats.sst_filter_false_positives@ == base + 18,
        stats.sst_filter_positives@ == base + 19,
        stats.sst_filter_negatives@ == base + 20,
        stats.backpressure_count@ == base + 21,
        stats.get_requests@ == base + 22,
        stats.scan_requests@ == base + 23,
        stats.flush_requests@ == base + 24,
        stats.write_batch_count@ == base + 25,
        stats.write_ops@ == base + 26,
        stats.total_mem_size_bytes@ == base + 27,
        stats.l0_sst_count@ == base + 28,
        stats.active_memtable_bytes@ == base + 29,
        stats.imm_memtable_count@ == base + 30,
        stats.imm_memtable_bytes@ == base + 31,
        stats.l0_flush_total_ms@ == base + 32,
        stats.l0_flush_total_ms_last@ == base + 33,
        stats.l0_flush_wal_wait_ms@ == base + 34,
        stats.l0_flush_wal_wait_ms_last@ == base + 35,
        stats.l0_flush_encode_ms@ == base + 36,
        stats.l0_flush_encode_ms_last@ == base + 37,
        stats.l0_flush_iter_setup_ms@ == base + 38,
        stats.l0_flush_iter_setup_ms_last@ == base + 39,
        stats.l0_flush_row_loop_ms@ == base + 40,
        stats.l0_flush_row_loop_ms_last@ == base + 41,
        stats.l0_flush_finish_block_ms@ == base + 42,
        stats.l0_flush_finish_block_ms_last@ == base + 43,
        stats.l0_flush_footer_ms@ == base + 44,
        stats.l0_flush_footer_ms_last@ == base + 45,
        stats.l0_flush_write_ms@ == base + 46,
        stats.l0_flush_write_ms_last@ == base + 47,
        stats.l0_flush_put_ms@ == base + 48,
        stats.l0_flush_put_ms_last@ == base + 49,
        stats.l0_flush_cache_ms@ == base + 50,
        stats.l0_flush_cache_ms_last@ == base + 51,
        stats.l0_flush_publish_ms@ == base + 52,
        stats.l0_flush_publish_ms_last@ == base + 53,
        stats.l0_flush_manifest_ms@ == base + 54,
        stats.l0_flush_manifest_ms_last@ == base + 55,
        stats.l0_flush_input_rows_last@ == base + 56,
        stats.l0_flush_input_bytes@ == base + 57,
        stats.l0_flush_input_bytes_last@ == base + 58,
        stats.l0_flush_output_bytes@ == base + 59,
        stats.l0_flush_output_bytes_last@ == base + 60,
        stats.l0_flush_manifest_retries@ == base + 61,
        stats.l0_flush_commit_batch_size_last@ == base + 62,
        stats.l0_flush_build_inflight@ == base + 63,
        stats.l0_flush_upload_inflight@ == base + 64,
        stats.l0_flush_built_ready@ == base + 65,
        stats.l0_flush_uploaded_ready@ == base + 66,
{
}

} // verus!
