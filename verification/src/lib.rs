pub mod db_iter;
pub mod db_state;
pub mod db_stats;
pub mod error;
pub mod key_order;
pub mod mem_table_flush;
pub mod mem_table_flush_laws;
pub mod memtable_flusher;
pub mod range_util;
pub mod stats;
mod text;
pub mod tsdb;
