# slatedb

The flush pipelines of an LSM database on object storage, its key ranges and its scan cursor, and
the time-series load that measures them, verified with Verus.

- `src/` decides. Every background task is a state machine: a method for each thing that can
  happen, which returns what is to be told to whom and what is to be done next. The contracts say
  exactly which step follows, and that every request is answered once.
- `app/` runs the machines on tokio: it waits, reads and writes for them.
- `tests/` runs the library on concrete values.

| module | contents |
| --- | --- |
| `memtable_flusher::sequencer` | retires uploaded tables in flush order and grants checkpoints |
| `memtable_flusher::flusher` | dispatches frozen memtables and serves those who wait for them |
| `memtable_flusher::intake` | lets commands through to a background task, or refuses them |
| `mem_table_flush` | the bounded flush pipeline and the task around it |
| `db_state` | frozen memtables and the manifest of level 0 |
| `stats`, `db_stats` | statistics and their names |
| `range_util`, `db_iter`, `key_order` | key ranges, scans, and the order of keys |
| `tsdb` | keys, frontier, latencies and metrics of the time-series load |

Public proof functions whose names begin with `law_` state what holds of the library as a whole.
