# pg_rust

The storage engine and the transaction layer of a small relational database: pages, a
write-ahead log, a buffer pool, checkpoints, crash recovery, a commit log, snapshots and
table locks.

The library in `src/` is verified with Verus. It decides everything and performs no I/O:
an operation says what is to be read, written or waited for, and takes note of the
outcome. `app/` is ordinary Rust around it: files, threads, locks, environment variables.
`tests/` runs the library, most of it against files that are kept in memory.

## Layout

| Module | What it holds |
| --- | --- |
| `types`, `oid`, `txn_id`, `lsn_clock` | identifiers and the counters that give them out |
| `config`, `error` | configuration and errors |
| `text`, `codec`, `wire`, `checksum`, `keys` | numbers as text, fixed-width and variable-length integers, CRC-32, hash tables in key order |
| `wal` | records, segment files, the log as one byte stream, reading, writing with group commit, and the proofs that what is written reads back and that what is reported as durable is on disk |
| `superblock`, `freelist_meta`, `page` | the layouts of the metadata files and of the page header |
| `page_allocator`, `buffer_pool` | pages: handing them out, keeping them in memory |
| `checkpoint`, `recovery`, `engine` | checkpoints step by step, redo handlers, creating and recovering a database |
| `clog` | what a commit log is |
| `txn` | commit logs in memory and on disk, the transaction manager, snapshots, visibility, table locks, redo of transaction ends |

## What is proved

Every function states in its contract what it returns and changes. Beside the contracts,
public proof functions state what holds of the library as a whole, among them:

- the log reads back what was appended, after a crash, too, and whatever a torn or
  damaged record has left at its end (`wal::log::append_extends_log`,
  `record_joins_log`, `engine::recovered_log_goes_on`);
- what is reported as durable is on disk, across segments
  (`wal::durable::durable_records_survive`), and no page is written before the log
  (`buffer_pool::log_comes_before_data`);
- no transaction ID or OID is given out again after a restart
  (`engine::checkpointed_counters_are_past`, `recorded_xids_are_past`);
- the commit log on disk reads back what was recorded, whatever pages come and go
  (`txn::clog_buffer::last_recorded_state_reads_back`);
- a torn superblock update leaves the previous superblock in place
  (`superblock::torn_update_is_harmless`);
- taking pages out of memory and loading them again changes nothing that is read
  (`buffer_pool::eviction_loses_nothing`, `loading_changes_nothing`);
- a page is never handed out twice (`page_allocator::allocation_is_exclusive`), and
  recovery rebuilds the page allocator (`engine::allocator_is_recovered`) and the commit
  log (`txn::redo::ended_transactions_survive`);
- the superblock is updated only after everything before it went well
  (`checkpoint::superblock_comes_last`);
- snapshots are stable and hide unfinished work (`txn::visibility`);
- table locks that are held at the same time never conflict, and waiting is fair
  (`txn::lock_manager`).

## What is trusted

`crc32fast`, `bincode`, `smallvec` and `std::io::Error` are called through small wrappers
whose contracts Verus believes; each says so in its doc comment. The traits `CommitWal`
and `ClogAccessor` are also implemented outside the library, in `app/`.
