# turso_storage

The storage layer of an embedded SQL database: a page cache with a pager on top of it, and a
write-ahead log that several connections share. The file formats are those of SQLite.

`src/` is the library. Everything in it is verified with Verus against the contracts next to the
code. It performs no I/O: each long operation is a state machine whose steps either finish, or ask
the caller to read, write or sync something and to report the outcome.

- Pages and formats: `page`, `cell`, `ondisk`, `ptrmap`, `db_header`, `wal_format`, `bytes`
- The shared log: `rwlock`, `frame_index`, `wal_shared`, `checkpoint_state`
- One connection's log: `wal`, `wal_append`, `wal_checkpoint`, `write_batch`
- The pager: `page_cache`, `bitmap`, `pager`, `pager_state`, `header_ref`, `read`, `savepoint`,
  `rollback`, `freelist`, `vacuum`, `create`, `spill`, `flush`, `commit`, `commit_tx`,
  `pager_checkpoint`, `transaction`
- Properties that span several operations: `commit_laws`, `snapshot_laws`, `log_file_laws`,
  `checkpoint_laws`. Others stand as proof functions named `law_..` next to the code that they are
  about.

`app/` drives the state machines on real files. `tests/` runs them on files in memory.

The library calls `roaring` for the set of dirty pages and `rustc-hash` for the frame index. The
functions that make these calls are in `bitmap` and `frame_index`; each says what it takes for
granted of the crate.
