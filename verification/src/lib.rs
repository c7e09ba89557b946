pub mod bytes;
pub mod cell;
pub mod error;
pub mod ondisk;
pub mod page;
pub mod ptrmap;
pub mod rwlock;
pub mod wal_format;
pub mod frame_index;
pub mod write_batch;
pub mod wal_shared;
pub mod checkpoint_state;
pub mod wal;
pub mod wal_append;
pub mod page_cache;
pub mod wal_checkpoint;
pub mod db_header;
pub mod bitmap;
pub mod pager_state;
pub mod savepoint;
pub mod pager;
pub mod header_ref;
pub mod rollback;
pub mod freelist;
pub mod vacuum;
pub mod create;
pub mod read;
pub mod spill;
pub mod flush;
pub mod commit;
pub mod pager_checkpoint;
pub mod transaction;
pub mod commit_tx;
pub mod commit_laws;
pub mod snapshot_laws;
pub mod log_file_laws;
pub mod checkpoint_laws;
pub mod cell_laws;
pub mod database_file_laws;
pub mod savepoint_laws;
pub mod commit_frame_laws;
pub mod freelist_laws;
pub mod create_laws;
pub mod transaction_laws;
pub mod spill_laws;
pub mod format_laws;
pub mod cache_laws;
pub mod checkpoint_progress_laws;
pub mod raw_frame_laws;
