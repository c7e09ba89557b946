//! The write-ahead log, driven through pagers whose files are byte vectors.

use turso_storage::checkpoint_state::{CheckpointMode, CheckpointResult};
use turso_storage::commit::CommitMode;
use turso_storage::commit_tx::CommitTxStep;
use turso_storage::create::{default_page1, CreateStep};
use turso_storage::error::LimboError;
use turso_storage::flush::CacheFlushStep;
use turso_storage::freelist::{AllocateStep, Turn};
use turso_storage::page_cache::PageCache;
use turso_storage::pager::Pager;
use turso_storage::pager_checkpoint::{CheckpointArgs, PagerCheckpointStep};
use turso_storage::pager_state::{
    CommitState, CreateBTreeFlags, IOResult, IoOutcome, IoRequest, LogStart, PageSource, SyncMode,
};
use turso_storage::ondisk::PageSize;
use turso_storage::read::{ReadPlan, ReadStep, SpillOutcome};
use turso_storage::rwlock::READMARK_NOT_USED;
use turso_storage::wal::{BeginRead, WalFile};
use turso_storage::wal_append::PreparedFrames;
use turso_storage::wal_checkpoint::{CheckpointIo, CheckpointStep};
use turso_storage::wal_format::{WalHeader, WAL_MAGIC_LE};
use turso_storage::wal_shared::WalFileShared;

const PAGE: usize = 4096;
const TABLE: usize = 2;
const COUNT_AT: usize = 200;

struct Db {
    shared: WalFileShared,
    db: Vec<u8>,
    wal: Vec<u8>,
    random: u32,
}

fn write_at(file: &mut Vec<u8>, offset: usize, bytes: &[u8]) {
    if file.len() < offset + bytes.len() {
        file.resize(offset + bytes.len(), 0);
    }
    file[offset..offset + bytes.len()].copy_from_slice(bytes);
}

fn read_at(file: &[u8], offset: usize, len: usize) -> (Vec<u8>, usize) {
    let mut buf = vec![0u8; len];
    let mut n = 0;
    while n < len && offset + n < file.len() {
        buf[n] = file[offset + n];
        n += 1;
    }
    (buf, n)
}

impl Db {
    fn random(&mut self) -> u32 {
        self.random = self.random.wrapping_mul(1664525).wrapping_add(1013904223);
        self.random
    }

    fn start(&mut self) -> LogStart {
        LogStart { big_endian: false, salt_1: self.random(), salt_2: self.random() }
    }

    fn bytes_for(&self, plan: ReadPlan, page: usize) -> (Vec<u8>, usize) {
        match plan {
            ReadPlan::Frame { offset, .. } => read_at(&self.wal, offset as usize, PAGE),
            ReadPlan::Database => read_at(&self.db, (page - 1) * PAGE, PAGE),
        }
    }

    fn load(&mut self, pager: &mut Pager, page: usize) {
        match pager.read_page(&self.shared, page as i64, SpillOutcome::NotTried).unwrap() {
            ReadStep::Ready => {}
            ReadStep::Started(plan) => {
                let res = self.bytes_for(plan, page);
                pager.complete_read_page(&self.shared, page, plan, Ok(res)).unwrap();
            }
            step => panic!("page {page}: {step:?}"),
        }
    }

    fn write_frames(&mut self, frames: &PreparedFrames) {
        let mut at = frames.offset as usize;
        for buf in &frames.bufs {
            write_at(&mut self.wal, at, buf);
            at += buf.len();
        }
    }

    fn checkpoint_io(&mut self, wal: &mut WalFile, list: Vec<CheckpointIo>) {
        for io in list {
            match io {
                CheckpointIo::ReadFrame { page_id, frame_id, offset } => {
                    let index = wal
                        .ongoing_checkpoint
                        .inflight_reads
                        .iter()
                        .position(|r| {
                            r.page_id == page_id && r.frame_id == frame_id && r.outcome.is_none()
                        })
                        .unwrap();
                    let (buf, n) = read_at(&self.wal, offset as usize, PAGE);
                    assert_eq!(n, PAGE);
                    wal.checkpoint_read_done(index, Ok(buf));
                }
                CheckpointIo::WritePages { pages } => {
                    for (page, bytes) in &pages {
                        write_at(&mut self.db, (page - 1) * PAGE, bytes);
                    }
                    let index = wal
                        .ongoing_checkpoint
                        .inflight_writes
                        .iter()
                        .position(|w| !w.done)
                        .unwrap();
                    wal.checkpoint_write_done(index, Ok(()));
                }
            }
        }
    }

    fn perform(&mut self, pager: &mut Pager, request: IoRequest) {
        match request {
            IoRequest::Yield | IoRequest::SyncWal => {}
            IoRequest::ReadPage { page_no } => self.load(pager, page_no),
            IoRequest::WriteWalHeader { bytes } => write_at(&mut self.wal, 0, &bytes),
            IoRequest::TruncateWal => self.wal.clear(),
            IoRequest::SyncDb => pager.db_sync_finished(),
            IoRequest::TruncateDb { size } => self.db.truncate(size as usize),
            IoRequest::WriteFrames { frames } => self.write_frames(&frames),
            IoRequest::WriteCommitFrames => {
                for frames in &pager.commit_info.prepared_frames {
                    self.write_frames(frames);
                }
            }
            IoRequest::ReadEvicted => {
                for index in 0..pager.commit_info.page_sources.len() {
                    let wanted = match &pager.commit_info.page_sources[index] {
                        PageSource::Evicted { page_id, plan, data: None } => Some((*page_id, *plan)),
                        _ => None,
                    };
                    if let Some((page, plan)) = wanted {
                        let (buf, _) = self.bytes_for(plan, page);
                        pager.commit_read_done(index, Ok(buf));
                    }
                }
            }
            IoRequest::WriteDbPages { pages } => {
                for p in &pages {
                    write_at(&mut self.db, (p.page_id as usize - 1) * PAGE, &p.data);
                }
            }
            IoRequest::Checkpoint { io } => {
                let wal = pager.wal.as_mut().unwrap();
                self.checkpoint_io(wal, io);
            }
        }
    }

    fn connect(&mut self) -> Pager {
        let (checksum, max_frame) = self.shared.last_checksum_and_max_frame();
        let wal = WalFile::new(checksum, max_frame);
        let mut pager = Pager::new(Some(wal), PageCache::new(100), None);
        pager.set_page_size(PageSize::new(PAGE as u32).unwrap());
        pager.set_reserved_space_bytes(0);
        pager
    }

    fn begin(&mut self, pager: &mut Pager) {
        match pager.begin_read_tx(&mut self.shared, 0).unwrap() {
            BeginRead::Started(_) => {}
            wait => panic!("{wait:?}"),
        }
        let salt = self.random();
        match pager.begin_write_tx(&mut self.shared, salt, true, 0).unwrap() {
            IOResult::Done(()) => {}
            IOResult::IO(io) => panic!("{io:?}"),
        }
    }

    fn commit(&mut self, pager: &mut Pager) {
        let mode = CommitMode {
            auto_checkpoint_disabled: false,
            sync_mode: SyncMode::Full,
            data_sync_retry: false,
            start: self.start(),
        };
        let mut encoded = Vec::new();
        let mut outcome = IoOutcome::Pending;
        loop {
            if let CommitState::PrepareFrames { .. } = pager.commit_info.state {
                encoded = pager.commit_input();
            }
            let salt = self.random();
            let size = self.db.len() as u64;
            let step = pager
                .commit_tx(&mut self.shared, false, mode, &encoded, outcome, salt, size)
                .unwrap();
            match step {
                CommitTxStep::Continue => {}
                CommitTxStep::Io(io) => {
                    self.perform(pager, io);
                    outcome = IoOutcome::Succeeded;
                }
                CommitTxStep::Committed { finished: false } => {}
                CommitTxStep::Committed { finished: true } | CommitTxStep::Done => break,
            }
        }
    }

    fn create_table(&mut self, pager: &mut Pager) {
        self.begin(pager);
        let mut turn = Turn::Enter;
        loop {
            let flags = CreateBTreeFlags::new_table();
            let step = pager.btree_create(&self.shared, &flags, turn).unwrap();
            turn = Turn::Enter;
            match step {
                CreateStep::Continue => {}
                CreateStep::Allocating(AllocateStep::Continue) => turn = Turn::Proceed,
                CreateStep::Allocating(AllocateStep::Read { page_no }) => {
                    self.load(pager, page_no);
                    turn = Turn::Proceed;
                }
                CreateStep::Allocating(step) => panic!("{step:?}"),
                CreateStep::Read { page_no } => self.load(pager, page_no),
                CreateStep::Done { root } => {
                    assert_eq!(root as usize, TABLE);
                    break;
                }
            }
        }
        self.commit(pager);
    }

    fn insert(&mut self, pager: &mut Pager, rows: u32) {
        self.begin(pager);
        self.load(pager, 1);
        self.load(pager, TABLE);
        let mut page = pager.page_cache.take(TABLE);
        pager.add_dirty(&mut page);
        let count = page.inner.read_u32_no_offset(COUNT_AT);
        page.inner.write_u32_no_offset(COUNT_AT, count + rows);
        pager.page_cache.put(TABLE, page);
        self.commit(pager);
    }

    fn bulk_inserts(&mut self, pager: &mut Pager, n_txns: usize, rows_per_txn: u32) {
        for _ in 0..n_txns {
            self.insert(pager, rows_per_txn);
        }
    }

    fn count_test_table(&mut self, pager: &mut Pager) -> u32 {
        self.load(pager, TABLE);
        pager.page_cache.peek(TABLE).unwrap().inner.read_u32_no_offset(COUNT_AT)
    }

    fn cacheflush(&mut self, pager: &mut Pager) {
        let start = self.start();
        let mut outcome = IoOutcome::Pending;
        loop {
            let encoded = match pager.flush_input() {
                Some(input) => input.data,
                None => Vec::new(),
            };
            match pager.cacheflush(&mut self.shared, start, encoded, outcome).unwrap() {
                CacheFlushStep::Continue => {}
                CacheFlushStep::Io(io) => {
                    self.perform(pager, io);
                    outcome = IoOutcome::Succeeded;
                }
                CacheFlushStep::Read { page_id, .. } => self.load(pager, page_id),
                CacheFlushStep::Write(frames) => {
                    self.write_frames(&frames);
                    pager.frames_written(&frames.metadata, frames.epoch);
                }
                CacheFlushStep::Done => break,
            }
        }
    }

    fn try_checkpoint(
        &mut self,
        pager: &mut Pager,
        mode: CheckpointMode,
    ) -> Result<CheckpointResult, LimboError> {
        loop {
            let args = CheckpointArgs {
                mode,
                sync_mode: SyncMode::Full,
                clear_page_cache: true,
                salt_2: self.random(),
                db_file_size: self.db.len() as u64,
            };
            match pager.checkpoint(&mut self.shared, args)? {
                PagerCheckpointStep::Continue => {}
                PagerCheckpointStep::Io(io) => self.perform(pager, io),
                PagerCheckpointStep::Done(result) => return Ok(result),
            }
        }
    }

    fn run_checkpoint_until_done(
        &mut self,
        pager: &mut Pager,
        mode: CheckpointMode,
    ) -> CheckpointResult {
        self.try_checkpoint(pager, mode).unwrap()
    }

    fn wal_checkpoint(
        &mut self,
        pager: &mut Pager,
        mode: CheckpointMode,
    ) -> Result<CheckpointResult, LimboError> {
        loop {
            let salt = self.random();
            let mut wal = pager.wal.take().unwrap();
            let step = wal.checkpoint(&mut self.shared, &pager.page_cache, mode, salt);
            if let Ok(CheckpointStep::Io(io)) = step {
                self.checkpoint_io(&mut wal, io);
                pager.wal = Some(wal);
                continue;
            }
            pager.wal = Some(wal);
            match step? {
                CheckpointStep::Done(mut result) => {
                    result.release_guard(&mut self.shared);
                    return Ok(result);
                }
                _ => {}
            }
        }
    }

    fn wal_begin_read(&mut self, pager: &mut Pager) -> u64 {
        let wal = pager.wal.as_mut().unwrap();
        match wal.begin_read_tx(&mut self.shared, 0).unwrap() {
            BeginRead::Started(_) => wal.get_max_frame(),
            wait => panic!("{wait:?}"),
        }
    }

    fn wal_end_read(&mut self, pager: &mut Pager) {
        pager.wal.as_mut().unwrap().end_read_tx(&mut self.shared);
    }

    fn wal_begin_write(&mut self, pager: &mut Pager) -> Result<(), LimboError> {
        let salt = self.random();
        pager.wal.as_mut().unwrap().begin_write_tx(&mut self.shared, salt)
    }
}

fn get_database() -> Db {
    let mut db = Db {
        shared: WalFileShared::new_shared(false),
        db: Vec::new(),
        wal: Vec::new(),
        random: 7,
    };
    let (checksum, max_frame) = db.shared.last_checksum_and_max_frame();
    let wal = WalFile::new(checksum, max_frame);
    let mut pager = Pager::new(Some(wal), PageCache::new(100), Some(default_page1(None)));
    loop {
        match pager.allocate_page1(0).unwrap() {
            IOResult::Done(id) => {
                assert_eq!(id, 1);
                break;
            }
            IOResult::IO(io) => db.perform(&mut pager, io),
        }
    }
    assert!(pager.db_initialized());
    assert_eq!(db.db.len(), PAGE);
    db
}

const PASSIVE: CheckpointMode = CheckpointMode::Passive { upper_bound_inclusive: None };
const TRUNCATE: CheckpointMode = CheckpointMode::Truncate { upper_bound_inclusive: None };

#[test]
fn test_wal_truncate_checkpoint() {
    let mut db = get_database();
    let mut conn = db.connect();
    db.create_table(&mut conn);
    for _i in 0..25 {
        db.insert(&mut conn, 3);
    }
    db.cacheflush(&mut conn);
    let bytes_before = db.wal.len();
    db.run_checkpoint_until_done(&mut conn, TRUNCATE);
    assert_eq!(conn.wal_state(&db.shared).unwrap().max_frame, 0);
    let bytes_after = db.wal.len();
    assert_ne!(bytes_before, bytes_after, "WAL file should not have been empty before checkpoint");
    assert_eq!(
        bytes_after, 0,
        "WAL file should be truncated to 0 bytes, but is {bytes_after} bytes"
    );
}

#[test]
fn restart_checkpoint_reset_wal_state_handling() {
    let mut db = get_database();
    let mut conn = db.connect();
    db.create_table(&mut conn);
    db.bulk_inserts(&mut conn, 20, 3);
    db.cacheflush(&mut conn);

    let before = db.shared.wal_header;
    let mx_before = db.shared.max_frame;
    let backfill_before = db.shared.nbackfills;
    assert!(mx_before > 0);
    assert_eq!(backfill_before, 0);
    let size_before = db.wal.len();
    let res = db.run_checkpoint_until_done(&mut conn, CheckpointMode::Restart);
    assert_eq!(res.wal_max_frame, mx_before);
    assert_eq!(res.wal_total_backfilled, mx_before);
    assert_eq!(res.wal_checkpoint_backfilled, mx_before);

    let after = db.shared.wal_header;
    assert_eq!(
        after.checkpoint_seq,
        before.checkpoint_seq.wrapping_add(1),
        "checkpoint_seq must increment on RESTART"
    );
    assert_eq!(after.salt_1, before.salt_1.wrapping_add(1), "salt_1 is incremented");
    assert_ne!(after.salt_2, before.salt_2, "salt_2 is randomized");
    assert_eq!(db.shared.max_frame, 0, "mxFrame reset to 0 after RESTART");
    assert_eq!(db.shared.nbackfills, 0, "nBackfill reset to 0 after RESTART");
    assert_eq!(size_before, db.wal.len(), "RESTART must not change WAL file size");

    db.insert(&mut conn, 1);
    assert_eq!(db.shared.max_frame, 1, "first append after RESTART starts at frame 1");
}

#[test]
fn test_wal_passive_partial_then_complete() {
    let mut db = get_database();
    let mut conn1 = db.connect();
    let mut conn2 = db.connect();
    db.create_table(&mut conn1);
    db.bulk_inserts(&mut conn1, 15, 2);
    db.cacheflush(&mut conn1);

    // Force a read transaction that will freeze a lower read mark
    let readmark = db.wal_begin_read(&mut conn2);

    // generate more frames that the reader will not see.
    db.bulk_inserts(&mut conn1, 15, 2);
    db.cacheflush(&mut conn1);

    // Run passive checkpoint, expect partial
    let res1 = db.run_checkpoint_until_done(&mut conn1, PASSIVE);
    let max_before = db.shared.max_frame;
    assert_eq!(res1.wal_max_frame, max_before);
    assert!(
        res1.wal_total_backfilled < res1.wal_max_frame,
        "Partial backfill expected, {} : {}",
        res1.wal_total_backfilled,
        res1.wal_max_frame
    );
    assert_eq!(
        res1.wal_total_backfilled, readmark,
        "Checkpointed frames should match read mark"
    );
    // Release reader
    db.wal_end_read(&mut conn2);

    // Second passive checkpoint should finish
    let res2 = db.run_checkpoint_until_done(&mut conn1, PASSIVE);
    assert_eq!(
        res2.wal_total_backfilled, res2.wal_max_frame,
        "Second checkpoint completes remaining frames"
    );
}

#[test]
fn test_wal_restart_blocks_readers() {
    let mut db = get_database();
    let mut conn1 = db.connect();
    let mut conn2 = db.connect();

    // Start a read transaction
    db.wal_begin_read(&mut conn2);
    let e = db.wal_checkpoint(&mut conn1, CheckpointMode::Restart);
    assert!(
        matches!(e, Err(LimboError::Busy)),
        "reader is holding readmark0 we should return Busy"
    );
    conn2.end_read_tx(&mut db.shared);

    db.create_table(&mut conn1);
    for _i in 0..10 {
        db.insert(&mut conn1, 1);
    }
    // now that we have some frames to checkpoint, try again
    match conn2.begin_read_tx(&mut db.shared, 0).unwrap() {
        BeginRead::Started(_) => {}
        wait => panic!("{wait:?}"),
    }
    match db.wal_checkpoint(&mut conn1, CheckpointMode::Restart) {
        Ok(_) => panic!("Checkpoint should not have succeeded"),
        Err(e) => assert!(
            matches!(e, LimboError::Busy),
            "should return busy if we have readers"
        ),
    }
}

#[test]
fn test_wal_read_marks_after_restart() {
    let mut db = get_database();
    let mut conn = db.connect();
    db.create_table(&mut conn);
    db.bulk_inserts(&mut conn, 10, 5);
    // Checkpoint with restart
    let result = db.run_checkpoint_until_done(&mut conn, CheckpointMode::Restart);
    assert!(result.everything_backfilled());

    // Verify read marks after restart
    let read_marks_after: Vec<u32> = (0..5).map(|i| db.shared.read_locks[i].get_value()).collect();
    assert_eq!(read_marks_after[0], 0, "Slot 0 should remain 0");
    assert_eq!(read_marks_after[1], 0, "Slot 1 (default reader) should be reset to 0");
    for (i, item) in read_marks_after.iter().take(5).skip(2).enumerate() {
        assert_eq!(
            *item, READMARK_NOT_USED,
            "Slot {i} should be READMARK_NOT_USED after restart"
        );
    }
}

#[test]
fn test_wal_concurrent_readers_during_checkpoint() {
    let mut db = get_database();
    let mut conn_writer = db.connect();
    db.create_table(&mut conn_writer);
    db.bulk_inserts(&mut conn_writer, 5, 10);

    // Start multiple readers at different points
    let mut conn_r1 = db.connect();
    let mut conn_r2 = db.connect();

    // R1 starts reading
    let r1_max_frame = db.wal_begin_read(&mut conn_r1);
    db.bulk_inserts(&mut conn_writer, 5, 10);

    // R2 starts reading, sees more frames than R1
    let r2_max_frame = db.wal_begin_read(&mut conn_r2);

    // try passive checkpoint, should only checkpoint up to R1's position
    let checkpoint_result = db.run_checkpoint_until_done(&mut conn_writer, PASSIVE);
    assert!(
        checkpoint_result.wal_total_backfilled < checkpoint_result.wal_max_frame,
        "Should not checkpoint all frames when readers are active"
    );
    assert_eq!(
        checkpoint_result.wal_total_backfilled, r1_max_frame,
        "Should have checkpointed up to R1's max frame"
    );

    // Verify R2 still sees its frames
    assert_eq!(
        conn_r2.wal.as_ref().unwrap().get_max_frame(),
        r2_max_frame,
        "Reader should maintain its snapshot"
    );
}

#[test]
fn test_wal_checkpoint_updates_read_marks() {
    let mut db = get_database();
    let mut conn = db.connect();
    db.create_table(&mut conn);
    db.bulk_inserts(&mut conn, 10, 5);

    // get max frame before checkpoint
    let max_frame_before = db.shared.max_frame;
    db.run_checkpoint_until_done(&mut conn, PASSIVE);

    // check that read mark 1 (default reader) was updated to max_frame
    let read_mark_1 = db.shared.read_locks[1].get_value();
    assert_eq!(
        read_mark_1 as u64, max_frame_before,
        "Read mark 1 should be updated to max frame during checkpoint"
    );
}

#[test]
fn test_wal_writer_blocks_restart_checkpoint() {
    let mut db = get_database();
    let mut conn1 = db.connect();
    let mut conn2 = db.connect();
    db.create_table(&mut conn1);
    db.bulk_inserts(&mut conn1, 5, 5);

    // start a write transaction
    db.wal_begin_read(&mut conn2);
    db.wal_begin_write(&mut conn2).unwrap();

    // should fail because writer lock is held
    let result = db.wal_checkpoint(&mut conn1, CheckpointMode::Restart);
    assert!(
        matches!(result, Err(LimboError::Busy)),
        "Restart checkpoint should fail when write lock is held"
    );

    db.wal_end_read(&mut conn2);
    // release write lock
    conn2.wal.as_mut().unwrap().end_write_tx(&mut db.shared);

    // now restart should succeed
    let result = db.run_checkpoint_until_done(&mut conn1, CheckpointMode::Restart);
    assert!(result.everything_backfilled());
}

#[test]
fn test_wal_multiple_readers_at_different_frames() {
    fn start_reader(db: &mut Db, conn: &mut Pager) -> u64 {
        match conn.begin_read_tx(&mut db.shared, 0).unwrap() {
            BeginRead::Started(_) => {}
            wait => panic!("{wait:?}"),
        }
        db.load(conn, TABLE);
        conn.wal.as_ref().unwrap().get_max_frame()
    }

    let mut db = get_database();
    let mut conn_writer = db.connect();
    db.create_table(&mut conn_writer);
    db.bulk_inserts(&mut conn_writer, 3, 5);

    let mut conn1 = db.connect();
    let r1_frame = start_reader(&mut db, &mut conn1); // reader 1
    db.bulk_inserts(&mut conn_writer, 3, 5);

    let mut conn_r2 = db.connect();
    let r2_frame = start_reader(&mut db, &mut conn_r2); // reader 2
    db.bulk_inserts(&mut conn_writer, 3, 5);

    let mut conn_r3 = db.connect();
    let r3_frame = start_reader(&mut db, &mut conn_r3); // reader 3
    assert!(r1_frame < r2_frame && r2_frame < r3_frame);

    // passive checkpoint #1
    let result1 = db.run_checkpoint_until_done(&mut conn_writer, PASSIVE);
    assert_eq!(result1.wal_total_backfilled, r1_frame);

    // finish reader 1
    conn1.end_read_tx(&mut db.shared);

    // passive checkpoint #2
    let result2 = db.run_checkpoint_until_done(&mut conn_writer, PASSIVE);
    assert_eq!(
        result1.wal_checkpoint_backfilled + result2.wal_checkpoint_backfilled,
        r2_frame
    );

    // verify visible rows
    let r2_cnt = db.count_test_table(&mut conn_r2);
    let r3_cnt = db.count_test_table(&mut conn_r3);
    assert_eq!(r2_cnt, 30);
    assert_eq!(r3_cnt, 45);
}

fn check_header(wal: &[u8]) {
    assert!(wal.len() >= 32, "WAL file too small");
    let hdr = WalHeader::parse(&wal[0..32]);
    assert!(
        hdr.magic == WAL_MAGIC_LE,
        "bad WAL magic: {:#X}, expected: {:#X}",
        hdr.magic,
        WAL_MAGIC_LE
    );
    assert_eq!(hdr.file_format, 3007000);
    assert_eq!(hdr.page_size, 4096, "invalid page size");
    assert_eq!(hdr.checkpoint_seq, 1, "invalid checkpoint_seq");
}

#[test]
fn test_checkpoint_truncate_reset_handling() {
    let mut db = get_database();
    let mut conn = db.connect();
    db.create_table(&mut conn);
    db.bulk_inserts(&mut conn, 10, 10);
    assert!(db.wal.len() > 0, "WAL file should have content");
    db.run_checkpoint_until_done(&mut conn, TRUNCATE);
    assert_eq!(db.wal.len(), 0, "WAL file should be truncated to 0 bytes");
    // Verify we can still write to the database
    db.insert(&mut conn, 1);
    check_header(&db.wal);
}

#[test]
fn test_wal_checkpoint_truncate_db_file_contains_data() {
    let mut db = get_database();
    let mut conn = db.connect();
    db.create_table(&mut conn);
    db.bulk_inserts(&mut conn, 10, 100);
    assert!(db.wal.len() > 0, "WAL file should have content");
    db.run_checkpoint_until_done(&mut conn, TRUNCATE);
    assert_eq!(db.wal.len(), 0, "WAL file should be truncated to 0 bytes");
    db.insert(&mut conn, 1);
    check_header(&db.wal);
    db.run_checkpoint_until_done(&mut conn, PASSIVE);
    // drop the log's file so that everything is read from the database file
    db.wal.clear();
    match conn.begin_read_tx(&mut db.shared, 0).unwrap() {
        BeginRead::Started(_) => {}
        wait => panic!("{wait:?}"),
    }
    let count = db.count_test_table(&mut conn);
    assert_eq!(count, 1001, "we should have 1001 rows in the table all together");
}

#[test]
fn test_wal_stale_snapshot_in_write_transaction() {
    let mut db = get_database();
    let mut conn1 = db.connect();
    let mut conn2 = db.connect();
    db.create_table(&mut conn1);
    // Start a read transaction on conn2
    db.wal_begin_read(&mut conn2);
    // Make changes using conn1
    db.bulk_inserts(&mut conn1, 5, 5);
    // Try to start a write transaction on conn2 with a stale snapshot
    let result = db.wal_begin_write(&mut conn2);
    // Should get BusySnapshot due to stale snapshot
    assert!(matches!(result, Err(LimboError::BusySnapshot)));

    // End read transaction and start a fresh one
    db.wal_end_read(&mut conn2);
    db.wal_begin_read(&mut conn2);
    // Now write transaction should work
    let result = db.wal_begin_write(&mut conn2);
    assert!(matches!(result, Ok(())));
}

#[test]
fn test_wal_readlock0_optimization_behavior() {
    let mut db = get_database();
    let mut conn1 = db.connect();
    let mut conn2 = db.connect();
    db.create_table(&mut conn1);
    db.bulk_inserts(&mut conn1, 5, 5);
    // Do a full checkpoint to move all data to DB file
    db.run_checkpoint_until_done(&mut conn1, PASSIVE);

    // Start a read transaction on conn2
    db.wal_begin_read(&mut conn2);
    // should use slot 0, as everything is backfilled
    assert_eq!(conn2.wal.as_ref().unwrap().max_frame_read_lock_index, 0);
    let frame = conn1.wal.as_ref().unwrap().find_frame(&db.shared, 5, None);
    // since we hold readlock0, we should ignore the db file and find_frame should return none
    assert!(frame.is_ok_and(|f| f.is_none()));
    // Try checkpoint, should fail because reader has slot 0
    let result = db.wal_checkpoint(&mut conn1, CheckpointMode::Restart);
    assert!(
        matches!(result, Err(LimboError::Busy)),
        "RESTART checkpoint should fail when a reader is using slot 0"
    );
    // End the read transaction
    db.wal_end_read(&mut conn2);
    let result = db.run_checkpoint_until_done(&mut conn1, CheckpointMode::Restart);
    assert!(
        result.everything_backfilled(),
        "RESTART checkpoint should succeed after reader releases slot 0"
    );
}

#[test]
fn test_wal_full_backfills_all() {
    let mut db = get_database();
    let mut conn = db.connect();
    // Write some data to put frames in the WAL
    db.create_table(&mut conn);
    db.bulk_inserts(&mut conn, 8, 4);
    // Ensure frames are flushed to the WAL
    db.cacheflush(&mut conn);

    // Snapshot the current mxFrame before running FULL
    let mx_before = db.shared.max_frame;
    assert!(mx_before > 0, "expected frames in WAL before FULL");

    // Run FULL checkpoint - must backfill *all* frames up to mx_before
    let result = db.run_checkpoint_until_done(&mut conn, CheckpointMode::Full);
    assert_eq!(result.wal_checkpoint_backfilled, mx_before);
    assert_eq!(result.wal_total_backfilled, mx_before);
}

#[test]
fn test_wal_full_waits_for_old_reader_then_succeeds() {
    let mut db = get_database();
    let mut writer = db.connect();
    let mut reader = db.connect();
    db.create_table(&mut writer);

    // First commit some data and flush (reader will snapshot here)
    db.bulk_inserts(&mut writer, 2, 3);
    db.cacheflush(&mut writer);

    // Start a read transaction pinned at the current snapshot
    let r_snapshot = db.wal_begin_read(&mut reader);

    // Advance WAL beyond the reader's snapshot
    db.bulk_inserts(&mut writer, 3, 4);
    db.cacheflush(&mut writer);
    let mx_now = db.shared.max_frame;
    assert!(mx_now > r_snapshot);

    // FULL must return Busy while a reader is stuck behind
    match db.wal_checkpoint(&mut writer, CheckpointMode::Full) {
        Err(LimboError::Busy) => {}
        other => panic!("expected Busy from FULL with old reader, got {other:?}"),
    }

    // Release the reader, now full mode should succeed and backfill everything
    db.wal_end_read(&mut reader);
    let result = db.run_checkpoint_until_done(&mut writer, CheckpointMode::Full);
    assert_eq!(result.wal_checkpoint_backfilled, mx_now - r_snapshot);
    assert!(result.everything_backfilled());
}

// What a commit leaves behind is what the next reader finds: the frame, and in it the page.
#[test]
fn committed_pages_are_found_by_the_next_reader() {
    let mut db = get_database();
    let mut writer = db.connect();
    let mut reader = db.connect();
    db.create_table(&mut writer);
    assert_eq!(db.shared.max_frame, 2);
    db.insert(&mut writer, 41);
    assert_eq!(db.shared.max_frame, 3);
    assert!(!writer.page_cache.peek(TABLE).unwrap().is_dirty());
    assert_eq!(writer.page_cache.peek(TABLE).unwrap().wal_tag_pair(), (3, db.shared.epoch));
    match reader.begin_read_tx(&mut db.shared, 0).unwrap() {
        BeginRead::Started(changed) => assert!(changed),
        wait => panic!("{wait:?}"),
    }
    let wal = reader.wal.as_ref().unwrap();
    assert!(!wal.db_changed(&db.shared));
    assert_eq!(wal.find_frame(&db.shared, TABLE as u64, None), Ok(Some(3)));
    assert_eq!(wal.find_frame(&db.shared, 1, None), Ok(Some(1)));
    assert_eq!(wal.find_frame(&db.shared, 9, None), Ok(None));
    assert_eq!(wal.find_frame(&db.shared, TABLE as u64, Some(2)), Ok(Some(2)));
    assert_eq!(db.count_test_table(&mut reader), 41);
}

// A rollback takes back frames that a spill has appended, and leaves older ones alone.
#[test]
fn rollback_drops_spilled_frames() {
    let mut db = get_database();
    let mut conn = db.connect();
    db.create_table(&mut conn);
    db.insert(&mut conn, 5);
    let committed = db.shared.max_frame;
    let checksum = db.shared.last_checksum;
    db.begin(&mut conn);
    db.load(&mut conn, 1);
    db.load(&mut conn, TABLE);
    let mut page = conn.page_cache.take(TABLE);
    conn.add_dirty(&mut page);
    page.inner.write_u32_no_offset(COUNT_AT, 99);
    conn.page_cache.put(TABLE, page);
    db.cacheflush(&mut conn);
    assert_eq!(conn.wal.as_ref().unwrap().get_max_frame(), committed + 1);
    assert_eq!(db.shared.max_frame, committed);
    conn.rollback_tx(&mut db.shared, false, true);
    let wal = conn.wal.as_ref().unwrap();
    assert_eq!(wal.get_max_frame(), committed);
    assert_eq!(wal.get_last_checksum(), checksum);
    assert!(!wal.holds_write_lock());
    assert_eq!(conn.page_cache.len(), 0);
    assert!(conn.dirty_pages.is_empty());
    let mut reader = db.connect();
    db.wal_begin_read(&mut reader);
    assert_eq!(db.count_test_table(&mut reader), 5);
}

// A commit past the threshold is followed by a passive checkpoint.
#[test]
fn long_log_is_checkpointed_after_commit() {
    let mut db = get_database();
    let mut conn = db.connect();
    db.create_table(&mut conn);
    conn.wal.as_mut().unwrap().checkpoint_threshold = 4;
    db.insert(&mut conn, 1);
    db.insert(&mut conn, 1);
    assert_eq!(db.shared.nbackfills, 0);
    db.insert(&mut conn, 1);
    assert_eq!(db.shared.max_frame, 5);
    assert_eq!(db.shared.nbackfills, 5);
    let (page, n) = read_at(&db.db, (TABLE - 1) * PAGE, PAGE);
    assert_eq!(n, PAGE);
    assert_eq!(page[COUNT_AT + 3], 3);
    assert!(!conn.is_checkpointing());
}

// A passive checkpoint with an upper bound copies no further.
#[test]
fn passive_checkpoint_stops_at_upper_bound() {
    let mut db = get_database();
    let mut conn = db.connect();
    db.create_table(&mut conn);
    db.bulk_inserts(&mut conn, 4, 1);
    let mode = CheckpointMode::Passive { upper_bound_inclusive: Some(3) };
    let res = db.run_checkpoint_until_done(&mut conn, mode);
    assert_eq!(res.wal_total_backfilled, 3);
    assert_eq!(res.wal_max_frame, 6);
    assert!(!res.everything_backfilled());
}
