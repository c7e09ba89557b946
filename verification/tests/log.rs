//! The log's building blocks: its locks, its format, its index and its raw frames.

use turso_storage::checkpoint_state::{
    CheckpointLocks, CheckpointMode, CheckpointResult, OngoingCheckpoint,
};
use turso_storage::error::{BadArgument, CompletionError, Corruption, InternalFault, LimboError};
use turso_storage::frame_index::{distinct_pages, FrameIndex};
use turso_storage::ondisk::PageSize;
use turso_storage::page::Page;
use turso_storage::page_cache::PageCache;
use turso_storage::rwlock::{TursoRwLock, NO_LOCK_HELD, READMARK_NOT_USED};
use turso_storage::wal::{
    read_backoff, BeginRead, ReadBackoff, RollbackTo, TryBeginReadResult, WalFile,
};
use turso_storage::wal_append::{FrameInput, RawFrameStep};
use turso_storage::wal_checkpoint::{CheckpointIo, CheckpointStep};
use turso_storage::wal_format::{
    checksum_wal, parse_wal_frame_header, prepare_wal_frame, WalHeader, WAL_FILE_FORMAT,
    WAL_FRAME_HEADER_SIZE, WAL_MAGIC_BE, WAL_MAGIC_LE,
};
use turso_storage::wal_shared::WalFileShared;
use turso_storage::write_batch::WriteBatch;

const SIZE: usize = 512;

/// A log for pages of 512 bytes, with its header on disk, and a connection to it.
fn log() -> (WalFileShared, WalFile) {
    let mut shared = WalFileShared::new_shared(false);
    let (checksum, max_frame) = shared.last_checksum_and_max_frame();
    let mut wal = WalFile::new(checksum, max_frame);
    let size = PageSize::new(SIZE as u32).unwrap();
    let bytes = wal.prepare_wal_start(&mut shared, size, false, (10, 20)).unwrap();
    assert_eq!(bytes.len(), 32);
    assert_eq!(shared.is_initialized(), Ok(false));
    wal.prepare_wal_finish(&mut shared);
    assert_eq!(shared.is_initialized(), Ok(true));
    assert!(wal.prepare_wal_start(&mut shared, size, false, (30, 40)).is_none());
    (shared, wal)
}

fn input(page_id: u32, byte: u8) -> FrameInput {
    FrameInput { page_id, data: vec![byte; SIZE] }
}

fn append(shared: &mut WalFileShared, wal: &mut WalFile, pages: &Vec<FrameInput>) -> Vec<Vec<u8>> {
    let size = PageSize::new(SIZE as u32).unwrap();
    let frames = wal.prepare_frames(shared, pages, size, Some(9), None);
    let bufs: Vec<Vec<u8>> = frames.bufs.clone();
    wal.commit_prepared_frames(shared, &vec![frames]);
    wal.finish_append_frames_commit(shared);
    bufs
}

#[test]
fn locks_are_given_back() {
    let mut lock = TursoRwLock::new();
    assert!(lock.read());
    assert!(lock.read());
    assert!(!lock.write());
    assert!(!lock.upgrade());
    lock.unlock();
    assert!(lock.upgrade());
    assert!(!lock.read());
    assert!(!lock.write());
    lock.set_value_exclusive(0x89abcdef);
    lock.downgrade();
    assert!(lock.read());
    lock.unlock();
    lock.unlock();
    assert!(lock.write());
    assert_eq!(lock.get_value(), 0x89abcdef);
    lock.unlock();
    assert!(lock.read());
}

#[test]
fn checksums_go_on_from_one_another() {
    let bytes = [1u8, 0, 0, 0, 2, 0, 0, 0, 5, 0, 0, 0, 7, 0, 0, 0];
    assert_eq!(checksum_wal(&bytes[0..8], false, (0, 0)), (1, 3));
    let first = checksum_wal(&bytes[0..8], false, (0, 0));
    assert_eq!(checksum_wal(&bytes[8..16], false, first), checksum_wal(&bytes, false, (0, 0)));
    assert_eq!(checksum_wal(&bytes, false, (0, 0)), (9, 19));
    assert_eq!(checksum_wal(&[0, 0, 0, 1, 0, 0, 0, 2], true, (0, 0)), (1, 3));
    assert_eq!(checksum_wal(&[0xff; 8], false, (1, 1)), (1, 1));
}

#[test]
fn log_header_comes_back_as_it_went_in() {
    let (shared, _wal) = log();
    let header = shared.wal_header;
    assert_eq!(header.magic, WAL_MAGIC_LE);
    assert_eq!(header.file_format, WAL_FILE_FORMAT);
    assert_eq!(header.page_size, 512);
    assert_eq!((header.checksum_1, header.checksum_2), header.compute_checksum());
    let bytes = header.as_bytes();
    assert_eq!(bytes.len(), 32);
    assert_eq!(bytes[0..4], [0x37, 0x7f, 0x06, 0x82]);
    assert_eq!(bytes[8..12], [0, 0, 2, 0]);
    assert_eq!(WalHeader::parse(&bytes).as_bytes(), bytes);
    assert!(!header.is_big_endian());
    assert!(WalHeader::new(true).is_big_endian());
    assert_eq!(WalHeader::new(true).magic, WAL_MAGIC_BE);
}

#[test]
fn frame_headers_come_back_as_they_went_in() {
    let (shared, wal) = log();
    let page = [3u8; SIZE];
    let (checksum, bytes) =
        prepare_wal_frame(&shared.wal_header, wal.get_last_checksum(), 6, 12, &page);
    assert_eq!(bytes.len(), WAL_FRAME_HEADER_SIZE + SIZE);
    assert_eq!(&bytes[24..], &page[..]);
    let header = parse_wal_frame_header(&bytes);
    assert_eq!(header.page_number, 6);
    assert_eq!(header.db_size, 12);
    assert!(header.is_commit_frame());
    assert_eq!(header.salt_1, shared.wal_header.salt_1);
    assert_eq!(header.salt_2, shared.wal_header.salt_2);
    assert_eq!((header.checksum_1, header.checksum_2), checksum);
    // The checksum covers the first eight bytes of the header and the page.
    let over_header = checksum_wal(&bytes[0..8], false, wal.get_last_checksum());
    assert_eq!(checksum_wal(&page, false, over_header), checksum);
}

#[test]
fn frames_are_adjacent() {
    let (shared, wal) = log();
    assert_eq!(wal.frame_offset(&shared, 1), 32);
    assert_eq!(wal.frame_offset(&shared, 2), 32 + 24 + 512);
    assert_eq!(wal.frame_offset(&shared, 1001), 32 + 1000 * 536);
}

#[test]
fn frames_are_read_where_they_were_written() {
    let (mut shared, mut wal) = log();
    let mut file: Vec<u8> = vec![0; 32];
    for pages in [vec![input(2, 1), input(3, 2)], vec![input(2, 3)]] {
        let at = wal.frame_offset(&shared, wal.get_max_frame() + 1) as usize;
        assert_eq!(at, file.len());
        for buf in append(&mut shared, &mut wal, &pages) {
            file.extend(buf);
        }
    }
    for (frame, page_no, db_size, byte) in [(1, 2, 0, 1), (2, 3, 9, 2), (3, 2, 9, 3)] {
        let mut page = Page::new(page_no as i64);
        let at = wal.read_frame(&shared, frame, &mut page) as usize;
        assert_eq!(file[at..at + SIZE], vec![byte; SIZE][..]);
        let header = parse_wal_frame_header(&file[at - WAL_FRAME_HEADER_SIZE..at]);
        assert_eq!(header.page_number, page_no);
        assert_eq!(header.db_size, db_size);
        assert_eq!((header.salt_1, header.salt_2), (10, 20));
    }
}

#[test]
fn the_index_finds_the_latest_frame() {
    let mut index = FrameIndex::new();
    index.append(7, 1);
    index.append(8, 2);
    index.append(7, 5);
    assert_eq!(index.find(7, 1, 9), Some(5));
    assert_eq!(index.find(7, 1, 4), Some(1));
    assert_eq!(index.find(7, 2, 4), None);
    assert_eq!(index.find(9, 1, 9), None);
    assert_eq!(index.work_list(1, 9), vec![(8, 2), (7, 5)]);
    assert_eq!(index.work_list(1, 4), vec![(7, 1), (8, 2)]);
    assert_eq!(index.work_list(3, 4), vec![]);
    index.append(8, 6);
    index.append(9, 7);
    index.roll_back(5);
    assert_eq!(index.find(8, 1, 9), Some(2));
    assert_eq!(index.find(9, 1, 9), None);
    assert_eq!(index.find(7, 1, 9), Some(5));
    index.clear();
    assert_eq!(index.find(7, 1, 9), None);
    assert_eq!(distinct_pages(&vec![3, 1, 3, 2, 1]), vec![3, 1, 2]);
}

#[test]
fn batches_count_their_runs() {
    let mut batch = WriteBatch::new();
    assert!(batch.is_empty());
    for page in [4, 6, 5, 9] {
        batch.insert(page, vec![page as u8]);
    }
    batch.insert(6, vec![60]);
    assert_eq!(batch.len(), 4);
    // Two runs, of three pages and of one.
    assert!(batch.avg_run_len_at_least(2));
    assert!(!batch.avg_run_len_at_least(3));
    assert!(!batch.is_full());
    let pages = batch.take();
    assert_eq!(pages.len(), 4);
    assert_eq!(pages[&6], vec![60]);
    assert!(batch.is_empty());
    assert!(!batch.avg_run_len_at_least(1));
}

#[test]
fn batches_of_frames_chain() {
    let (shared, wal) = log();
    let size = PageSize::new(SIZE as u32).unwrap();
    let first = wal.prepare_frames(&shared, &vec![input(2, 1), input(3, 2)], size, None, None);
    assert_eq!(first.final_max_frame, 2);
    assert_eq!(first.offset, 32);
    let second = wal.prepare_frames(&shared, &vec![input(4, 3)], size, Some(4), Some(&first));
    assert_eq!(second.offset, 32 + 2 * 536);
    assert_eq!(second.metadata[0].frame_id, 3);
    let all = wal.prepare_frames(
        &shared,
        &vec![input(2, 1), input(3, 2), input(4, 3)],
        size,
        Some(4),
        None,
    );
    assert_eq!(all.final_checksum, second.final_checksum);
    assert_eq!(all.bufs[2], second.bufs[0]);
    assert_eq!(parse_wal_frame_header(&first.bufs[1]).db_size, 0);
    assert_eq!(parse_wal_frame_header(&second.bufs[0]).db_size, 4);
    // Nothing of this is visible yet.
    assert_eq!(wal.get_max_frame(), 0);
    assert_eq!(shared.frame_cache.find(2, 0, 9), None);
}

#[test]
fn rollback_takes_back_frames() {
    let (mut shared, mut wal) = log();
    append(&mut shared, &mut wal, &vec![input(2, 1), input(3, 1)]);
    assert_eq!(wal.get_max_frame(), 2);
    assert_eq!(shared.transaction_count, 1);
    let mark = RollbackTo { frame: 2, checksum: wal.get_last_checksum() };
    let size = PageSize::new(SIZE as u32).unwrap();
    let frames = wal.append_frames_vectored(&mut shared, &vec![input(3, 7), input(4, 7)], size);
    assert_eq!(frames.final_max_frame, 4);
    assert_eq!(wal.get_max_frame(), 4);
    assert_eq!(shared.max_frame, 2);
    assert_eq!(shared.frame_cache.find(3, 1, 9), Some(3));
    wal.rollback(&mut shared, Some(mark));
    assert_eq!(wal.get_max_frame(), 2);
    assert_eq!(wal.get_last_checksum(), mark.checksum);
    assert_eq!(shared.frame_cache.find(3, 1, 9), Some(2));
    assert_eq!(shared.frame_cache.find(4, 1, 9), None);
}

#[test]
fn frames_are_read_into_pages() {
    let (mut shared, mut wal) = log();
    append(&mut shared, &mut wal, &vec![input(2, 1), input(3, 8)]);
    shared.epoch = 6;
    let mut page = Page::new(3);
    let offset = wal.read_frame(&shared, 2, &mut page);
    assert_eq!(offset, 32 + 536 + 24);
    assert!(page.is_locked());
    let short = WalFile::complete_read_frame(
        &shared,
        2,
        offset,
        &mut page,
        Ok((vec![8; SIZE], 100)),
    );
    assert_eq!(
        short,
        Err(CompletionError::ShortReadWalFrame { offset, expected: SIZE, actual: 100 })
    );
    assert!(!page.is_locked());
    assert!(!page.is_loaded());
    let failed =
        WalFile::complete_read_frame(&shared, 2, offset, &mut page, Err(CompletionError::Io));
    assert_eq!(failed, Err(CompletionError::Io));
    WalFile::complete_read_frame(&shared, 2, offset, &mut page, Ok((vec![8; SIZE], SIZE)))
        .unwrap();
    assert!(page.is_loaded());
    assert_eq!(page.wal_tag_pair(), (2, 6));
    assert_eq!(page.inner.as_slice(), &[8; SIZE]);
}

#[test]
fn raw_frames_are_read() {
    let (mut shared, mut wal) = log();
    let bufs = append(&mut shared, &mut wal, &vec![input(2, 1), input(3, 8)]);
    assert_eq!(wal.read_frame_raw(&shared, 2), 32 + 536);
    let mut frame = vec![0u8; 24 + SIZE];
    let n = frame.len();
    let short = WalFile::complete_read_frame_raw(568, &mut frame, Ok((bufs[1].clone(), 9)));
    assert_eq!(
        short,
        Err(CompletionError::ShortReadWalFrame { offset: 568, expected: n, actual: 9 })
    );
    assert_eq!(frame, vec![0u8; n]);
    let header =
        WalFile::complete_read_frame_raw(568, &mut frame, Ok((bufs[1].clone(), n))).unwrap();
    assert_eq!(header.page_number, 3);
    assert_eq!(frame, bufs[1]);
    WalFile::decrypted_frame_raw(&mut frame, &vec![5; SIZE]);
    assert_eq!(&frame[0..24], &bufs[1][0..24]);
    assert_eq!(&frame[24..], &[5; SIZE]);
    let pages = wal.changed_pages_after(0, &vec![bufs[0].clone(), bufs[1].clone()]);
    assert_eq!(pages, vec![2, 3]);
}

#[test]
fn raw_frames_are_written() {
    let (mut shared, mut wal) = log();
    append(&mut shared, &mut wal, &vec![input(2, 1)]);
    let page = vec![4u8; SIZE];
    assert_eq!(
        wal.write_frame_raw(&shared, 2, 3, 0, &vec![0; 100]).unwrap_err(),
        LimboError::Corrupt(Corruption::InvalidPageSize { len: 100 })
    );
    assert_eq!(
        wal.write_frame_raw(&shared, 2, 3, 0, &vec![0; 1024]).unwrap_err(),
        LimboError::InvalidArgument(BadArgument::FramePageSize { got: 1024, expected: 512 })
    );
    assert_eq!(
        wal.write_frame_raw(&shared, 3, 3, 0, &page).unwrap_err(),
        LimboError::InvalidArgument(BadArgument::FrameBeyondNext { frame_id: 3, max_frame: 1 })
    );
    match wal.write_frame_raw(&shared, 1, 2, 0, &page).unwrap() {
        RawFrameStep::Compare { offset, len } => {
            assert_eq!(offset, 56);
            assert_eq!(len, SIZE);
        }
        step => panic!("{step:?}"),
    }
    assert_eq!(
        WalFile::compare_frame_raw(1, 56, &page, Ok((vec![1; SIZE], SIZE))),
        Err(LimboError::Conflict { frame_id: 1 })
    );
    assert_eq!(WalFile::compare_frame_raw(1, 56, &page, Ok((page.clone(), SIZE))), Ok(()));
    assert_eq!(
        WalFile::compare_frame_raw(1, 56, &page, Err(CompletionError::Io)),
        Err(LimboError::CompletionError(CompletionError::Io))
    );
    match wal.write_frame_raw(&shared, 2, 3, 5, &page).unwrap() {
        RawFrameStep::Append { offset, frame, checksum } => {
            assert_eq!(offset, 568);
            assert_eq!(parse_wal_frame_header(&frame).db_size, 5);
            wal.finish_frame_raw(&mut shared, 2, 3, 5, checksum);
        }
        step => panic!("{step:?}"),
    }
    assert_eq!(shared.max_frame, 2);
    assert_eq!(shared.frame_cache.find(3, 1, 9), Some(2));

    let fresh = WalFileShared::new_shared(false);
    let other = WalFile::new((0, 0), 0);
    assert!(matches!(
        other.write_frame_raw(&fresh, 1, 3, 5, &page),
        Ok(RawFrameStep::PrepareHeader)
    ));
}

#[test]
fn waiting_for_a_read_slot() {
    assert_eq!(read_backoff(1), ReadBackoff::Again);
    assert_eq!(read_backoff(6), ReadBackoff::Yield);
    assert_eq!(read_backoff(11), ReadBackoff::Sleep { micros: 156 });
    assert_eq!(read_backoff(100), ReadBackoff::Sleep { micros: 322959 });
    assert_eq!(read_backoff(101), ReadBackoff::Busy);
}

#[test]
fn readers_take_slots() {
    let (mut shared, mut writer) = log();
    let mut a = WalFile::new((0, 0), 0);
    // All of an empty log is in the database file.
    assert!(matches!(a.try_begin_read_tx(&mut shared), TryBeginReadResult::Started(_)));
    assert_eq!(a.max_frame_read_lock_index, 0);
    a.end_read_tx(&mut shared);
    assert_eq!(a.max_frame_read_lock_index, NO_LOCK_HELD);
    append(&mut shared, &mut writer, &vec![input(2, 1)]);
    assert!(matches!(a.try_begin_read_tx(&mut shared), TryBeginReadResult::Started(true)));
    assert_eq!(a.max_frame_read_lock_index, 1);
    assert_eq!(shared.mark(1), 1);
    assert_eq!((a.get_min_frame(), a.get_max_frame()), (1, 1));
    append(&mut shared, &mut writer, &vec![input(2, 2)]);
    // The mark of a slot in use stays; the next reader takes another one.
    let mut b = WalFile::new((0, 0), 0);
    assert!(matches!(b.begin_read_tx(&mut shared, 0), Ok(BeginRead::Started(true))));
    assert_eq!(b.max_frame_read_lock_index, 2);
    assert_eq!(shared.mark(1), 1);
    assert_eq!(shared.mark(2), 2);
    assert_eq!(a.find_frame(&shared, 2, None), Ok(Some(1)));
    assert_eq!(b.find_frame(&shared, 2, None), Ok(Some(2)));
    assert!(a.db_changed(&shared));
    assert!(!b.db_changed(&shared));
    // One writer at a time, and only on the latest state.
    assert_eq!(a.begin_write_tx(&mut shared, 5), Err(LimboError::BusySnapshot));
    assert_eq!(b.begin_write_tx(&mut shared, 5), Ok(()));
    assert!(b.holds_write_lock());
    assert_eq!(a.begin_write_tx(&mut shared, 5), Err(LimboError::Busy));
    b.end_write_tx(&mut shared);
    assert!(!b.holds_write_lock());
}

#[test]
fn a_copied_log_starts_over_before_a_write() {
    let (mut shared, mut wal) = log();
    append(&mut shared, &mut wal, &vec![input(2, 1)]);
    shared.nbackfills = 1;
    let mut a = WalFile::new((0, 0), 0);
    assert!(matches!(a.try_begin_read_tx(&mut shared), TryBeginReadResult::Started(_)));
    assert_eq!(a.max_frame_read_lock_index, 0);
    let header = shared.wal_header;
    assert_eq!(a.begin_write_tx(&mut shared, 99), Ok(()));
    assert_eq!(shared.max_frame, 0);
    assert_eq!(shared.nbackfills, 0);
    assert_eq!(shared.wal_header.checkpoint_seq, header.checkpoint_seq + 1);
    assert_eq!(shared.wal_header.salt_1, header.salt_1 + 1);
    assert_eq!(shared.wal_header.salt_2, 99);
    assert_eq!(shared.frame_cache.find(2, 0, 9), None);
    assert_eq!(shared.mark(1), 0);
    assert_eq!(shared.mark(2), READMARK_NOT_USED);
    assert_eq!(shared.is_initialized(), Ok(false));
}

#[test]
fn checkpoint_locks_exclude_each_other() {
    let (mut shared, _wal) = log();
    let passive = CheckpointMode::Passive { upper_bound_inclusive: None };
    let first = CheckpointLocks::new(&mut shared, passive).unwrap();
    assert_eq!(first, CheckpointLocks::Read0);
    assert_eq!(CheckpointLocks::new(&mut shared, passive), Err(LimboError::Busy));
    assert_eq!(CheckpointLocks::new(&mut shared, CheckpointMode::Restart), Err(LimboError::Busy));
    first.release(&mut shared);
    let second = CheckpointLocks::new(&mut shared, CheckpointMode::Restart).unwrap();
    assert_eq!(second, CheckpointLocks::Writer);
    assert_eq!(CheckpointLocks::new(&mut shared, CheckpointMode::Full), Err(LimboError::Busy));
    second.release(&mut shared);
    assert!(CheckpointLocks::new(&mut shared, CheckpointMode::Full).is_ok());
    assert!(CheckpointMode::Restart.should_restart_log());
    assert!(!CheckpointMode::Full.should_restart_log());
    assert!(CheckpointMode::Full.require_all_backfilled());
    assert!(!passive.require_all_backfilled());
}

#[test]
fn checkpoint_results() {
    let result = CheckpointResult::new(5, 5, 2);
    assert!(result.everything_backfilled());
    assert!(result.should_truncate());
    assert!(!CheckpointResult::new(5, 4, 2).everything_backfilled());
    assert!(!CheckpointResult::new(0, 0, 0).should_truncate());
    let ongoing = OngoingCheckpoint::new();
    assert!(ongoing.complete());
    assert!(!ongoing.should_issue_reads());
    assert!(!ongoing.should_flush_batch());
    assert!(ongoing.first_write_error().is_none());
}

fn begin_checkpoint(shared: &mut WalFileShared, wal: &mut WalFile) -> Vec<CheckpointIo> {
    let cache = PageCache::new(4);
    let mode = CheckpointMode::Passive { upper_bound_inclusive: None };
    loop {
        match wal.checkpoint(shared, &cache, mode, 1).unwrap() {
            CheckpointStep::Continue => {}
            CheckpointStep::Io(io) => return io,
            CheckpointStep::Done(result) => panic!("{result:?}"),
        }
    }
}

#[test]
fn a_checkpoint_without_progress_is_stuck() {
    let (mut shared, mut wal) = log();
    append(&mut shared, &mut wal, &vec![input(2, 1), input(3, 1), input(2, 2)]);
    let io = begin_checkpoint(&mut shared, &mut wal);
    // The latest frame of each page, in the order of the frames.
    let reads: Vec<(usize, u64)> = io
        .iter()
        .map(|x| match x {
            CheckpointIo::ReadFrame { page_id, frame_id, .. } => (*page_id, *frame_id),
            CheckpointIo::WritePages { .. } => panic!("nothing was read yet"),
        })
        .collect();
    assert_eq!(reads, vec![(3, 2), (2, 3)]);
    let mode = CheckpointMode::Passive { upper_bound_inclusive: None };
    let cache = PageCache::new(4);
    assert_eq!(
        wal.checkpoint(&mut shared, &cache, mode, 1).unwrap_err(),
        LimboError::InternalError(InternalFault::CheckpointStuck)
    );
    // Its locks are free again.
    assert!(wal.checkpoint_guard.is_none());
    assert!(CheckpointLocks::new(&mut shared, mode).is_ok());
}

#[test]
fn a_checkpoint_fails_with_its_reads_and_writes() {
    let mode = CheckpointMode::Passive { upper_bound_inclusive: None };
    let cache = PageCache::new(4);
    let (mut shared, mut wal) = log();
    append(&mut shared, &mut wal, &vec![input(2, 1)]);
    begin_checkpoint(&mut shared, &mut wal);
    wal.checkpoint_read_done(0, Err(CompletionError::Io));
    assert_eq!(
        wal.checkpoint(&mut shared, &cache, mode, 1).unwrap_err(),
        LimboError::CompletionError(CompletionError::Io)
    );
    assert_eq!(shared.nbackfills, 0);

    begin_checkpoint(&mut shared, &mut wal);
    wal.checkpoint_read_done(0, Ok(vec![1; SIZE]));
    match wal.checkpoint(&mut shared, &cache, mode, 1).unwrap() {
        CheckpointStep::Io(io) => match &io[0] {
            CheckpointIo::WritePages { pages } => assert_eq!(pages[&2], vec![1; SIZE]),
            other => panic!("{other:?}"),
        },
        step => panic!("{step:?}"),
    }
    wal.checkpoint_write_done(0, Err(CompletionError::Io));
    assert!(wal.checkpoint(&mut shared, &cache, mode, 1).is_err());
    assert_eq!(shared.nbackfills, 0);
}

#[test]
fn a_cached_page_is_copied_without_a_read() {
    let (mut shared, mut wal) = log();
    append(&mut shared, &mut wal, &vec![input(2, 1)]);
    let mut page = Page::new(2);
    page.inner.buffer = Some(vec![1; SIZE]);
    page.set_loaded();
    page.set_wal_tag(1, shared.epoch);
    let mut cache = PageCache::new(4);
    cache.insert(2, page).unwrap();
    let mode = CheckpointMode::Passive { upper_bound_inclusive: None };
    loop {
        match wal.checkpoint(&mut shared, &cache, mode, 1).unwrap() {
            CheckpointStep::Continue => {}
            CheckpointStep::Io(io) => {
                assert_eq!(io.len(), 1);
                match &io[0] {
                    CheckpointIo::WritePages { pages } => assert_eq!(pages[&2], vec![1; SIZE]),
                    other => panic!("{other:?}"),
                }
                wal.checkpoint_write_done(0, Ok(()));
            }
            CheckpointStep::Done(mut result) => {
                assert_eq!(result.wal_checkpoint_backfilled, 1);
                assert!(result.everything_backfilled());
                assert_eq!(result.maybe_guard, Some(CheckpointLocks::Read0));
                result.release_guard(&mut shared);
                break;
            }
        }
    }
    assert_eq!(shared.nbackfills, 1);
    // Pages cached so far are no good for the next checkpoint.
    assert!(!cache.peek(2).unwrap().is_valid_for_checkpoint(1, shared.epoch));
}

#[test]
fn truncate_needs_the_log_to_end_at_its_bound() {
    let (mut shared, mut wal) = log();
    append(&mut shared, &mut wal, &vec![input(2, 1), input(3, 1)]);
    let cache = PageCache::new(4);
    for bound in [1, 3] {
        let mode = CheckpointMode::Truncate { upper_bound_inclusive: Some(bound) };
        assert_eq!(
            wal.checkpoint(&mut shared, &cache, mode, 1).unwrap_err(),
            LimboError::Busy
        );
    }
    let mode = CheckpointMode::Truncate { upper_bound_inclusive: Some(2) };
    assert!(wal.checkpoint(&mut shared, &cache, mode, 1).is_ok());
}

// A reader behind the bound does not count: what it leaves is copied before the truncation fails.
#[test]
fn truncate_goes_by_the_end_of_the_log() {
    let (mut shared, mut wal) = log();
    let cache = PageCache::new(4);
    append(&mut shared, &mut wal, &vec![input(2, 1)]);
    let mut reader = WalFile::new((0, 0), 0);
    assert!(matches!(reader.try_begin_read_tx(&mut shared), TryBeginReadResult::Started(true)));
    append(&mut shared, &mut wal, &vec![input(3, 1)]);
    // The reader's frame is the last one that can be copied, but not the log's last one.
    let mode = CheckpointMode::Truncate { upper_bound_inclusive: Some(1) };
    let refused = wal.checkpoint(&mut shared, &cache, mode, 1).unwrap_err();
    assert_eq!(refused, LimboError::Busy);
    assert_eq!(shared.nbackfills, 0);
    let mode = CheckpointMode::Truncate { upper_bound_inclusive: Some(2) };
    let refused = loop {
        match wal.checkpoint(&mut shared, &cache, mode, 1) {
            Ok(CheckpointStep::Continue) => {}
            Ok(CheckpointStep::Io(io)) => match &io[0] {
                CheckpointIo::ReadFrame { page_id, frame_id, .. } => {
                    assert_eq!((io.len(), *page_id, *frame_id), (1, 2, 1));
                    wal.checkpoint_read_done(0, Ok(vec![1; SIZE]));
                }
                CheckpointIo::WritePages { pages } => {
                    assert_eq!(pages[&2], vec![1; SIZE]);
                    wal.checkpoint_write_done(0, Ok(()));
                }
            },
            Ok(CheckpointStep::Done(result)) => panic!("{result:?}"),
            Err(e) => break e,
        }
    };
    assert_eq!(refused, LimboError::Busy);
    assert_eq!(shared.nbackfills, 1);
}
