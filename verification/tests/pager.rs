//! The pager: allocating and freeing pages, savepoints, spills and the header.

use turso_storage::checkpoint_state::{CheckpointMode, CheckpointResult};
use turso_storage::commit::{CommitMode, CommitStep};
use turso_storage::commit_tx::CommitTxStep;
use turso_storage::create::default_page1;
use turso_storage::db_header::DatabaseHeader;
use turso_storage::error::{
    BadArgument, CacheError, CompletionError, Corruption, InternalFault, LimboError,
};
use turso_storage::flush::CacheFlushStep;
use turso_storage::freelist::{AllocateStep, FreeStep, Turn};
use turso_storage::header_ref::{HeaderRef, HeaderRefMut};
use turso_storage::ondisk::{PageSize, PageType};
use turso_storage::page::Page;
use turso_storage::page_cache::{CacheResizeResult, PageCache};
use turso_storage::pager::{Pager, DEFAULT_MAX_PAGE_COUNT};
use turso_storage::pager_checkpoint::{
    CheckpointArgs, PagerCheckpointStep, ShutdownProgress, ShutdownStep,
};
use turso_storage::pager_state::{
    AllocatePageState, AutoVacuumMode, BtreePageAllocMode, CheckpointPhase, FreePageState, IOResult,
    IoOutcome, IoRequest, LogStart, SyncMode,
};
use turso_storage::ptrmap::get_ptrmap_offset_in_page;
use turso_storage::read::{ReadPlan, ReadStep, SpillOutcome};
use turso_storage::wal::{BeginRead, WalFile};
use turso_storage::wal_append::FrameInput;
use turso_storage::wal_format::{parse_wal_frame_header, prepare_wal_frame};
use turso_storage::wal_shared::WalFileShared;

const SIZE: usize = 512;
const START: LogStart = LogStart { big_endian: false, salt_1: 1, salt_2: 2 };
const MODE: CommitMode = CommitMode {
    auto_checkpoint_disabled: true,
    sync_mode: SyncMode::Full,
    data_sync_retry: true,
    start: START,
};

fn loaded(id: usize, byte: u8) -> Page {
    let mut page = Page::new(id as i64);
    page.inner.buffer = Some(vec![byte; SIZE]);
    page.set_loaded();
    page
}

/// A pager over a database of `pages` pages, with room for `capacity` of them; page 1 is cached.
fn pager(pages: u32, capacity: usize, wal: bool) -> (Pager, WalFileShared) {
    let shared = WalFileShared::new_shared(false);
    let wal = if wal {
        let (checksum, max_frame) = shared.last_checksum_and_max_frame();
        Some(WalFile::new(checksum, max_frame))
    } else {
        None
    };
    let mut pager = Pager::new(wal, PageCache::new(capacity), None);
    let size = PageSize::new(SIZE as u32).unwrap();
    pager.set_page_size(size);
    pager.set_reserved_space(0);
    let mut header = DatabaseHeader::default();
    header.page_size = size;
    header.database_size = pages;
    header.schema_cookie = 5;
    let mut page1 = loaded(1, 0);
    page1.inner.write_database_header(&header);
    pager.page_cache.insert(1, page1).unwrap();
    (pager, shared)
}

fn header(pager: &mut Pager) -> DatabaseHeader {
    match pager.with_header() {
        IOResult::Done(header) => header,
        IOResult::IO(io) => panic!("{io:?}"),
    }
}

/// A page whose bytes are all zero has been read.
fn load(pager: &mut Pager, shared: &WalFileShared, page_no: usize, plan: ReadPlan) {
    pager.complete_read_page(shared, page_no, plan, Ok((vec![0; SIZE], SIZE))).unwrap();
}

fn allocate(pager: &mut Pager, shared: &WalFileShared) -> usize {
    let mut turn = Turn::Enter;
    loop {
        match pager.allocate_page(shared, turn).unwrap() {
            AllocateStep::Continue => turn = Turn::Proceed,
            AllocateStep::Load { page_no, plan } => {
                load(pager, shared, page_no, plan);
                turn = Turn::Enter;
            }
            AllocateStep::Done { page_no } => return page_no,
            step => panic!("{step:?}"),
        }
    }
}

fn free(pager: &mut Pager, shared: &WalFileShared, page: usize) {
    loop {
        match pager.free_page(shared, page, false, SpillOutcome::NotTried).unwrap() {
            FreeStep::Continue => {}
            FreeStep::Load { page_no, plan } => load(pager, shared, page_no, plan),
            FreeStep::Done => break,
            step => panic!("{step:?}"),
        }
    }
}

#[test]
fn the_database_grows_one_page_at_a_time() {
    let (mut pager, shared) = pager(1, 20, true);
    assert_eq!(allocate(&mut pager, &shared), 2);
    assert_eq!(allocate(&mut pager, &shared), 3);
    assert_eq!(header(&mut pager).database_size, 3);
    let page = pager.page_cache.peek(3).unwrap();
    assert!(page.is_dirty());
    assert_eq!(page.inner.as_slice(), &[0; SIZE]);
    assert_eq!(pager.dirty_pages.pages(), vec![1, 2, 3]);
}

#[test]
fn a_freed_page_is_allocated_next() {
    let (mut pager, shared) = pager(9, 20, true);
    // The first one becomes a trunk, the others its leaves.
    free(&mut pager, &shared, 4);
    assert_eq!(header(&mut pager).freelist_trunk_page, 4);
    assert_eq!(header(&mut pager).freelist_pages, 1);
    free(&mut pager, &shared, 6);
    free(&mut pager, &shared, 5);
    assert_eq!(header(&mut pager).freelist_pages, 3);
    let trunk = &pager.page_cache.peek(4).unwrap().inner;
    assert_eq!(trunk.read_u32_no_offset(0), 0);
    assert_eq!(trunk.read_u32_no_offset(4), 2);
    assert_eq!(trunk.read_u32_no_offset(8), 6);
    assert_eq!(trunk.read_u32_no_offset(12), 5);
    assert!(matches!(pager.freepage_list(), IOResult::Done(3)));
    // Leaves go out in the order in which they came, then the trunk, then the database grows.
    assert_eq!(allocate(&mut pager, &shared), 6);
    assert_eq!(allocate(&mut pager, &shared), 5);
    assert_eq!(allocate(&mut pager, &shared), 4);
    assert_eq!(header(&mut pager).freelist_pages, 0);
    assert_eq!(header(&mut pager).freelist_trunk_page, 0);
    assert_eq!(allocate(&mut pager, &shared), 10);
}

// A page that is freed is counted and pinned while its bytes are still on the way.
#[test]
fn a_freed_page_counts_at_once() {
    let (mut pager, shared) = pager(9, 20, true);
    let step = pager.free_page(&shared, 4, false, SpillOutcome::NotTried);
    let plan = ReadPlan::Database;
    assert_eq!(step, Ok(FreeStep::Load { page_no: 4, plan }));
    assert_eq!(header(&mut pager).freelist_pages, 1);
    assert_eq!(pager.free_page_state, FreePageState::NewTrunk { page: 4 });
    assert!(pager.page_cache.peek(4).unwrap().is_pinned());
    load(&mut pager, &shared, 4, plan);
    let step = pager.free_page(&shared, 4, false, SpillOutcome::NotTried);
    assert_eq!(step, Ok(FreeStep::Done));
    assert!(!pager.page_cache.peek(4).unwrap().is_pinned());
    // The next one goes on the list although it cannot be read.
    let step = pager.free_page(&shared, 6, false, SpillOutcome::NotTried);
    assert_eq!(step, Ok(FreeStep::Load { page_no: 6, plan }));
    assert_eq!(header(&mut pager).freelist_pages, 2);
    let failed = pager.complete_read_page(&shared, 6, plan, Err(CompletionError::Io));
    assert_eq!(failed, Err(CompletionError::Io));
    assert_eq!(pager.free_page_state, FreePageState::AddToTrunk { page: 6 });
    let step = pager.free_page(&shared, 6, false, SpillOutcome::NotTried);
    assert_eq!(step, Ok(FreeStep::Done));
    assert_eq!(pager.page_cache.peek(4).unwrap().inner.read_u32_no_offset(8), 6);
    assert!(!pager.page_cache.peek(6).unwrap().is_pinned());
}

// An allocation keeps the pages of the freelist that it goes through in the cache.
#[test]
fn an_allocation_pins_pages_of_the_freelist() {
    let (mut pager, shared) = pager(9, 20, true);
    free(&mut pager, &shared, 4);
    free(&mut pager, &shared, 6);
    let pinned = |pager: &Pager, id| pager.page_cache.peek(id).unwrap().is_pinned();
    let step = pager.allocate_page(&shared, Turn::Enter);
    assert_eq!(step, Ok(AllocateStep::Continue));
    assert_eq!((pinned(&pager, 4), pinned(&pager, 6)), (true, false));
    let step = pager.allocate_page(&shared, Turn::Proceed);
    assert_eq!(step, Ok(AllocateStep::Continue));
    assert_eq!((pinned(&pager, 4), pinned(&pager, 6)), (true, true));
    let step = pager.allocate_page(&shared, Turn::Proceed);
    assert_eq!(step, Ok(AllocateStep::Done { page_no: 6 }));
    assert_eq!((pinned(&pager, 4), pinned(&pager, 6)), (false, false));
}

// Room is made before anything else, and then for a trunk page that is not in the cache.
#[test]
fn a_full_cache_holds_an_allocation_up() {
    let (mut pager, shared) = pager(9, 2, true);
    let mut h = header(&mut pager);
    h.freelist_trunk_page = 5;
    h.freelist_pages = 1;
    assert!(matches!(pager.with_header_mut(&h), IOResult::Done(())));
    pager.page_cache.insert(2, loaded(2, 7)).unwrap();
    change(&mut pager, 2, 1);
    assert_eq!(pager.allocate_page(&shared, Turn::Enter), Ok(AllocateStep::MakeRoom));
    assert_eq!(pager.allocate_page(&shared, Turn::Proceed), Ok(AllocateStep::Spill));
    assert_eq!(pager.allocate_page_state, AllocatePageState::Start);
    assert_eq!(
        pager.allocate_page(&shared, Turn::Spilled(SpillOutcome::Nothing)),
        Err(LimboError::Busy)
    );
    assert_eq!(
        pager.allocate_page(&shared, Turn::Spilled(SpillOutcome::Spilled)),
        Err(LimboError::CacheError(CacheError::Full))
    );
    assert_eq!(
        pager.free_page(&shared, 7, false, SpillOutcome::NotTried),
        Ok(FreeStep::Spill)
    );
    assert_eq!(header(&mut pager).freelist_pages, 1);
    // A cache that may not spill is not asked to.
    pager.set_spill_enabled(false);
    assert_eq!(pager.allocate_page(&shared, Turn::Enter), Ok(AllocateStep::Spill));
}

// A full cache of dirty pages gives way to a new page once they were spilled.
#[test]
fn a_database_grows_with_a_full_cache() {
    let (mut pager, mut shared) = pager(9, 3, true);
    for id in [2, 3] {
        pager.page_cache.insert(id, loaded(id, 7)).unwrap();
        change(&mut pager, id, 1);
    }
    assert_eq!(pager.allocate_page(&shared, Turn::Enter), Ok(AllocateStep::MakeRoom));
    assert!(spill(&mut pager, &mut shared, None));
    assert_eq!(pager.allocate_page(&shared, Turn::Proceed), Ok(AllocateStep::Continue));
    assert_eq!(
        pager.allocate_page(&shared, Turn::Proceed),
        Ok(AllocateStep::Done { page_no: 10 })
    );
}

// A pointer map page that is made beside an allocation from the freelist is not counted, and is in
// the way of the next allocation.
#[test]
fn a_map_page_beside_the_freelist_is_not_counted() {
    // The pointer map of pages of 512 bytes has pages 2, 105, 208 and so on.
    let (mut pager, shared) = pager(104, 20, true);
    free(&mut pager, &shared, 4);
    pager.set_auto_vacuum_mode(AutoVacuumMode::Full);
    assert_eq!(allocate(&mut pager, &shared), 4);
    assert_eq!(header(&mut pager).database_size, 104);
    assert!(pager.page_cache.peek(105).unwrap().is_dirty());
    assert_eq!(
        pager.allocate_page(&shared, Turn::Enter),
        Err(LimboError::CacheError(CacheError::KeyExists))
    );
}

// A pointer map page that was made before pages were spilled is not made again.
#[test]
fn a_map_page_is_made_once() {
    let (mut pager, shared) = pager(104, 3, true);
    let mut h = header(&mut pager);
    h.freelist_trunk_page = 5;
    h.freelist_pages = 1;
    assert!(matches!(pager.with_header_mut(&h), IOResult::Done(())));
    pager.set_auto_vacuum_mode(AutoVacuumMode::Full);
    pager.page_cache.insert(2, loaded(2, 7)).unwrap();
    change(&mut pager, 2, 1);
    assert_eq!(pager.allocate_page(&shared, Turn::Enter), Ok(AllocateStep::Spill));
    assert!(pager.page_cache.contains_key(105));
    assert_eq!(
        pager.allocate_page(&shared, Turn::Spilled(SpillOutcome::Nothing)),
        Err(LimboError::Busy)
    );
}

#[test]
fn growth_passes_the_pending_page() {
    let pending = 0x4000_0000 / SIZE as u32 + 1;
    let (mut pager, shared) = pager(pending - 1, 20, true);
    assert_eq!(Pager::get_pending_byte(), 0x4000_0000);
    assert_eq!(pager.pending_byte_page_id(), Some(pending));
    assert_eq!(allocate(&mut pager, &shared), pending as usize + 1);
    assert_eq!(header(&mut pager).database_size, pending + 1);
}

#[test]
fn a_full_database_does_not_grow() {
    let (mut pager, shared) = pager(7, 20, true);
    assert_eq!(pager.get_max_page_count(), DEFAULT_MAX_PAGE_COUNT);
    // The limit is never less than what is there.
    assert!(matches!(pager.set_max_page_count(3), IOResult::Done(7)));
    let refused = loop {
        match pager.allocate_page(&shared, Turn::Proceed) {
            Ok(AllocateStep::Continue) => {}
            Ok(step) => panic!("{step:?}"),
            Err(e) => break e,
        }
    };
    assert_eq!(refused, LimboError::DatabaseFull);
}

#[test]
fn pages_that_cannot_be_free_are_refused() {
    let (mut pager, shared) = pager(5, 20, true);
    for page in [0, 1, 6] {
        let refused = loop {
            match pager.free_page(&shared, page, false, SpillOutcome::NotTried) {
                Ok(FreeStep::Continue) => {}
                Ok(step) => panic!("{step:?}"),
                Err(e) => break e,
            }
        };
        assert_eq!(
            refused,
            LimboError::Corrupt(Corruption::InvalidPageForFree { page_id: page })
        );
    }
}

#[test]
fn btree_and_overflow_pages() {
    let (mut pager, shared) = pager(1, 20, true);
    let root = loop {
        let step = pager.do_allocate_page(
            &shared,
            PageType::IndexLeaf,
            BtreePageAllocMode::Any,
            Turn::Proceed,
        );
        match step.unwrap() {
            AllocateStep::Done { page_no } => break page_no,
            AllocateStep::Continue => {}
            step => panic!("{step:?}"),
        }
    };
    let page = pager.page_cache.peek(root).unwrap();
    assert_eq!(page.inner.page_type(), Ok(PageType::IndexLeaf));
    assert_eq!(page.inner.cell_content_area(), 512);
    let overflow = loop {
        match pager.allocate_overflow_page(&shared, Turn::Proceed).unwrap() {
            AllocateStep::Done { page_no } => break page_no,
            AllocateStep::Continue => {}
            step => panic!("{step:?}"),
        }
    };
    assert_eq!(overflow, 3);
    assert_eq!(pager.page_cache.peek(3).unwrap().inner.as_slice(), &[0; SIZE]);
}

fn change(pager: &mut Pager, id: usize, byte: u8) {
    let mut page = pager.page_cache.take(id);
    pager.add_dirty(&mut page);
    page.inner.as_ptr()[200] = byte;
    pager.page_cache.put(id, page);
}

#[test]
fn rolling_back_to_a_savepoint_restores_pages() {
    let (mut pager, mut shared) = pager(3, 20, true);
    pager.page_cache.insert(2, loaded(2, 7)).unwrap();
    pager.open_subjournal();
    assert_eq!(pager.try_use_subjournal(), Ok(()));
    assert_eq!(pager.try_use_subjournal(), Err(LimboError::Busy));
    assert!(pager.subjournal_in_use());
    pager.open_savepoint(3);
    change(&mut pager, 2, 1);
    change(&mut pager, 2, 2);
    // The first image is kept.
    assert_eq!(pager.subjournal.as_ref().unwrap().size(), 4 + SIZE as u64);
    assert_eq!(allocate(&mut pager, &shared), 4);
    assert_eq!(pager.rollback_to_newest_savepoint(&mut shared), Ok(true));
    assert_eq!(pager.page_cache.peek(2).unwrap().inner.as_slice(), &[7; SIZE]);
    assert_eq!(header(&mut pager).database_size, 3);
    assert_eq!(pager.subjournal.as_ref().unwrap().size(), 0);
    assert!(!pager.dirty_pages.contains(4));
    assert_eq!(pager.rollback_to_newest_savepoint(&mut shared), Ok(false));
    pager.stop_use_subjournal();
    assert!(!pager.subjournal_in_use());
}

// Pages that have left the cache since are put back as well, if there is room.
#[test]
fn rolling_back_to_a_savepoint_restores_pages_that_are_gone() {
    let (mut pager, mut shared) = pager(3, 20, true);
    pager.page_cache.insert(2, loaded(2, 7)).unwrap();
    pager.open_subjournal();
    pager.open_savepoint(3);
    change(&mut pager, 2, 1);
    let _gone = pager.page_cache.take(2);
    assert_eq!(pager.rollback_to_newest_savepoint(&mut shared), Ok(true));
    assert_eq!(pager.page_cache.peek(2).unwrap().inner.as_slice(), &[7; SIZE]);
}

// A page beyond the savepoint's size that is still in use stops the rollback there.
#[test]
fn rolling_back_to_a_savepoint_stops_at_pages_in_use() {
    let (mut pager, mut shared) = pager(3, 20, true);
    for id in [5, 6, 7] {
        pager.page_cache.insert(id, loaded(id, 7)).unwrap();
    }
    let mut page = pager.page_cache.take(6);
    page.pin();
    pager.page_cache.put(6, page);
    pager.open_subjournal();
    pager.open_savepoint(3);
    assert_eq!(
        pager.rollback_to_newest_savepoint(&mut shared),
        Err(LimboError::CacheError(CacheError::Pinned { page_id: 6 }))
    );
    let there: Vec<usize> = (1..9).filter(|id| pager.page_cache.contains_key(*id)).collect();
    assert_eq!(there, vec![1, 6, 7]);
}

#[test]
fn releasing_a_savepoint_keeps_the_changes() {
    let (mut pager, mut shared) = pager(3, 20, true);
    pager.page_cache.insert(2, loaded(2, 7)).unwrap();
    pager.open_subjournal();
    pager.open_savepoint(3);
    change(&mut pager, 2, 1);
    pager.release_savepoint();
    assert_eq!(pager.subjournal.as_ref().unwrap().size(), 0);
    assert_eq!(pager.rollback_to_newest_savepoint(&mut shared), Ok(false));
    assert_eq!(pager.page_cache.peek(2).unwrap().inner.as_slice()[200], 1);
    pager.open_savepoint(3);
    change(&mut pager, 2, 3);
    pager.clear_savepoints();
    assert_eq!(pager.subjournal.as_ref().unwrap().size(), 0);
}

fn spill(pager: &mut Pager, shared: &mut WalFileShared, modify: Option<usize>) -> bool {
    let mut outcome = IoOutcome::Pending;
    loop {
        let encoded = pager.spill_input();
        match pager.try_spill_dirty_pages(shared, START, &encoded, outcome).unwrap() {
            IOResult::Done(spilled) => return spilled,
            IOResult::IO(io) => {
                if let IoRequest::WriteFrames { frames } = &io {
                    assert_eq!(frames.bufs.len(), frames.metadata.len());
                    if let Some(id) = modify {
                        change(pager, id, 9);
                    }
                }
                outcome = IoOutcome::Succeeded;
            }
        }
    }
}

#[test]
fn spilled_pages_make_room() {
    let (mut pager, mut shared) = pager(9, 4, true);
    pager.set_spill_enabled(true);
    assert!(pager.get_spill_enabled());
    assert!(!spill(&mut pager, &mut shared, None));
    for id in [2, 3, 4] {
        pager.page_cache.insert(id, loaded(id, id as u8)).unwrap();
        change(&mut pager, id, 1);
    }
    change(&mut pager, 1, 0);
    assert_eq!(
        pager.read_page(&shared, 8, SpillOutcome::Nothing).unwrap_err(),
        LimboError::Busy
    );
    assert!(matches!(
        pager.read_page(&shared, 8, SpillOutcome::NotTried),
        Ok(ReadStep::Spill)
    ));
    assert_eq!(
        pager.read_page(&shared, 8, SpillOutcome::Spilled).unwrap_err(),
        LimboError::CacheError(CacheError::Full)
    );
    assert!(spill(&mut pager, &mut shared, Some(3)));
    assert_eq!(pager.wal.as_ref().unwrap().get_max_frame(), 4);
    assert_eq!(shared.max_frame, 0);
    // Page 3 was modified meanwhile, the others may leave.
    let modified = pager.page_cache.peek(3).unwrap();
    assert!(modified.is_dirty() && !modified.is_spilled() && !modified.has_wal_tag());
    let kept = pager.page_cache.peek(2).unwrap();
    assert!(kept.is_spilled() && !kept.is_pinned());
    assert_eq!(kept.wal_tag_pair(), (2, shared.epoch));
    assert!(pager.dirty_pages.contains(2));
    match pager.read_page(&shared, 8, SpillOutcome::NotTried).unwrap() {
        ReadStep::Started(plan) => assert_eq!(plan, ReadPlan::Database),
        step => panic!("{step:?}"),
    }
    // What has left the cache is read from its frame.
    let gone = (1..5).find(|id| !pager.page_cache.contains_key(*id)).unwrap();
    let (_, plan) = pager.read_page_no_cache(&shared, gone as i64, None);
    assert!(matches!(plan, ReadPlan::Frame { frame_id, .. } if frame_id == gone as u64));
}

#[test]
fn a_database_without_a_log_spills_to_its_file() {
    let (mut pager, mut shared) = pager(9, 2, false);
    pager.set_spill_enabled(true);
    pager.page_cache.insert(2, loaded(2, 6)).unwrap();
    change(&mut pager, 2, 1);
    let encoded = pager.spill_input();
    assert_eq!(encoded.len(), 1);
    assert_eq!(encoded[0].page_id, 2);
    match pager.ensure_cache_space(&mut shared, START, &encoded, IoOutcome::Pending).unwrap() {
        IOResult::IO(IoRequest::WriteDbPages { pages }) => {
            assert_eq!(pages[0].data[200], 1);
        }
        other => panic!("{other:?}"),
    }
    let none = Vec::new();
    assert!(matches!(
        pager.wait_for_spill_completions(&mut shared, START, &none, IoOutcome::Pending),
        Ok(IOResult::IO(IoRequest::Yield))
    ));
    assert!(matches!(
        pager.wait_for_spill_completions(&mut shared, START, &none, IoOutcome::Succeeded),
        Ok(IOResult::Done(()))
    ));
    assert!(!pager.page_cache.peek(2).unwrap().is_dirty());
}

#[test]
fn what_needs_a_log_fails_without_one() {
    let no_wal = LimboError::InternalError(InternalFault::NoWal);
    let (mut pager, mut shared) = pager(3, 9, false);
    let none: Vec<FrameInput> = Vec::new();
    assert_eq!(
        pager.commit_dirty_pages(&mut shared, MODE, &none, IoOutcome::Pending).unwrap_err(),
        no_wal
    );
    assert_eq!(
        pager.cacheflush(&mut shared, START, Vec::new(), IoOutcome::Pending).unwrap_err(),
        no_wal
    );
    let args = CheckpointArgs {
        mode: CheckpointMode::Full,
        sync_mode: SyncMode::Full,
        clear_page_cache: true,
        salt_2: 0,
        db_file_size: 0,
    };
    assert_eq!(pager.checkpoint(&mut shared, args).unwrap_err(), no_wal);
    assert_eq!(pager.checkpoint_shutdown(false, ShutdownProgress::Started), Err(no_wal));
    assert_eq!(pager.wal_state(&shared), Err(no_wal));
    assert_eq!(pager.wal_get_frame(&shared, 1), Err(no_wal));
    assert!(pager.plan_insert_frame(&shared, 1, &vec![0; 24 + SIZE]).is_err());
    // Reads and transactions need none.
    assert!(matches!(pager.begin_read_tx(&mut shared, 0), Ok(BeginRead::Started(false))));
    assert!(matches!(
        pager.commit_tx(&mut shared, false, MODE, &none, IoOutcome::Pending, 0, 0),
        Ok(CommitTxStep::Done)
    ));
    let (page, plan) = pager.read_page_no_cache(&shared, 2, None);
    assert_eq!(plan, ReadPlan::Database);
    assert!(page.is_locked());
}

#[test]
fn a_failed_write_leaves_the_log_as_it_was() {
    let (mut pager, mut shared) = pager(3, 9, true);
    pager.page_cache.insert(2, loaded(2, 6)).unwrap();
    change(&mut pager, 2, 1);
    let mut outcome = IoOutcome::Pending;
    let mut encoded = Vec::new();
    let failed = loop {
        if matches!(
            pager.commit_info.state,
            turso_storage::pager_state::CommitState::PrepareFrames { .. }
        ) {
            encoded = pager.commit_input();
            assert_eq!(encoded.len(), 1);
            assert_eq!(encoded[0].data[200], 1);
        }
        match pager.commit_dirty_pages(&mut shared, MODE, &encoded, outcome) {
            Ok(CommitStep::Continue) => {}
            Ok(CommitStep::Io(IoRequest::WriteCommitFrames)) => {
                assert_eq!(pager.commit_info.prepared_frames.len(), 1);
                let frame = &pager.commit_info.prepared_frames[0].bufs[0];
                assert_eq!(parse_wal_frame_header(frame).db_size, 3);
                outcome = IoOutcome::Failed(CompletionError::Io);
            }
            Ok(CommitStep::Io(_)) => outcome = IoOutcome::Succeeded,
            Ok(CommitStep::Done) => panic!("the commit went through"),
            Err(e) => break e,
        }
    };
    assert_eq!(failed, LimboError::CompletionError(CompletionError::Io));
    assert_eq!(shared.max_frame, 0);
    assert_eq!(shared.transaction_count, 0);
    assert_eq!(shared.frame_cache.find(2, 0, 9), None);
    assert!(pager.commit_info.prepared_frames.is_empty());
    assert!(pager.dirty_pages.contains(2));
}

#[test]
fn a_flush_appends_without_committing() {
    let (mut pager, mut shared) = pager(3, 9, true);
    pager.page_cache.insert(2, loaded(2, 6)).unwrap();
    change(&mut pager, 2, 1);
    let mut outcome = IoOutcome::Pending;
    let mut written = 0;
    loop {
        let encoded = match pager.flush_input() {
            Some(input) => input.data,
            None => Vec::new(),
        };
        match pager.cacheflush(&mut shared, START, encoded, outcome).unwrap() {
            CacheFlushStep::Continue => {}
            CacheFlushStep::Io(_) => outcome = IoOutcome::Succeeded,
            CacheFlushStep::Read { page_id, .. } => panic!("{page_id}"),
            CacheFlushStep::Write(frames) => {
                written += frames.bufs.len();
                assert_eq!(parse_wal_frame_header(&frames.bufs[0]).db_size, 0);
                pager.frames_written(&frames.metadata, frames.epoch);
            }
            CacheFlushStep::Done => break,
        }
    }
    assert_eq!(written, 1);
    assert_eq!(shared.max_frame, 0);
    assert_eq!(pager.wal.as_ref().unwrap().get_max_frame(), 1);
    assert!(!pager.page_cache.peek(2).unwrap().is_dirty());
}

#[test]
fn a_stored_header_is_read() {
    let (mut pager, _shared) = pager(3, 9, true);
    let mut header = match HeaderRefMut::from_pager(&mut pager) {
        IOResult::Done(header) => header,
        IOResult::IO(io) => panic!("{io:?}"),
    };
    header.borrow_mut().user_version = 99;
    assert!(header.page(&pager).unwrap().is_dirty());
    header.store(&mut pager);
    match HeaderRef::from_pager(&pager) {
        IOResult::Done(r) => {
            assert_eq!(r.borrow().user_version, 99);
            assert_eq!(r.borrow().database_size, 3);
        }
        IOResult::IO(io) => panic!("{io:?}"),
    }
    let mut empty = Pager::new(None, PageCache::new(3), None);
    assert!(matches!(
        HeaderRef::from_pager(&empty),
        IOResult::IO(IoRequest::ReadPage { page_no: 1 })
    ));
    assert!(matches!(
        HeaderRefMut::from_pager(&mut empty),
        IOResult::IO(IoRequest::ReadPage { page_no: 1 })
    ));
    assert!(matches!(
        empty.set_max_page_count(9),
        IOResult::IO(IoRequest::ReadPage { page_no: 1 })
    ));
}

#[test]
fn what_is_remembered_of_the_header() {
    let (mut pager, shared) = pager(3, 9, true);
    assert_eq!(pager.get_schema_cookie_cached(), None);
    assert!(matches!(pager.get_schema_cookie(), IOResult::Done(5)));
    assert_eq!(pager.get_schema_cookie_cached(), Some(5));
    pager.set_schema_cookie(Some(6));
    assert!(matches!(pager.get_schema_cookie(), IOResult::Done(6)));
    pager.set_schema_cookie(None);
    assert!(matches!(pager.usable_space(false), IOResult::Done(512)));
    pager.set_reserved_space_bytes(12);
    assert_eq!(pager.get_reserved_space(), Some(12));
    assert!(matches!(pager.usable_space(false), IOResult::Done(500)));
    assert_eq!(pager.get_page_size().unwrap().get(), 512);
    assert_eq!(pager.get_page_size_unchecked().get(), 512);
    assert!(pager.db_initialized());
    assert!(!pager.allocating_page1());
    assert!(pager.has_page(1));
    assert!(!pager.has_page(2));
    let state = pager.wal_state(&shared).unwrap();
    assert_eq!((state.checkpoint_seq_no, state.max_frame), (0, 0));

    let mut fresh = Pager::new(None, PageCache::new(3), Some(default_page1(None)));
    assert!(!fresh.db_initialized());
    assert_eq!(fresh.get_page_size(), None);
    assert_eq!(fresh.pending_byte_page_id(), None);
    fresh.set_initial_page_size(PageSize::new(1024).unwrap());
    assert_eq!(fresh.get_page_size().unwrap().get(), 1024);
    assert_eq!(header(&mut fresh).page_size.get(), 1024);
    let mut unknown = Pager::new(None, PageCache::new(3), None);
    assert!(matches!(
        unknown.usable_space(false),
        IOResult::IO(IoRequest::ReadPage { page_no: 1 })
    ));
    assert_eq!(unknown.get_page_size(), None);
    // Only if page 1 cannot be read, a default is taken.
    assert!(matches!(unknown.usable_space(true), IOResult::Done(4096)));
    assert_eq!(unknown.get_page_size().unwrap().get(), 4096);
}

#[test]
fn page_1_finds_no_room_in_a_full_cache() {
    let mut pager = Pager::new(None, PageCache::new(1), Some(default_page1(None)));
    let mut other = loaded(2, 0);
    other.set_dirty();
    pager.page_cache.insert(2, other).unwrap();
    assert!(matches!(
        pager.allocate_page1(0),
        Ok(IOResult::IO(IoRequest::WriteDbPages { .. }))
    ));
    assert!(pager.allocating_page1());
    assert_eq!(
        pager.allocate_page1(0).unwrap_err(),
        LimboError::InternalError(InternalFault::CacheInsert {
            page_id: 1,
            reason: CacheError::Full
        })
    );
}

#[test]
fn a_checkpoint_may_not_drop_dirty_pages() {
    let (mut pager, mut shared) = pager(3, 9, true);
    change(&mut pager, 1, 0);
    let args = CheckpointArgs {
        mode: CheckpointMode::Passive { upper_bound_inclusive: None },
        sync_mode: SyncMode::Full,
        clear_page_cache: true,
        salt_2: 0,
        db_file_size: 0,
    };
    let failed = loop {
        match pager.checkpoint(&mut shared, args) {
            Ok(PagerCheckpointStep::Continue) => assert!(pager.is_checkpointing()),
            Ok(step) => panic!("{step:?}"),
            Err(e) => break e,
        }
    };
    assert_eq!(
        failed,
        LimboError::InternalError(InternalFault::CacheClear {
            reason: CacheError::Dirty { page_id: 1 }
        })
    );
    pager.clear_checkpoint_state(&mut shared);
    assert!(!pager.is_checkpointing());
}

// The file of a database of 8 GiB is cut down to that.
#[test]
fn a_large_database_file_is_cut_down() {
    let (mut pager, mut shared) = pager(1 << 24, 9, true);
    let mode = CheckpointMode::Truncate { upper_bound_inclusive: None };
    pager.checkpoint_state.phase = CheckpointPhase::TruncateDbFile {
        sync_mode: SyncMode::Full,
        clear_page_cache: false,
        page1_invalidated: true,
    };
    pager.checkpoint_state.result = Some(CheckpointResult::new(1, 1, 1));
    pager.checkpoint_state.mode = Some(mode);
    let args = CheckpointArgs {
        mode,
        sync_mode: SyncMode::Full,
        clear_page_cache: false,
        salt_2: 0,
        db_file_size: (1 << 33) + SIZE as u64,
    };
    match pager.checkpoint(&mut shared, args).unwrap() {
        PagerCheckpointStep::Io(IoRequest::TruncateDb { size }) => assert_eq!(size, 1 << 33),
        step => panic!("{step:?}"),
    }
}

#[test]
fn shutting_down() {
    let (mut pager, _shared) = pager(3, 9, true);
    assert_eq!(
        pager.checkpoint_shutdown(false, ShutdownProgress::Started),
        Ok(ShutdownStep::SyncWal)
    );
    assert!(pager.wal.as_ref().unwrap().is_syncing());
    assert_eq!(
        pager.checkpoint_shutdown(false, ShutdownProgress::Synced(IoOutcome::Pending)),
        Ok(ShutdownStep::Wait)
    );
    assert_eq!(
        pager.checkpoint_shutdown(false, ShutdownProgress::Synced(IoOutcome::Succeeded)),
        Ok(ShutdownStep::Checkpoint { attempts: 0 })
    );
    assert_eq!(
        pager.checkpoint_shutdown(false, ShutdownProgress::Tried { attempts: 2, busy: true }),
        Ok(ShutdownStep::Checkpoint { attempts: 3 })
    );
    assert_eq!(
        pager.checkpoint_shutdown(false, ShutdownProgress::Tried { attempts: 3, busy: true }),
        Ok(ShutdownStep::Done)
    );
    assert_eq!(
        pager.checkpoint_shutdown(true, ShutdownProgress::Synced(IoOutcome::Succeeded)),
        Ok(ShutdownStep::Done)
    );
    assert_eq!(
        pager.checkpoint_shutdown(
            false,
            ShutdownProgress::Synced(IoOutcome::Failed(CompletionError::Io))
        ),
        Err(LimboError::CompletionError(CompletionError::Io))
    );
}

#[test]
fn an_inserted_frame_takes_the_place_of_a_page() {
    let (mut pager, shared) = pager(3, 9, true);
    pager.page_cache.insert(2, loaded(2, 6)).unwrap();
    change(&mut pager, 1, 0);
    let (_, frame) = prepare_wal_frame(&shared.wal_header, (0, 0), 2, 3, &[8; SIZE]);
    match pager.wal_insert_frame(&frame).unwrap() {
        IOResult::Done(info) => assert_eq!((info.page_no, info.db_size), (2, 3)),
        IOResult::IO(io) => panic!("{io:?}"),
    }
    assert_eq!(pager.page_cache.peek(2).unwrap().inner.as_slice(), &[8; SIZE]);
    // It commits, so nothing is dirty any more.
    assert!(pager.dirty_pages.is_empty());
    assert!(!pager.page_cache.peek(1).unwrap().is_dirty());
    // A new page 1 cuts the cache down to the database's size.
    let mut header = header(&mut pager);
    header.database_size = 1;
    let mut page1 = loaded(1, 0);
    page1.inner.write_database_header(&header);
    let (_, frame) =
        prepare_wal_frame(&shared.wal_header, (0, 0), 1, 0, page1.inner.as_slice());
    let mut pinned = pager.page_cache.take(2);
    pinned.pin();
    pager.page_cache.put(2, pinned);
    assert_eq!(
        pager.wal_insert_frame(&frame).unwrap_err(),
        LimboError::InternalError(InternalFault::CacheTruncate {
            reason: CacheError::Pinned { page_id: 2 }
        })
    );
    let mut page = pager.page_cache.take(2);
    page.unpin();
    pager.page_cache.put(2, page);
    assert!(pager.wal_insert_frame(&frame).is_ok());
    assert!(!pager.page_cache.contains_key(2));
}

#[test]
fn encryption_has_to_be_enabled() {
    let (mut pager, _shared) = pager(3, 9, true);
    assert_eq!(
        pager.set_encryption_context(Ok(())),
        Err(LimboError::InvalidArgument(BadArgument::EncryptionNotEnabled))
    );
    assert_eq!(pager.page_cache.len(), 1);
    pager.enable_encryption(true);
    assert_eq!(pager.set_encryption_context(Err(LimboError::Busy)), Err(LimboError::Busy));
    assert_eq!(pager.page_cache.len(), 1);
    pager.set_schema_cookie(Some(3));
    assert_eq!(pager.set_encryption_context(Ok(())), Ok(()));
    assert_eq!(pager.page_cache.len(), 0);
    assert_eq!(pager.get_schema_cookie_cached(), None);
}

#[test]
fn damaged_pointer_maps() {
    let (mut pager, _shared) = pager(9, 9, true);
    pager.page_cache.insert(2, loaded(2, 0xee)).unwrap();
    assert_eq!(
        pager.ptrmap_get(4).unwrap_err(),
        LimboError::Corrupt(Corruption::PtrmapEntry { page_no: 4, ptrmap_page_no: 2 })
    );
    let mut short = pager.page_cache.take(2);
    short.inner.buffer = Some(vec![0; 9]);
    pager.page_cache.put(2, short);
    assert_eq!(
        pager.ptrmap_get(4).unwrap_err(),
        LimboError::InternalError(InternalFault::PtrmapOffsetOutOfBounds {
            offset: 5,
            page_id: 2,
            len: 9
        })
    );
    assert_eq!(
        get_ptrmap_offset_in_page(105, 104, 512),
        Err(LimboError::InternalError(InternalFault::PtrmapEntryForPtrmapPage { page_no: 105 }))
    );
}

#[test]
fn the_cache_is_made_smaller() {
    let (mut pager, _shared) = pager(9, 9, true);
    for id in 2..8 {
        pager.page_cache.insert(id, loaded(id, 0)).unwrap();
    }
    assert!(matches!(pager.change_page_cache_size(3), CacheResizeResult::Done));
    assert_eq!(pager.page_cache.len(), 3);
    pager.clear_page_cache(false);
    assert_eq!(pager.page_cache.len(), 0);
}
