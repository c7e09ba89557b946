//! The pointer map: where its pages are, and what is in them.

use turso_storage::create::{default_page1, CreateStep};
use turso_storage::error::{InternalFault, LimboError};
use turso_storage::freelist::{AllocateStep, Turn};
use turso_storage::ondisk::PageSize;
use turso_storage::page_cache::PageCache;
use turso_storage::pager::Pager;
use turso_storage::pager_state::{AutoVacuumMode, CreateBTreeFlags, IOResult, IoRequest};
use turso_storage::ptrmap::{
    entries_per_ptrmap_page, get_ptrmap_offset_in_page, get_ptrmap_page_no_for_db_page,
    is_ptrmap_page, ptrmap_page_cycle_length, PtrmapEntry, PtrmapType, FIRST_PTRMAP_PAGE_NO,
    PTRMAP_ENTRY_SIZE,
};
use turso_storage::read::{ReadStep, SpillOutcome};
use turso_storage::wal::WalFile;
use turso_storage::wal_shared::WalFileShared;

fn test_pager_setup(page_size: u32, initial_db_pages: u32) -> (Pager, WalFileShared) {
    let pages = initial_db_pages + 10;
    let sz = std::cmp::max(std::cmp::min(pages, 64), pages);
    let shared = WalFileShared::new_shared(false);
    let (checksum, max_frame) = shared.last_checksum_and_max_frame();
    let wal = WalFile::new(checksum, max_frame);
    let mut pager =
        Pager::new(Some(wal), PageCache::new(sz as usize), Some(default_page1(None)));
    let mut writes = 0;
    loop {
        match pager.allocate_page1(0).unwrap() {
            IOResult::Done(_) => break,
            IOResult::IO(IoRequest::WriteDbPages { pages }) => {
                assert_eq!(pages.len(), 1);
                assert_eq!(pages[0].data.len(), page_size as usize);
                writes += 1;
            }
            IOResult::IO(io) => panic!("{io:?}"),
        }
    }
    assert_eq!(writes, 1);
    let mut header = match pager.with_header() {
        IOResult::Done(header) => header,
        IOResult::IO(io) => panic!("{io:?}"),
    };
    header.vacuum_mode_largest_root_page = 1;
    assert!(matches!(pager.with_header_mut(&header), IOResult::Done(())));
    pager.set_auto_vacuum_mode(AutoVacuumMode::Full);

    // page1 = 1, first ptrmap page = 2, root page = 3
    const EXPECTED_FIRST_ROOT_PAGE_ID: u32 = 3;
    for i in 0..initial_db_pages {
        let mut turn = Turn::Enter;
        let root_page_id = loop {
            let flags = CreateBTreeFlags::new_table();
            match pager.btree_create(&shared, &flags, turn) {
                Ok(CreateStep::Continue) => turn = Turn::Enter,
                Ok(CreateStep::Allocating(AllocateStep::Continue)) => turn = Turn::Proceed,
                Ok(CreateStep::Done { root }) => break root,
                Ok(step) => panic!("a page is not cached: {step:?}"),
                Err(e) => panic!("test_pager_setup: btree_create failed: {e:?}"),
            }
        };
        assert_eq!(root_page_id, EXPECTED_FIRST_ROOT_PAGE_ID + i);
    }
    (pager, shared)
}

#[test]
fn test_ptrmap_page_allocation() {
    let page_size = 4096;
    let initial_db_pages = 10;
    let (mut pager, shared) = test_pager_setup(page_size, initial_db_pages);

    // Page 5 should be mapped by ptrmap page 2.
    let db_page_to_update: u32 = 5;
    let expected_ptrmap_pg_no =
        get_ptrmap_page_no_for_db_page(db_page_to_update, page_size as usize);
    assert_eq!(expected_ptrmap_pg_no, FIRST_PTRMAP_PAGE_NO);

    //  Ensure the pointer map page ref is created and loadable via the pager
    let ptrmap_page_ref =
        pager.read_page(&shared, expected_ptrmap_pg_no as i64, SpillOutcome::NotTried);
    assert!(ptrmap_page_ref.is_ok());
    assert!(matches!(ptrmap_page_ref, Ok(ReadStep::Ready)));

    //  Ensure that the database header size is correctly reflected
    let database_size = match pager.with_header() {
        IOResult::Done(header) => header.database_size,
        IOResult::IO(io) => panic!("{io:?}"),
    };
    assert_eq!(database_size, initial_db_pages + 2); // (1+1) -> (header + ptrmap)

    //  Read the entry from the ptrmap page and verify it
    let entry = loop {
        match pager.ptrmap_get(db_page_to_update).unwrap() {
            IOResult::Done(entry) => break entry.unwrap(),
            IOResult::IO(io) => panic!("{io:?}"),
        }
    };
    assert_eq!(entry.entry_type, PtrmapType::RootPage);
    assert_eq!(entry.parent_page_no, 0);
}

#[test]
fn test_is_ptrmap_page_logic() {
    let page_size = PageSize::MIN as usize;
    let n_data_pages = entries_per_ptrmap_page(page_size);
    assert_eq!(n_data_pages, 102); //   512/5 = 102

    assert!(!is_ptrmap_page(1, page_size)); // Header
    assert!(is_ptrmap_page(2, page_size)); // P0
    assert!(!is_ptrmap_page(3, page_size)); // D0_1
    assert!(!is_ptrmap_page(4, page_size)); // D0_2
    assert!(!is_ptrmap_page(5, page_size)); // D0_3
    assert!(is_ptrmap_page(105, page_size)); // P1
    assert!(!is_ptrmap_page(106, page_size)); // D1_1
    assert!(!is_ptrmap_page(107, page_size)); // D1_2
    assert!(!is_ptrmap_page(108, page_size)); // D1_3
    assert!(is_ptrmap_page(208, page_size)); // P2
}

#[test]
fn test_get_ptrmap_page_no() {
    let page_size = PageSize::MIN as usize; // Maps 103 data pages

    // Test pages mapped by P0 (page 2)
    assert_eq!(get_ptrmap_page_no_for_db_page(3, page_size), 2); // D(3) -> P0(2)
    assert_eq!(get_ptrmap_page_no_for_db_page(4, page_size), 2); // D(4) -> P0(2)
    assert_eq!(get_ptrmap_page_no_for_db_page(5, page_size), 2); // D(5) -> P0(2)
    assert_eq!(get_ptrmap_page_no_for_db_page(104, page_size), 2); // D(104) -> P0(2)

    assert_eq!(get_ptrmap_page_no_for_db_page(105, page_size), 105); // Page 105 is a pointer map page.

    // Test pages mapped by P1 (page 6)
    assert_eq!(get_ptrmap_page_no_for_db_page(106, page_size), 105); // D(106) -> P1(105)
    assert_eq!(get_ptrmap_page_no_for_db_page(107, page_size), 105); // D(107) -> P1(105)
    assert_eq!(get_ptrmap_page_no_for_db_page(108, page_size), 105); // D(108) -> P1(105)

    assert_eq!(get_ptrmap_page_no_for_db_page(208, page_size), 208); // Page 208 is a pointer map page.
}

#[test]
fn test_get_ptrmap_offset() {
    let page_size = PageSize::MIN as usize; //  Maps 103 data pages

    assert_eq!(get_ptrmap_offset_in_page(3, 2, page_size).unwrap(), 0);
    assert_eq!(get_ptrmap_offset_in_page(4, 2, page_size).unwrap(), PTRMAP_ENTRY_SIZE);
    assert_eq!(get_ptrmap_offset_in_page(5, 2, page_size).unwrap(), 2 * PTRMAP_ENTRY_SIZE);

    //  P1 (page 105) maps D(106)...D(207)
    // D(106) is index 0 on P1. Offset 0.
    // D(107) is index 1 on P1. Offset 5.
    // D(108) is index 2 on P1. Offset 10.
    assert_eq!(get_ptrmap_offset_in_page(106, 105, page_size).unwrap(), 0);
    assert_eq!(get_ptrmap_offset_in_page(107, 105, page_size).unwrap(), PTRMAP_ENTRY_SIZE);
    assert_eq!(get_ptrmap_offset_in_page(108, 105, page_size).unwrap(), 2 * PTRMAP_ENTRY_SIZE);
}

#[test]
fn ptrmap_offset_of_a_page_elsewhere_is_refused() {
    assert_eq!(ptrmap_page_cycle_length(512), 103);
    let refused = get_ptrmap_offset_in_page(106, 2, 512);
    assert_eq!(
        refused,
        Err(LimboError::InternalError(InternalFault::PtrmapPageNotMapped {
            page_no: 106,
            ptrmap_page_no: 2
        }))
    );
}

#[test]
fn ptrmap_entry_comes_back_as_it_went_in() {
    let entry = PtrmapEntry { entry_type: PtrmapType::Overflow2, parent_page_no: 0x01020304 };
    let mut buf = [0u8; 8];
    entry.serialize(&mut buf).unwrap();
    assert_eq!(buf, [4, 1, 2, 3, 4, 0, 0, 0]);
    assert_eq!(PtrmapEntry::deserialize(&buf), Some(entry));
    assert_eq!(PtrmapEntry::deserialize(&[9, 0, 0, 0, 1]), None);
    assert_eq!(PtrmapEntry::deserialize(&[1, 0, 0, 0]), None);
    let mut short = [0u8; 4];
    assert_eq!(
        entry.serialize(&mut short),
        Err(LimboError::InternalError(InternalFault::PtrmapBufferTooSmall { len: 4 }))
    );
}

#[test]
fn put_entry_is_what_get_finds() {
    let (mut pager, _shared) = test_pager_setup(4096, 3);
    loop {
        match pager.ptrmap_put(4, PtrmapType::BTreeNode, 3).unwrap() {
            IOResult::Done(()) => break,
            IOResult::IO(io) => panic!("{io:?}"),
        }
    }
    match pager.ptrmap_get(4).unwrap() {
        IOResult::Done(entry) => assert_eq!(
            entry,
            Some(PtrmapEntry { entry_type: PtrmapType::BTreeNode, parent_page_no: 3 })
        ),
        IOResult::IO(io) => panic!("{io:?}"),
    }
    match pager.ptrmap_get(3).unwrap() {
        IOResult::Done(entry) => assert_eq!(
            entry,
            Some(PtrmapEntry { entry_type: PtrmapType::RootPage, parent_page_no: 0 })
        ),
        IOResult::IO(io) => panic!("{io:?}"),
    }
    // Page 1 and the map itself have no entry.
    assert!(matches!(pager.ptrmap_get(1), Ok(IOResult::Done(None))));
    assert!(matches!(pager.ptrmap_get(2), Ok(IOResult::Done(None))));
    let refused = pager.ptrmap_put(2, PtrmapType::BTreeNode, 3);
    assert!(matches!(
        refused,
        Err(LimboError::InternalError(InternalFault::PtrmapEntryNotAllowed { page_no: 2 }))
    ));
}
