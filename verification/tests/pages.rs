//! Pages in memory, their cells, and the cache that holds them.

use turso_storage::bitmap::PageSet;
use turso_storage::cell::BTreeCell;
use turso_storage::create::{btree_init_page, default_page1};
use turso_storage::db_header::DatabaseHeader;
use turso_storage::error::{CacheError, Corruption, LimboError};
use turso_storage::ondisk::{
    payload_overflow_threshold_max, payload_overflow_threshold_min, payload_overflows, read_varint,
    PageSize, PageType,
};
use turso_storage::page::{
    pack_tag_pair, unpack_tag_pair, Page, PageInner, EPOCH_MAX, FRAME_MAX, TAG_UNSET,
};
use turso_storage::page_cache::{CacheResizeResult, PageCache, SpillResult};
use turso_storage::pager_state::{AutoVacuumMode, CreateBTreeFlags};

fn page_with(id: usize, data: Vec<u8>) -> Page {
    let mut page = Page::new(id as i64);
    page.inner.buffer = Some(data);
    page.set_loaded();
    page
}

#[test]
fn tags_hold_a_frame_and_an_epoch() {
    let tag = pack_tag_pair(5, 3);
    assert_eq!(tag, (3u64 << 44) | 5);
    assert_eq!(unpack_tag_pair(tag), (5, 3));
    assert_eq!(unpack_tag_pair(pack_tag_pair(FRAME_MAX, EPOCH_MAX)), (FRAME_MAX, EPOCH_MAX));
    assert_eq!(unpack_tag_pair(pack_tag_pair(FRAME_MAX + 8, 0x10_0002)), (7, 2));
}

#[test]
fn a_modified_page_is_in_no_frame() {
    let mut page = page_with(7, vec![0; 512]);
    assert!(!page.has_wal_tag());
    page.set_wal_tag(9, 4);
    assert_eq!(page.wal_tag_pair(), (9, 4));
    assert!(page.has_wal_tag());
    assert!(page.is_valid_for_checkpoint(9, 4));
    assert!(!page.is_valid_for_checkpoint(9, 5));
    assert!(!page.is_valid_for_checkpoint(8, 4));
    page.set_locked();
    assert!(!page.is_valid_for_checkpoint(9, 4));
    page.clear_locked();
    page.set_spilled();
    page.set_dirty();
    assert!(!page.is_valid_for_checkpoint(9, 4));
    assert!(!page.has_wal_tag());
    assert!(!page.is_spilled());
    assert!(page.is_dirty());
    // A frame that no tag can hold leaves the page without one.
    page.clear_dirty();
    page.set_wal_tag(FRAME_MAX + 1, 0);
    assert!(!page.has_wal_tag());
    assert_eq!(page.inner.wal_tag, TAG_UNSET);
}

#[test]
fn a_write_in_progress_tells_modifications() {
    let mut page = page_with(7, vec![0; 512]);
    page.set_write_pending();
    assert!(!page.has_wal_tag());
    assert!(page.try_set_wal_tag(3, 1));
    assert_eq!(page.wal_tag_pair(), (3, 1));
    page.clear_dirty_keep_wal_tag();
    assert_eq!(page.wal_tag_pair(), (3, 1));
    page.set_write_pending();
    page.set_dirty();
    assert!(!page.try_set_wal_tag(4, 1));
    assert!(!page.has_wal_tag());
}

#[test]
fn pins_are_counted() {
    let mut page = Page::new(1);
    assert!(!page.is_pinned());
    assert!(!page.try_unpin());
    page.pin();
    page.pin();
    page.unpin();
    assert!(page.is_pinned());
    assert!(page.try_unpin());
    assert!(!page.is_pinned());
}

#[test]
fn fields_of_page_1_come_after_the_header() {
    let mut page = page_with(1, vec![0; 512]);
    assert_eq!(page.inner.offset(), 100);
    page.inner.write_page_type(13);
    page.inner.write_cell_count(0x0102);
    assert_eq!(page.inner.as_slice()[100], 13);
    assert_eq!(page.inner.as_slice()[103..105], [1, 2]);
    assert_eq!(page.inner.cell_count(), 0x0102);
    assert_eq!(page.inner.read_u16_no_offset(103), 0x0102);
    page.inner.write_u32_no_offset(8, 0xdeadbeef);
    assert_eq!(page.inner.read_u32_no_offset(8), 0xdeadbeef);
    assert_eq!(page.inner.as_slice()[108], 0);
    assert_eq!(page.inner.cell_pointer_array_offset(), 108);
    assert_eq!(page.inner.cell_pointer_array_size(), 0x0204);
    assert_eq!(page.inner.unallocated_region_start(), 108 + 0x0204);
}

#[test]
fn btree_header_fields() {
    let mut page = page_with(5, vec![0; 512]);
    btree_init_page(&mut page, PageType::TableLeaf, 500);
    assert_eq!(page.inner.page_type(), Ok(PageType::TableLeaf));
    assert!(page.inner.is_leaf());
    assert_eq!(page.is_index(), Ok(false));
    assert_eq!(page.inner.cell_count(), 0);
    assert_eq!(page.inner.cell_content_area(), 500);
    assert_eq!(page.inner.header_size(), 8);
    assert_eq!(page.inner.unallocated_region_size(), 492);
    assert_eq!(page.inner.rightmost_pointer(), Ok(None));
    page.inner.write_cell_content_area(65536);
    assert_eq!(page.inner.as_slice()[5..7], [0, 0]);
    assert_eq!(page.inner.cell_content_area(), 65536);
    page.inner.write_fragmented_bytes_count(6);
    assert_eq!(page.inner.num_frag_free_bytes(), 6);
    page.inner.write_first_freeblock(300);
    assert_eq!(page.inner.first_freeblock(), 300);
    page.inner.write_freeblock(300, 20, Some(400));
    assert_eq!(page.inner.read_freeblock(300), (400, 20));
    page.inner.write_freeblock(400, 8, None);
    assert_eq!(page.inner.read_freeblock(400), (0, 8));
    page.inner.write_page_type(PageType::TableInterior.as_u8());
    page.inner.write_rightmost_ptr(77);
    assert_eq!(page.inner.rightmost_pointer(), Ok(Some(77)));
    assert_eq!(page.inner.rightmost_pointer_raw(), Ok(Some(8)));
    assert_eq!(page.inner.header_size(), 12);
    page.inner.write_page_type(PageType::IndexInterior.as_u8());
    assert_eq!(page.is_index(), Ok(true));
    page.inner.write_page_type(9);
    let bad = LimboError::Corrupt(Corruption::InvalidPageType { value: 9 });
    assert_eq!(page.inner.page_type(), Err(bad));
    assert_eq!(page.inner.rightmost_pointer(), Err(bad));
    assert_eq!(page.is_index(), Err(bad));
    // On a leaf only the type is looked at.
    let leaf = page_with(5, vec![PageType::TableLeaf.as_u8()]);
    assert_eq!(leaf.inner.rightmost_pointer(), Ok(None));
    assert_eq!(leaf.inner.rightmost_pointer_raw(), Ok(None));
}

fn put(page: &mut PageInner, at: usize, bytes: &[u8]) {
    page.as_ptr()[at..at + bytes.len()].copy_from_slice(bytes);
}

#[test]
fn table_leaf_cells() {
    let mut page = page_with(5, vec![0; 512]);
    btree_init_page(&mut page, PageType::TableLeaf, 512);
    page.inner.write_cell_count(2);
    page.inner.write_u16(8, 500);
    page.inner.write_u16(10, 490);
    put(&mut page.inner, 500, &[3, 7, b'a', b'b', b'c']);
    put(&mut page.inner, 490, &[0, 0x81, 0x00]);
    match page.inner.cell_get(0, 512).unwrap() {
        BTreeCell::TableLeaf { rowid, payload, payload_size, first_overflow_page } => {
            assert_eq!(rowid, 7);
            assert_eq!(payload, b"abc".to_vec());
            assert_eq!(payload_size, 3);
            assert_eq!(first_overflow_page, None);
        }
        cell => panic!("{cell:?}"),
    }
    assert_eq!(page.inner.cell_table_leaf_read_rowid(0), Ok(7));
    assert_eq!(page.inner.cell_table_leaf_read_rowid(1), Ok(128));
    assert_eq!(page.inner.cell_get_raw_start_offset(1), 490);
    assert_eq!(page.inner.cell_get_raw_region(0, 512), Ok((500, 5)));
    // An empty payload with a two-byte rowid takes three bytes, and a cell no less than four.
    assert_eq!(page.inner.cell_get_raw_region(1, 512), Ok((490, 4)));
}

#[test]
fn table_interior_cells() {
    let mut page = page_with(5, vec![0; 512]);
    btree_init_page(&mut page, PageType::TableInterior, 512);
    page.inner.write_cell_count(1);
    page.inner.write_u16(12, 480);
    put(&mut page.inner, 480, &[0, 0, 1, 2, 0xff, 0xff, 0xff, 0xff, 0xff, 0xff, 0xff, 0xff, 0xff]);
    match page.inner.cell_get(0, 512).unwrap() {
        BTreeCell::TableInterior { left_child_page, rowid } => {
            assert_eq!(left_child_page, 0x0102);
            assert_eq!(rowid, -1);
        }
        cell => panic!("{cell:?}"),
    }
    assert_eq!(page.inner.cell_table_interior_read_rowid(0), Ok(-1));
    assert_eq!(page.inner.cell_interior_read_left_child_page(0), Ok(0x0102));
    assert_eq!(page.inner.cell_get_raw_region(0, 512), Ok((480, 13)));
    page.inner.write_u16(12, 510);
    assert_eq!(
        page.inner.cell_interior_read_left_child_page(0),
        Err(LimboError::Corrupt(Corruption::CellPointerOutOfBounds {
            cell_pointer: 510,
            page_size: 512
        }))
    );
}

#[test]
fn index_cells_overflow() {
    assert_eq!(payload_overflow_threshold_max(PageType::IndexLeaf, 512), 102);
    assert_eq!(payload_overflow_threshold_max(PageType::TableLeaf, 512), 477);
    assert_eq!(payload_overflow_threshold_min(PageType::IndexLeaf, 512), 39);
    assert_eq!(payload_overflows(102, 102, 39, 512), (false, 0));
    assert_eq!(payload_overflows(200, 102, 39, 512), (true, 43));
    assert_eq!(payload_overflows(567, 102, 39, 512), (true, 63));

    let mut page = page_with(5, vec![0; 512]);
    btree_init_page(&mut page, PageType::IndexLeaf, 512);
    page.inner.write_cell_count(1);
    page.inner.write_u16(8, 400);
    // 200 bytes of payload: 39 on the page, then the first overflow page.
    put(&mut page.inner, 400, &[0x81, 0x48]);
    put(&mut page.inner, 402, &[9; 39]);
    put(&mut page.inner, 441, &[0, 0, 0, 88]);
    let (payload, size, overflow) = page.inner.cell_index_read_payload_ptr(0, 512).unwrap();
    assert_eq!(payload, &[9; 39]);
    assert_eq!(size, 200);
    assert_eq!(overflow, Some(88));
    match page.inner.cell_get(0, 512).unwrap() {
        BTreeCell::IndexLeaf { payload, payload_size, first_overflow_page } => {
            assert_eq!(payload, vec![9; 39]);
            assert_eq!(payload_size, 200);
            assert_eq!(first_overflow_page, Some(88));
        }
        cell => panic!("{cell:?}"),
    }
    assert_eq!(page.inner.cell_get_raw_region(0, 512), Ok((400, 45)));
    assert_eq!(
        page.inner._cell_get_raw_region_faster(0, 512, 1, 102, 39, PageType::IndexLeaf),
        (400, 45)
    );
}

#[test]
fn varints() {
    assert_eq!(read_varint(&[0x7f], 0), Ok((127, 1)));
    assert_eq!(read_varint(&[1, 0x81, 0x00], 1), Ok((128, 2)));
    assert_eq!(read_varint(&[0xff; 9], 0), Ok((u64::MAX, 9)));
    let bad = LimboError::Corrupt(Corruption::InvalidVarint);
    assert_eq!(read_varint(&[0x80], 0), Err(bad));
    assert_eq!(read_varint(&[0x80; 8], 0), Err(bad));
    assert_eq!(read_varint(&[1], 1), Err(bad));
}

#[test]
fn page_sizes() {
    assert_eq!(PageSize::new(512).unwrap().get(), 512);
    assert_eq!(PageSize::new(65536).unwrap().0, 1);
    assert_eq!(PageSize::new(65536).unwrap().get(), 65536);
    assert!(PageSize::new(1000).is_none());
    assert!(PageSize::new(256).is_none());
    assert!(PageSize::new(131072).is_none());
    assert_eq!(PageSize::default().get(), 4096);
    assert_eq!(
        PageType::from_u8(4),
        Err(LimboError::Corrupt(Corruption::InvalidPageType { value: 4 }))
    );
    assert_eq!(PageType::from_u8(2), Ok(PageType::IndexInterior));
}

#[test]
fn database_header_comes_back_as_it_went_in() {
    let mut header = DatabaseHeader::default();
    header.database_size = 0x01020304;
    header.schema_cookie = 77;
    header.reserved_space = 48;
    header.page_size = PageSize::new(65536).unwrap();
    let bytes = header.as_bytes();
    assert_eq!(bytes.len(), 100);
    assert_eq!(&bytes[0..16], b"SQLite format 3\0");
    assert_eq!(bytes[16..18], [0, 1]);
    assert_eq!(bytes[20], 48);
    assert_eq!(bytes[28..32], [1, 2, 3, 4]);
    let back = DatabaseHeader::parse(&bytes);
    assert_eq!(back.as_bytes(), bytes);
    assert_eq!(back.database_size, 0x01020304);
    assert_eq!(back.usable_space(), 65536 - 48);
}

#[test]
fn page_1_of_an_empty_database() {
    let page = default_page1(Some(32));
    assert_eq!(page.id(), 1);
    assert!(page.is_loaded());
    let header = DatabaseHeader::parse(page.inner.as_slice());
    assert_eq!(header.reserved_space, 32);
    assert_eq!(header.database_size, 0);
    assert_eq!(page.inner.page_type(), Ok(PageType::TableLeaf));
    assert_eq!(page.inner.cell_content_area(), 4096 - 32);
}

#[test]
fn autovacuum_modes_and_btree_flags() {
    for (mode, number) in [
        (AutoVacuumMode::Disabled, 0),
        (AutoVacuumMode::Full, 1),
        (AutoVacuumMode::Incremental, 2),
    ] {
        assert_eq!(mode.as_u8(), number);
        assert_eq!(AutoVacuumMode::from_u8(number), mode);
    }
    assert!(CreateBTreeFlags::new_table().is_table());
    assert!(!CreateBTreeFlags::new_table().is_index());
    assert!(CreateBTreeFlags::new_index().is_index());
    assert_eq!(CreateBTreeFlags::new_table().get_flags(), 1);
    assert_eq!(CreateBTreeFlags::new_index().get_flags(), 2);
}

#[test]
fn the_cache_finds_what_was_put_in() {
    let mut cache = PageCache::new(10);
    cache.insert(1, page_with(1, vec![0; 512])).unwrap();
    assert_eq!(cache.get(1).unwrap().id(), 1);
    assert!(cache.get(2).is_none());
    assert_eq!(cache.insert(1, page_with(1, vec![0; 512])), Err(CacheError::KeyExists));
    assert_eq!(cache.len(), 1);
    // A page that is neither loaded nor being loaded is dropped when it is asked for.
    cache.insert(3, Page::new(3)).unwrap();
    assert!(cache.contains_key(3));
    assert!(cache.get(3).is_none());
    assert!(!cache.contains_key(3));
}

#[test]
fn the_cache_keeps_pages_that_may_not_leave() {
    let mut cache = PageCache::new(3);
    let mut dirty = page_with(1, vec![0; 512]);
    dirty.set_dirty();
    let mut locked = page_with(2, vec![0; 512]);
    locked.set_locked();
    let mut pinned = page_with(3, vec![0; 512]);
    pinned.pin();
    cache.insert(1, dirty).unwrap();
    cache.insert(2, locked).unwrap();
    cache.insert(3, pinned).unwrap();
    assert_eq!(cache.insert(4, page_with(4, vec![0; 512])), Err(CacheError::Full));
    assert_eq!(cache.make_room_for(1), Err(CacheError::Full));
    assert_eq!(cache.delete(1), Err(CacheError::Dirty { page_id: 1 }));
    assert_eq!(cache.delete(2), Err(CacheError::Locked { page_id: 2 }));
    assert_eq!(cache.delete(3), Err(CacheError::Pinned { page_id: 3 }));
    assert_eq!(cache.delete(9), Ok(()));
    assert_eq!(cache.truncate(2), Err(CacheError::Pinned { page_id: 3 }));
    assert_eq!(cache.clear(false), Err(CacheError::Dirty { page_id: 1 }));
    assert_eq!(cache.len(), 3);
    // A spilled page may leave although it is dirty.
    let mut page = cache.take(1);
    page.set_spilled();
    cache.put(1, page);
    cache.insert(4, page_with(4, vec![0; 512])).unwrap();
    assert!(!cache.contains_key(1));
    assert_eq!(cache.clear(true), Ok(()));
    assert_eq!(cache.len(), 0);
}

#[test]
fn the_cache_is_resized() {
    let mut cache = PageCache::new(4);
    for id in 1..5 {
        cache.insert(id, page_with(id, vec![0; 512])).unwrap();
    }
    assert!(matches!(cache.resize(2), CacheResizeResult::Done));
    assert_eq!(cache.len(), 2);
    assert_eq!(cache.capacity(), 2);
    let mut page = cache.take(4);
    page.pin();
    cache.put(4, page);
    let mut page = cache.take(3);
    page.pin();
    cache.put(3, page);
    assert!(matches!(cache.resize(1), CacheResizeResult::PendingEvictions));
}

#[test]
fn the_cache_says_what_may_be_spilled() {
    let mut cache = PageCache::new(2);
    cache.set_spill_enabled(true);
    assert!(cache.is_spill_enabled());
    assert!(!cache.needs_spill());
    assert!(matches!(cache.check_spill(8), SpillResult::NotNeeded));
    for id in [6, 5] {
        let mut page = page_with(id, vec![0; 512]);
        page.set_dirty();
        cache.insert(id, page).unwrap();
    }
    assert!(cache.needs_spill());
    match cache.check_spill(8) {
        SpillResult::PagesToSpill(list) => assert_eq!(list, vec![5, 6]),
        other => panic!("{other:?}"),
    }
    match cache.check_spill(1) {
        SpillResult::PagesToSpill(list) => assert_eq!(list, vec![5]),
        other => panic!("{other:?}"),
    }
    cache.set_spill_enabled(false);
    assert!(matches!(cache.check_spill(8), SpillResult::Disabled));
    assert!(!cache.needs_spill());
}

#[test]
fn page_sets_list_their_pages_in_order() {
    let mut set = PageSet::new();
    assert!(set.is_empty());
    assert!(set.insert(70000));
    assert!(set.insert(3));
    assert!(!set.insert(3));
    assert!(set.insert(u32::MAX));
    assert_eq!(set.pages(), vec![3, 70000, u32::MAX]);
    assert!(set.contains(70000));
    assert!(set.remove(70000));
    assert!(!set.remove(70000));
    assert!(!set.contains(70000));
    assert!(!set.is_empty());
    set.clear();
    assert!(set.is_empty());
    assert_eq!(set.pages(), Vec::<u32>::new());
}
