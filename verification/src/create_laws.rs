//! What new pages, and the entries of the pointer map, look like on disk.

use vstd::prelude::*;
use vstd::arithmetic::div_mod::lemma_fundamental_div_mod_converse;
use crate::bytes::{be16, be16_bytes, be32, be32_bytes, lemma_be32_at, splice};
use crate::create::{as_btree, empty_btree_header, next_root, CreateStep};
use crate::db_header::{law_database_header_round_trip, law_header_fields_are_in_place,
    law_header_is_written_in_place, DatabaseHeader};
use crate::error::LimboError;
use crate::freelist::{lemma_header_stays, lemma_with_header, AllocateStep, Turn};
use crate::freelist_laws::{all_zero, will_be_written};
use crate::ondisk::{is_page_size, PageType};
use crate::page::{PageInner, PageView};
use crate::pager::{blank_page, PagerView, RESERVED_SPACE_NOT_SET};
use crate::pager_state::{AutoVacuumMode, BtreeCreateVacuumFullState, IOResult, VacuumState};
use crate::ptrmap::{cycle, is_map_page, is_mapped, map_offset, map_page, PtrmapEntry, PtrmapType};
use crate::wal_shared::SharedView;

verus! {

/// The byte that a btree page starts with.
pub open spec fn type_byte(t: PageType) -> u8 {
    match t {
        PageType::IndexInterior => 2,
        PageType::TableInterior => 5,
        PageType::IndexLeaf => 10,
        PageType::TableLeaf => 13,
    }
}

/// The btree page whose content starts at `at` has no cells and no free blocks, and its cells will
/// be put before `usable`.
pub open spec fn is_empty_btree(data: Seq<u8>, at: int, t: PageType, usable: int) -> bool {
    &&& data[at] == type_byte(t)
    &&& be16(data, at + 1) == 0
    &&& be16(data, at + 3) == 0
    &&& be16(data, at + 5) == (if usable == 65536 {
        0
    } else {
        usable
    })
    &&& data[at + 7] == 0
    &&& be32(data, at + 8) == 0
}

/// A page that is made a btree page is an empty one of its kind: twelve bytes are written, behind
/// the database's header on page 1, and the others stay as they are.
pub proof fn law_new_btree_page_is_empty(page: PageView, t: PageType, usable: int)
    requires
        page.buffer is Some,
        0 <= usable <= 65536,
        (if page.id == 1 {
            100int
        } else {
            0
        }) + 12 <= page.data().len(),
    ensures
        ({
            let at = if page.id == 1 {
                100int
            } else {
                0
            };
            let after = as_btree(page, t, usable);
            &&& after == page.with_data(after.data())
            &&& after.data().len() == page.data().len()
            &&& is_empty_btree(after.data(), at, t, usable)
            &&& forall|i: int|
                0 <= i < at || at + 12 <= i < page.data().len() ==> after.data()[i]
                    == page.data()[i]
        }),
{
    let at = page.start();
    let header = empty_btree_header(t, usable);
    let data = as_btree(page, t, usable).data();
    assert(be16_bytes(0) =~= seq![0u8, 0u8]);
    assert(be32_bytes(0) =~= seq![0u8, 0u8, 0u8, 0u8]);
    let n = (usable % 0x1_0000) as u16;
    assert(header =~= seq![
        t.byte(),
        0u8,
        0u8,
        0u8,
        0u8,
        (n / 0x100) as u8,
        (n % 0x100) as u8,
        0u8,
        0u8,
        0u8,
        0u8,
        0u8,
    ]);
    assert(forall|i: int| 0 <= i < 12 ==> data[at + i] == #[trigger] header[i]);
    assert(data[at] == header[0] && data[at + 1] == header[1] && data[at + 2] == header[2]
        && data[at + 3] == header[3] && data[at + 4] == header[4] && data[at + 5] == header[5]
        && data[at + 6] == header[6] && data[at + 7] == header[7] && data[at + 8] == header[8]
        && data[at + 9] == header[9] && data[at + 10] == header[10] && data[at + 11] == header[11]);
}

/// A btree page that is allocated is an empty one of its kind, with nothing else on it.
pub proof fn law_allocated_btree_page_is_empty(
    v: PagerView,
    s: SharedView,
    turn: Turn,
    t: PageType,
    id: usize,
)
    requires
        v.allocate_step(s, turn).1 == Ok::<AllocateStep, LimboError>(
            AllocateStep::Done { page_no: id },
        ),
        id != 1,
        ({
            let w = v.allocate_step(s, turn).0;
            &&& will_be_written(w, id)
            &&& w.page(id).id == id
            &&& w.page(id).buffer is Some
            &&& w.page(id).data().len() >= 512
            &&& all_zero(w.page(id).data())
            &&& 0 <= w.usable() <= 65536
        }),
    ensures
        ({
            let w = v.allocate_step(s, turn).0;
            let (x, r) = v.allocate_btree_step(s, turn, t);
            let data = x.page(id).data();
            &&& r == Ok::<AllocateStep, LimboError>(AllocateStep::Done { page_no: id })
            &&& will_be_written(x, id)
            &&& is_empty_btree(data, 0, t, w.usable())
            &&& forall|i: int| 12 <= i < data.len() ==> data[i] == 0
        }),
{
    let w = v.allocate_step(s, turn).0;
    law_new_btree_page_is_empty(w.page(id), t, w.usable());
}

/// An overflow page that is allocated has no successor and no content.
pub proof fn law_allocated_overflow_page_is_blank(
    v: PagerView,
    s: SharedView,
    turn: Turn,
    id: usize,
)
    requires
        v.allocate_step(s, turn).1 == Ok::<AllocateStep, LimboError>(
            AllocateStep::Done { page_no: id },
        ),
        will_be_written(v.allocate_step(s, turn).0, id),
    ensures
        ({
            let (x, r) = v.allocate_overflow_step(s, turn);
            &&& r == Ok::<AllocateStep, LimboError>(AllocateStep::Done { page_no: id })
            &&& will_be_written(x, id)
            &&& all_zero(x.page(id).data())
            &&& x.page(id).data().len() == v.allocate_step(s, turn).0.page(id).data().len()
        }),
{
}

/// The usable bytes of a page are those that are not reserved: what is remembered counts, and
/// otherwise what page 1 says, the page size at 16, where 1 stands for 65536, and the reserved
/// bytes at 20.
pub proof fn law_usable_space(v: PagerView)
    requires
        v.page1() matches Some(p) && p.data().len() >= 100,
    ensures
        ({
            let data = v.page1()->0.data();
            let stored = data[16] * 256 + data[17];
            let size = if is_page_size(v.page_size as int) {
                v.page_size as int
            } else if stored == 1 {
                65536
            } else {
                stored
            };
            let reserved = if v.reserved_space != RESERVED_SPACE_NOT_SET {
                v.reserved_space as int
            } else {
                data[20] as int
            };
            v.usable() == size - reserved
        }),
{
    law_header_fields_are_in_place(v.page1()->0.data());
}

/// The first page of a new database: its header says that the database has one page, how large a
/// page is and how much of it is reserved, and behind it is an empty leaf of the schema's table.
pub proof fn law_first_page(v: PagerView, reserved: u8)
    requires
        v.can_allocate_page1(),
        v.allocate_page1_state is Start,
    ensures
        ({
            let page = v.first_page1(reserved);
            let data = page.data();
            let before = v.page1()->0.data();
            let size = if is_page_size(v.page_size as int) {
                v.page_size as int
            } else {
                v.header().page_size.bytes()
            };
            let kept = if v.reserved_space == RESERVED_SPACE_NOT_SET {
                reserved as int
            } else {
                v.reserved_space as int
            };
            &&& page.id == 1
            &&& page.loaded
            &&& data.len() == size
            &&& be32(data, 28) == 1
            &&& data[20] == kept
            &&& data[16] * 256 + data[17] == (if size == 65536 {
                1
            } else {
                size
            })
            &&& be32(data, 32) == be32(before, 32)
            &&& be32(data, 36) == be32(before, 36)
            &&& be32(data, 40) == be32(before, 40)
            &&& is_empty_btree(data, 100, PageType::TableLeaf, size - kept)
            &&& forall|i: int| 112 <= i < data.len() ==> data[i] == 0
        }),
{
    let header = v.first_header(reserved);
    let size = header.page_size.bytes();
    let plain = blank_page(1, size as nat);
    let written = plain.with_data(splice(plain.data(), 0, header.encoded()));
    law_database_header_round_trip(header, plain.data());
    law_header_is_written_in_place(header, plain.data());
    law_header_fields_are_in_place(v.page1()->0.data());
    let usable = size - header.reserved_space;
    law_new_btree_page_is_empty(written, PageType::TableLeaf, usable);
    let data = v.first_page1(reserved).data();
    assert(forall|i: int| 0 <= i < 100 ==> data[i] == written.data()[i]);
    assert(data[16] == written.data()[16] && data[17] == written.data()[17]);
    assert(be32(data, 28) == be32(written.data(), 28));
    assert(be32(data, 32) == be32(written.data(), 32));
    assert(be32(data, 36) == be32(written.data(), 36));
    assert(be32(data, 40) == be32(written.data(), 40));
}

/// Where the pointer map is: page 2 is the first of its pages, and each of them is followed by the
/// pages that it maps, one for every five bytes of a page, and then by the next one. The entries of
/// the mapped pages stand in it one after the other.
pub proof fn law_pointer_map_layout(page_size: int, k: int, j: int)
    requires
        page_size >= 512,
        0 <= k,
        0 <= j <= page_size / 5,
    ensures
        ({
            let map = 2 + k * (page_size / 5 + 1);
            let p = map + j;
            &&& is_map_page(p, page_size) <==> j == 0
            &&& is_mapped(p, page_size) <==> j != 0
            &&& j > 0 ==> map_page(p, page_size) == map && map_offset(p, page_size) == 5 * (j - 1)
        }),
{
    let c = cycle(page_size);
    let p = 2 + k * (page_size / 5 + 1) + j;
    assert(k * c >= 0) by (nonlinear_arith)
        requires
            0 <= k,
            0 <= c,
    ;
    lemma_fundamental_div_mod_converse(p - 2, c, k, j);
}

/// An entry of the pointer map is five bytes: its kind, and the number of its parent.
pub proof fn law_pointer_map_entry_layout(entry: PtrmapEntry)
    ensures
        ({
            let bytes = entry.encoded();
            &&& bytes.len() == 5
            &&& bytes[0] == (match entry.entry_type {
                PtrmapType::RootPage => 1u8,
                PtrmapType::FreePage => 2u8,
                PtrmapType::Overflow1 => 3u8,
                PtrmapType::Overflow2 => 4u8,
                PtrmapType::BTreeNode => 5u8,
            })
            &&& be32(bytes, 1) == entry.parent_page_no
        }),
{
    let bytes = entry.encoded();
    assert(bytes.subrange(1, 5) =~= be32_bytes(entry.parent_page_no));
    lemma_be32_at(bytes, 1, entry.parent_page_no);
}

/// Setting the entry of a page writes five bytes of the pointer map page before it, at the page's
/// own place, and nothing else; the pointer map page is dirty then.
pub proof fn law_pointer_map_entry_is_in_place(v: PagerView, entry: PtrmapEntry, k: int, j: int)
    requires
        v.page1() matches Some(p) && p.data().len() >= 100,
        v.header().page_size.valid(),
        v.vacuum_state.ptrmap_put_state is Start,
        0 <= k,
        1 <= j <= v.header().page_size.bytes() / 5,
        ({
            let map = 2 + k * (v.header().page_size.bytes() / 5 + 1);
            &&& map + j <= u32::MAX
            &&& v.has(map as usize)
            &&& v.page(map as usize).id == map
            &&& v.page(map as usize).data().len() == v.header().page_size.bytes()
        }),
    ensures
        ({
            let map = (2 + k * (v.header().page_size.bytes() / 5 + 1)) as usize;
            let (w, r) = v.ptrmap_updated((map + j) as u32, entry);
            let before = v.page(map).data();
            let after = w.page(map).data();
            let at = 5 * (j - 1);
            &&& r == Ok::<IOResult<()>, LimboError>(IOResult::Done(()))
            &&& will_be_written(w, map)
            &&& after.len() == before.len()
            &&& after[at] == entry.encoded()[0]
            &&& be32(after, at + 1) == entry.parent_page_no
            &&& forall|i: int|
                0 <= i < at || at + 5 <= i < before.len() ==> after[i] == before[i]
        }),
{
    let size = v.header().page_size.bytes();
    let map = 2 + k * (size / 5 + 1);
    assert(k * (size / 5 + 1) >= 0) by (nonlinear_arith)
        requires
            0 <= k,
            0 <= size,
    ;
    law_pointer_map_layout(size, k, j);
    law_pointer_map_entry_layout(entry);
    let (w, r) = v.ptrmap_updated((map + j) as u32, entry);
    let at = 5 * (j - 1);
    let data = v.page(map as usize).data();
    let after = splice(data, at, entry.encoded());
    assert(w.page(map as usize).data() == after);
    assert(after.subrange(at + 1, at + 5) =~= be32_bytes(entry.parent_page_no));
    lemma_be32_at(after, at + 1, entry.parent_page_no);
}

/// In a database with full autovacuum, the root of a new btree is entered in the pointer map as a
/// root, without a parent, and it is that page that the creation gives.
pub proof fn law_new_root_is_in_the_pointer_map(
    v: PagerView,
    s: SharedView,
    turn: Turn,
    t: PageType,
    k: int,
    j: int,
)
    requires
        v.page1() matches Some(p) && p.data().len() >= 100,
        v.header().page_size.valid(),
        v.auto_vacuum_mode == AutoVacuumMode::Full,
        v.vacuum_state.ptrmap_put_state is Start,
        0 <= k,
        1 <= j <= v.header().page_size.bytes() / 5,
        ({
            let map = 2 + k * (v.header().page_size.bytes() / 5 + 1);
            &&& map + j <= u32::MAX
            &&& v.has(map as usize)
            &&& v.page(map as usize).id == map
            &&& v.page(map as usize).data().len() == v.header().page_size.bytes()
            &&& v.vacuum_state.btree_create_vacuum_full_state
                == (BtreeCreateVacuumFullState::PtrMapPut { allocated_page_id: (map + j) as u32 })
        }),
    ensures
        ({
            let map = (2 + k * (v.header().page_size.bytes() / 5 + 1)) as usize;
            let (w, r) = v.create_step(s, turn, t);
            let at = 5 * (j - 1);
            &&& r == Ok::<CreateStep, LimboError>(CreateStep::Done { root: (map + j) as u32 })
            &&& will_be_written(w, map)
            &&& w.page(map).data()[at] == 1
            &&& be32(w.page(map).data(), at + 1) == 0
            &&& w.vacuum_state.btree_create_vacuum_full_state == BtreeCreateVacuumFullState::Start
        }),
{
    let size = v.header().page_size.bytes();
    let map = 2 + k * (size / 5 + 1);
    let entry = PtrmapEntry { entry_type: PtrmapType::RootPage, parent_page_no: 0 };
    law_pointer_map_entry_is_in_place(v, entry, k, j);
    law_pointer_map_entry_layout(entry);
}

/// The root of a new btree is remembered in page 1 if it is the largest one.
pub proof fn law_largest_root_is_remembered(v: PagerView, root: u32)
    requires
        v.page1() matches Some(p) && p.data().len() >= 100,
    ensures
        ({
            let before = v.page1()->0.data();
            let w = v.with_root(root);
            let after = w.page1()->0.data();
            &&& w.page1() is Some
            &&& be32(after, 52) >= root
            &&& be32(after, 52) >= be32(before, 52)
            &&& be32(after, 52) == root || be32(after, 52) == be32(before, 52)
            &&& be32(after, 28) == be32(before, 28)
            &&& be32(after, 36) == be32(before, 36)
        }),
{
    law_header_fields_are_in_place(v.page1()->0.data());
    lemma_header_stays(v);
    let h = v.header();
    let largest = if root > h.vacuum_mode_largest_root_page {
        root
    } else {
        h.vacuum_mode_largest_root_page
    };
    let h2 = DatabaseHeader { vacuum_mode_largest_root_page: largest, ..h };
    lemma_with_header(v.header_dirtied(), h2);
    law_header_is_written_in_place(h2, v.page1()->0.data());
}

/// Page 1 and the pages of the pointer map have no entry in it: a lookup gives none, and none can
/// be set.
pub proof fn law_map_pages_have_no_entry(v: PagerView, entry: PtrmapEntry, k: int, page: u32)
    requires
        v.page1() is Some,
        v.header().page_size.valid(),
        v.vacuum_state == VacuumState::idle(),
        0 <= k,
        page == 1 || page == 2 + k * (v.header().page_size.bytes() / 5 + 1),
    ensures
        v.ptrmap_looked_up(page).1 == Ok::<IOResult<Option<PtrmapEntry>>, LimboError>(
            IOResult::Done(None),
        ),
        v.ptrmap_updated(page, entry).1 is Err,
        v.ptrmap_updated(page, entry).0.cache == v.cache,
{
    law_pointer_map_layout(v.header().page_size.bytes(), k, 0);
}

/// What is remembered of the page size and the reserved bytes is what they are.
pub proof fn law_remembered_sizes_are_right(v: PagerView)
    requires
        v.can_measure(),
        v.page1() is Some,
    ensures
        v.measured().usable() == v.usable(),
        v.measured().page_size == v.size_of_pages(),
        v.measured().cache == v.cache,
        v.measured().knows_sizes(),
{
    law_header_fields_are_in_place(v.page1()->0.data());
}

/// In a database with full autovacuum, the page that was allocated for the root of a new btree is
/// the one that is entered in the pointer map next; it is an empty btree page.
pub proof fn law_allocated_root_is_entered(
    v: PagerView,
    s: SharedView,
    turn: Turn,
    t: PageType,
    id: usize,
)
    requires
        v.auto_vacuum_mode == AutoVacuumMode::Full,
        v.vacuum_state.btree_create_vacuum_full_state is AllocatePage,
        v.allocate_btree_step(s, turn, t).1 == Ok::<AllocateStep, LimboError>(
            AllocateStep::Done { page_no: id },
        ),
        1 < id <= u32::MAX,
        v.allocate_btree_step(s, turn, t).0.page1() is Some,
    ensures
        ({
            let x = v.allocate_btree_step(s, turn, t).0;
            let (w, r) = v.create_step(s, turn, t);
            &&& r == Ok::<CreateStep, LimboError>(CreateStep::Continue)
            &&& w.vacuum_state.btree_create_vacuum_full_state
                == (BtreeCreateVacuumFullState::PtrMapPut { allocated_page_id: id as u32 })
            &&& w.page(id) == x.page(id)
        }),
{
}

/// Without autovacuum, the page that was allocated is the root that the creation gives.
pub proof fn law_allocated_page_is_the_root(
    v: PagerView,
    s: SharedView,
    turn: Turn,
    t: PageType,
    id: usize,
)
    requires
        v.auto_vacuum_mode == AutoVacuumMode::Disabled,
        v.allocate_btree_step(s, turn, t).1 == Ok::<AllocateStep, LimboError>(
            AllocateStep::Done { page_no: id },
        ),
        id <= u32::MAX,
    ensures
        v.create_step(s, turn, t).1 == Ok::<CreateStep, LimboError>(
            CreateStep::Done { root: id as u32 },
        ),
        v.create_step(s, turn, t).0.page(id) == v.allocate_btree_step(s, turn, t).0.page(id),
{
}

/// The schema cookie that is remembered is the one in page 1.
pub proof fn law_cookie_is_remembered(v: PagerView)
    requires
        v.page1() matches Some(p) && p.data().len() >= 100,
    ensures
        v.with_cookie().schema_cookie == be32(v.page1()->0.data(), 40),
        v.with_cookie().cache == v.cache,
        v.with_cookie().dirty == v.dirty,
{
    law_header_fields_are_in_place(v.page1()->0.data());
}

/// All of an empty btree page's usable space is free: the area of its cells starts at its end, also
/// where that is 65536, which is stored as 0.
pub proof fn law_empty_page_has_all_its_space(page: &PageInner, t: PageType, usable: int)
    requires
        page@.buffer is Some,
        0 < usable <= 65536,
        is_empty_btree(
            page@.data(),
            if page@.id == 1 {
                100
            } else {
                0
            },
            t,
            usable,
        ),
    ensures
        page.content_area() == usable,
        page.kind() == Some(t),
{
}

/// The page that is proposed for a new root is the next one, or the one behind it if the next one
/// belongs to the pointer map.
pub proof fn law_proposed_root_is_no_map_page(page_size: int, k: int, j: int)
    requires
        page_size >= 512,
        0 <= k,
        0 <= j <= page_size / 5,
    ensures
        ({
            let p = 2 + k * (page_size / 5 + 1) + j;
            &&& !is_map_page(next_root(p, page_size), page_size)
            &&& next_root(p, page_size) == (if j == 0 {
                p + 1
            } else {
                p
            })
        }),
{
    law_pointer_map_layout(page_size, k, j);
    law_pointer_map_layout(page_size, k, 1);
}

} // verus!
