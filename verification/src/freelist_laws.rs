//! What allocating and freeing a page does to the database, seen from its bytes.

use vstd::prelude::*;
use crate::bytes::be32;
use crate::db_header::{law_header_fields_are_in_place, DatabaseHeader};
use crate::error::LimboError;
use crate::freelist::{as_trunk, lemma_header_stays, lemma_number_written, lemma_rewritten,
    lemma_with_header, with_leaf, without_first_leaf, AllocateStep, FreeStep, Turn};
use crate::page_cache::{evictable, lemma_with_room};
use crate::pager::PagerView;
use crate::pager_state::{AllocatePageState, AutoVacuumMode, FreePageState};
use crate::ptrmap::is_map_page;
use crate::read::{ReadStep, SpillOutcome};
use crate::wal_shared::SharedView;

verus! {

/// A page whose bytes are all zero.
pub open spec fn all_zero(data: Seq<u8>) -> bool {
    forall|i: int| 0 <= i < data.len() ==> data[i] == 0
}

/// The page size that page 1 gives.
pub open spec fn page_bytes(page1: Seq<u8>) -> int {
    let stored = page1[16] * 256 + page1[17];
    if stored == 1 {
        65536
    } else {
        stored
    }
}

/// Page `id` is in the cache, loaded and dirty, and will be committed.
pub open spec fn will_be_written(v: PagerView, id: usize) -> bool {
    &&& v.has(id)
    &&& v.page(id).dirty
    &&& v.dirty.contains(id as u32)
}

/// Putting a new page in the cache spares page 1, if it is dirty.
proof fn lemma_new_page(v: PagerView, id: usize, page_size: nat)
    requires
        v.page1() matches Some(p) && p.dirty && !p.spilled,
        v.cache.pages.dom().finite(),
        id != 1,
        id <= u32::MAX,
    ensures
        ({
            let (w, r) = v.with_new_page(id, page_size);
            &&& w.page1() == v.page1()
            &&& w.header() == v.header()
            &&& w.cache.pages.dom().finite()
            &&& w.max_page_count == v.max_page_count
            &&& w.page_size == v.page_size
            &&& r is Ok ==> {
                &&& will_be_written(w, id)
                &&& w.page(id).data().len() == page_size
                &&& all_zero(w.page(id).data())
            }
            &&& forall|k: u32| #[trigger] v.dirty.contains(k) ==> w.dirty.contains(k)
        }),
{
    lemma_with_room(v.cache.pages, v.cache.capacity, 1);
    if v.init_page_1 is None {
        assert(!evictable(v.cache.pages[1]));
    }
}

/// The numbers in page 1 are what the header says.
proof fn lemma_numbers(v: PagerView)
    requires
        v.page1() matches Some(p) && p.data().len() >= 100,
    ensures
        ({
            let data = v.page1()->0.data();
            let h = v.header();
            &&& h.database_size == be32(data, 28)
            &&& h.freelist_trunk_page == be32(data, 32)
            &&& h.freelist_pages == be32(data, 36)
            &&& h.page_size.bytes() == page_bytes(data)
            &&& h.reserved_space == data[20]
        }),
{
    law_header_fields_are_in_place(v.page1()->0.data());
}

/// A page that the database grows by is all zeros, is dirty, and comes behind the database's end,
/// which moves there. The freelist stays as it is.
pub proof fn law_grown_page_is_blank(v: PagerView, s: SharedView, turn: Turn, current: u32)
    requires
        v.can_allocate(s),
        v.cache.pages.dom().finite(),
        v.allocate_page_state == (AllocatePageState::AllocateNewPage { current_db_size: current }),
        1 <= current,
        v.allocate_step(s, turn).1 matches Ok(AllocateStep::Done { .. }),
    ensures
        ({
            let (w, r) = v.allocate_step(s, turn);
            let id = r->Ok_0->Done_page_no;
            let before = v.page1()->0.data();
            let after = w.page1()->0.data();
            &&& current < id <= current + 2
            &&& will_be_written(w, id)
            &&& all_zero(w.page(id).data())
            &&& w.page(id).data().len() == page_bytes(before)
            &&& w.page1()->0.dirty
            &&& w.page1() is Some
            &&& be32(after, 28) == id
            &&& be32(after, 32) == be32(before, 32)
            &&& be32(after, 36) == be32(before, 36)
            &&& w.header() == (DatabaseHeader { database_size: id as u32, ..v.header() })
        }),
{
    let d = v.header_dirtied();
    let h = v.header();
    lemma_header_stays(v);
    lemma_numbers(v);
    assert(d.cache.pages.dom().finite());
    let size = h.page_size.bytes() as nat;
    let next = (current + 1) as u32;
    let (w, r) = v.allocate_step(s, turn);
    let id = r->Ok_0->Done_page_no;
    lemma_new_page(d, next as usize, size);
    let passed = if crate::pager::Pager::pending_page(d.page_size) == Some(next) {
        d.with_new_page(next as usize, size).0
    } else {
        d
    };
    lemma_new_page(passed, id, size);
    let grown = passed.with_new_page(id, size).0;
    lemma_with_header(grown, DatabaseHeader { database_size: id as u32, ..h });
    lemma_numbers(w);
}

/// A trunk page without leaves that is allocated is all zeros and dirty; the freelist is one page
/// shorter, and starts with the trunk page that this one led to. The database keeps its size.
pub proof fn law_allocated_trunk_is_blank(v: PagerView, s: SharedView, turn: Turn, trunk: usize)
    requires
        v.can_allocate(s),
        v.allocate_page_state == (AllocatePageState::SearchAvailableFreeListLeaf {
            trunk_page: trunk,
        }),
        v.allocate_step(s, turn).1 matches Ok(AllocateStep::Done { .. }),
    ensures
        ({
            let (w, r) = v.allocate_step(s, turn);
            let before = v.page1()->0.data();
            let after = w.page1()->0.data();
            &&& r == Ok::<AllocateStep, LimboError>(AllocateStep::Done { page_no: trunk })
            &&& be32(v.page(trunk).data(), 4) == 0
            &&& will_be_written(w, trunk)
            &&& all_zero(w.page(trunk).data())
            &&& w.page(trunk).data().len() == v.page(trunk).data().len()
            &&& w.page1() is Some
            &&& be32(after, 28) == be32(before, 28)
            &&& be32(after, 32) == be32(v.page(trunk).data(), 0)
            &&& be32(after, 36) + 1 == be32(before, 36)
        }),
{
    let d = v.header_dirtied();
    let h = v.header();
    lemma_header_stays(v);
    lemma_numbers(v);
    let data = d.page(trunk).data();
    crate::bytes::lemma_be32_bytes_of(data, 0);
    crate::bytes::lemma_be32_bytes_of(data, 4);
    let zeros = Seq::new(data.len(), |i: int| 0u8);
    lemma_rewritten(d, trunk, zeros);
    let e = d.rewritten(trunk, zeros);
    let h2 = DatabaseHeader {
        freelist_trunk_page: crate::freelist::next_trunk(data),
        freelist_pages: (h.freelist_pages - 1) as u32,
        ..h
    };
    lemma_with_header(e, h2);
    let w = v.allocate_step(s, turn).0;
    assert(w.page1() == e.with_header(h2).page1());
    lemma_numbers(w);
}

/// A leaf that is allocated is all zeros and dirty; its trunk page has one leaf less, and the
/// others in their order; the freelist is one page shorter, and the database keeps its size.
pub proof fn law_allocated_leaf_is_blank(
    v: PagerView,
    s: SharedView,
    turn: Turn,
    trunk: usize,
    leaf: usize,
    n: u32,
    i: int,
)
    requires
        v.can_allocate(s),
        v.allocate_page_state == (AllocatePageState::ReuseFreelistLeaf {
            trunk_page: trunk,
            leaf_page: leaf,
            number_of_freelist_leaves: n,
        }),
        trunk != leaf,
        v.allocate_step(s, turn).1 matches Ok(AllocateStep::Done { .. }),
    ensures
        ({
            let (w, r) = v.allocate_step(s, turn);
            let before = v.page1()->0.data();
            let after = w.page1()->0.data();
            &&& r == Ok::<AllocateStep, LimboError>(AllocateStep::Done { page_no: leaf })
            &&& will_be_written(w, leaf)
            &&& will_be_written(w, trunk)
            &&& all_zero(w.page(leaf).data())
            &&& w.page(leaf).data().len() == v.page(leaf).data().len()
            &&& be32(w.page(trunk).data(), 0) == be32(v.page(trunk).data(), 0)
            &&& be32(w.page(trunk).data(), 4) + 1 == n
            &&& 0 <= i < n - 1 ==> be32(w.page(trunk).data(), 8 + 4 * i) == be32(
                v.page(trunk).data(),
                12 + 4 * i,
            )
            &&& w.page1() is Some
            &&& be32(after, 28) == be32(before, 28)
            &&& be32(after, 32) == be32(before, 32)
            &&& be32(after, 36) + 1 == be32(before, 36)
        }),
{
    let d = v.header_dirtied();
    let h = v.header();
    lemma_header_stays(v);
    lemma_numbers(v);
    let zeros = Seq::new(d.page(leaf).data().len(), |i: int| 0u8);
    lemma_rewritten(d, leaf, zeros);
    let cleared = d.rewritten(leaf, zeros);
    let data = cleared.page(trunk).data();
    let back = without_first_leaf(data, n);
    lemma_rewritten(cleared, trunk, back);
    let e = cleared.rewritten(trunk, back);
    let h2 = DatabaseHeader { freelist_pages: (h.freelist_pages - 1) as u32, ..h };
    lemma_with_header(e, h2);
    let w = v.allocate_step(s, turn).0;
    assert(w.page1() == e.with_header(h2).page1());
    lemma_numbers(w);
    let shifted = Seq::new(
        data.len(),
        |i: int|
            if 8 <= i < 8 + 4 * (n - 1) {
                data[i + 4]
            } else {
                data[i]
            },
    );
    lemma_number_written(shifted, 4, (n - 1) as u32);
    if 0 <= i < n - 1 {
        assert(be32(shifted, 8 + 4 * i) == be32(data, 12 + 4 * i));
    }
    assert(be32(shifted, 0) == be32(data, 0));
    assert(w.page(trunk).data() == back);
}

/// A page that is freed is counted at once, and the database keeps its size. A page that the
/// database does not have, and page 1, are refused.
pub proof fn law_freed_page_is_counted(
    v: PagerView,
    s: SharedView,
    page_id: usize,
    after: SpillOutcome,
)
    requires
        v.can_free(s, page_id, true),
        v.page1() matches Some(p) && p.data().len() >= 100,
        v.free_page_state == FreePageState::Start,
    ensures
        ({
            let (w, r) = v.free_step(s, page_id, true, after);
            let before = v.page1()->0.data();
            let data = w.page1()->0.data();
            &&& r is Ok <==> 2 <= page_id <= be32(before, 28)
            &&& r is Ok ==> {
                &&& w.page1() is Some
                &&& be32(data, 28) == be32(before, 28)
                &&& be32(data, 32) == be32(before, 32)
                &&& be32(data, 36) == be32(before, 36) + 1
                &&& w.free_page_state == (if be32(before, 32) != 0 {
                    FreePageState::AddToTrunk { page: page_id }
                } else {
                    FreePageState::NewTrunk { page: page_id }
                })
            }
            &&& r is Err ==> be32(data, 36) == be32(before, 36)
        }),
{
    let h = v.header();
    lemma_header_stays(v);
    lemma_numbers(v);
    let d = v.header_dirtied();
    let (w, r) = v.free_step(s, page_id, true, after);
    if 2 <= page_id <= h.database_size {
        let e = if d.page(page_id).loaded {
            d.with_cached(
                page_id,
                crate::page::PageView { overflow_cells: Seq::empty(), ..d.page(page_id) },
            )
        } else {
            d
        };
        assert(e.page1() == d.page1());
        let h2 = DatabaseHeader { freelist_pages: (h.freelist_pages + 1) as u32, ..h };
        lemma_with_header(e, h2);
        assert(w.page1() == e.with_header(h2).page1());
        lemma_numbers(w);
    }
}

/// A page that is freed into a trunk page is behind the leaves that are there, which stay as they
/// are, as long as there is room: a trunk page takes two numbers less than fit a page.
pub proof fn law_freed_leaf_is_on_the_list(
    v: PagerView,
    s: SharedView,
    page_id: usize,
    after: SpillOutcome,
    i: int,
)
    requires
        v.can_free(s, page_id, false),
        v.page1() is Some,
        v.free_page_state == (FreePageState::AddToTrunk { page: page_id }),
        v.header().freelist_trunk_page != page_id,
        v.has(v.header().freelist_trunk_page as usize),
        v.free_step(s, page_id, false, after).1 matches Ok(FreeStep::Done),
    ensures
        ({
            let w = v.free_step(s, page_id, false, after).0;
            let trunk = be32(v.page1()->0.data(), 32) as usize;
            let before = v.page(trunk).data();
            let data = w.page(trunk).data();
            let n = be32(before, 4);
            &&& will_be_written(w, trunk)
            &&& n < (page_bytes(v.page1()->0.data()) - v.page1()->0.data()[20]) / 4 - 2
            &&& be32(data, 0) == be32(before, 0)
            &&& be32(data, 4) == n + 1
            &&& be32(data, 8 + 4 * n) == page_id
            &&& 0 <= i < n ==> be32(data, 8 + 4 * i) == be32(before, 8 + 4 * i)
            &&& w.free_page_state == FreePageState::Start
            &&& w.header() == v.header()
        }),
{
    let h = v.header();
    lemma_header_stays(v);
    lemma_numbers(v);
    let d = v.header_dirtied();
    let trunk = h.freelist_trunk_page as usize;
    let data = d.page(trunk).data();
    let (w, r) = v.free_step(s, page_id, false, after);
    let (_, q) = d.read_step(s, trunk, after);
    if q matches Ok(ReadStep::Ready) {
        let n = be32(data, 4);
        crate::bytes::lemma_be32_bytes_of(data, 4);
        lemma_rewritten(d, trunk, with_leaf(data, page_id as u32));
        let counted = crate::bytes::splice(data, 4, crate::bytes::be32_bytes((n + 1) as u32));
        lemma_number_written(data, 4, (n + 1) as u32);
        lemma_number_written(counted, 8 + 4 * n, page_id as u32);
        let e = d.rewritten(trunk, with_leaf(data, page_id as u32));
        assert(w.page1() == e.page1());
        assert(w.page(trunk).data() == with_leaf(data, page_id as u32));
        assert(be32(counted, 0) == be32(data, 0));
        if 0 <= i < n {
            assert(be32(counted, 8 + 4 * i) == be32(data, 8 + 4 * i));
            assert(be32(with_leaf(data, page_id as u32), 8 + 4 * i) == be32(counted, 8 + 4 * i));
        }
    }
}

/// A page that becomes a trunk page is the first one, has no leaves, and leads to the one that was
/// first before it.
pub proof fn law_freed_trunk_is_first(
    v: PagerView,
    s: SharedView,
    page_id: usize,
    after: SpillOutcome,
)
    requires
        v.can_free(s, page_id, false),
        v.page1() is Some,
        v.free_page_state == (FreePageState::NewTrunk { page: page_id }),
    ensures
        ({
            let (w, r) = v.free_step(s, page_id, false, after);
            let before = v.page1()->0.data();
            let data = w.page1()->0.data();
            &&& r == Ok::<FreeStep, LimboError>(FreeStep::Done)
            &&& w.free_page_state == FreePageState::Start
            &&& will_be_written(w, page_id)
            &&& w.page1() is Some
            &&& be32(data, 28) == be32(before, 28)
            &&& be32(data, 32) == page_id
            &&& be32(data, 36) == be32(before, 36)
            &&& be32(w.page(page_id).data(), 0) == be32(before, 32)
            &&& be32(w.page(page_id).data(), 4) == 0
        }),
{
    let h = v.header();
    lemma_header_stays(v);
    lemma_numbers(v);
    let d = v.header_dirtied();
    let data = d.page(page_id).data();
    let trunk = as_trunk(data, h.freelist_trunk_page);
    lemma_rewritten(d, page_id, trunk);
    let e = d.rewritten(page_id, trunk);
    let h2 = DatabaseHeader { freelist_trunk_page: page_id as u32, ..h };
    lemma_with_header(e, h2);
    let w = v.free_step(s, page_id, false, after).0;
    assert(w.page1() == e.with_header(h2).page1());
    lemma_numbers(w);
    lemma_number_written(data, 0, h.freelist_trunk_page);
    let linked = crate::bytes::splice(data, 0, crate::bytes::be32_bytes(h.freelist_trunk_page));
    lemma_number_written(linked, 4, 0);
    assert(w.page(page_id).data() == trunk);
}

/// An allocation that finds the freelist empty makes the database grow from its end. With full
/// autovacuum it goes on behind the next page if that is to be one of the pointer map, so that no
/// such page is ever given away; that page is made on the way.
pub proof fn law_growth_passes_map_pages(v: PagerView, s: SharedView, turn: Turn)
    requires
        v.can_allocate(s),
        v.cache.pages.dom().finite(),
        v.page1() is Some,
        v.allocate_page_state is Start,
        turn is Proceed,
        be32(v.page1()->0.data(), 32) == 0,
        be32(v.page1()->0.data(), 28) >= 1,
        v.allocate_step(s, turn).1 is Ok,
    ensures
        ({
            let (w, r) = v.allocate_step(s, turn);
            let size = be32(v.page1()->0.data(), 28);
            let map = v.auto_vacuum_mode == AutoVacuumMode::Full && is_map_page(
                size + 1,
                page_bytes(v.page1()->0.data()),
            );
            &&& r == Ok::<AllocateStep, LimboError>(AllocateStep::Continue)
            &&& w.allocate_page_state matches AllocatePageState::AllocateNewPage { current_db_size }
                && current_db_size == (if map {
                size + 1
            } else {
                size
            })
            &&& map ==> will_be_written(w, (size + 1) as usize) && all_zero(
                w.page((size + 1) as usize).data(),
            )
            &&& be32(w.page1()->0.data(), 28) == size
        }),
{
    lemma_header_stays(v);
    lemma_numbers(v);
    let d = v.header_dirtied();
    let h = v.header();
    lemma_new_page(d, (h.database_size + 1) as usize, h.page_size.bytes() as nat);
    lemma_numbers(d);
}

/// A trunk page that is in the cache takes a freed page just if it has room: it holds two numbers
/// less than fit the usable part of a page. Otherwise the page becomes a trunk page itself.
pub proof fn law_trunk_takes_pages_while_it_has_room(
    v: PagerView,
    s: SharedView,
    page_id: usize,
    after: SpillOutcome,
)
    requires
        v.can_free(s, page_id, false),
        v.page1() is Some,
        v.free_page_state == (FreePageState::AddToTrunk { page: page_id }),
        v.has(v.header().freelist_trunk_page as usize),
        v.header().freelist_trunk_page != 1,
    ensures
        ({
            let (w, r) = v.free_step(s, page_id, false, after);
            let data = v.page1()->0.data();
            let n = be32(v.page(be32(data, 32) as usize).data(), 4);
            if n < (page_bytes(data) - data[20]) / 4 - 2 {
                r == Ok::<FreeStep, LimboError>(FreeStep::Done)
            } else {
                &&& r == Ok::<FreeStep, LimboError>(FreeStep::Continue)
                &&& w.free_page_state == (FreePageState::NewTrunk { page: page_id })
            }
        }),
{
    lemma_header_stays(v);
    lemma_numbers(v);
    let trunk = v.header().freelist_trunk_page as usize;
    crate::bytes::lemma_be32_bytes_of(v.page(trunk).data(), 4);
}

} // verus!
