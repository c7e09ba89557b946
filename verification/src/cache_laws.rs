//! What the cache keeps, and who holds a lock.

use vstd::prelude::*;
use crate::error::{CacheError, LimboError};
use crate::page::PageView;
use crate::page_cache::{evictable, is_spill_list, is_victim, lemma_with_room, up_to, victim,
    with_room, CacheView, PageMap};
use crate::pager::PagerView;
use crate::read::{ReadStep, SpillOutcome};
use crate::rwlock::LockView;
use crate::wal_shared::SharedView;

verus! {

/// A page whose changes are nowhere else, or that somebody holds on to.
pub open spec fn must_stay(page: PageView) -> bool {
    page.locked || page.pin_count > 0 || (page.dirty && !page.spilled)
}

/// A page that is put in the cache is there then, as it is. The cache has then no more pages than
/// it may have, and no page has left it whose changes are nowhere else or that somebody holds on
/// to; the others are as they were. A page that is there already is not replaced.
pub proof fn law_insert_spares_pages_in_use(c: CacheView, id: usize, page: PageView, other: usize)
    requires
        c.pages.dom().finite(),
    ensures
        ({
            let (after, r) = c.inserted(id, page);
            &&& r is Ok ==> {
                &&& after.pages.contains_key(id)
                &&& after.pages[id] == page
                &&& after.pages.dom().len() <= c.capacity
            }
            &&& c.pages.contains_key(id) <==> r == Err::<(), CacheError>(CacheError::KeyExists)
            &&& c.pages.contains_key(id) ==> after == c
            &&& other != id && after.pages.contains_key(other) ==> c.pages.contains_key(other)
                && after.pages[other] == c.pages[other]
            &&& other != id && c.pages.contains_key(other) && must_stay(c.pages[other])
                ==> after.pages.contains_key(other)
            &&& after.capacity == c.capacity
        }),
{
    lemma_with_room(c.pages, c.capacity, 1);
    lemma_room(c.pages, c.capacity, 1);
}

/// Room that was made is there.
proof fn lemma_room(pages: PageMap, capacity: usize, n: nat)
    requires
        pages.dom().finite(),
    ensures
        with_room(pages, capacity, n).1 ==> with_room(pages, capacity, n).0.dom().len() + n
            <= capacity,
        with_room(pages, capacity, n).0.dom().finite(),
    decreases pages.dom().len(),
{
    if pages.dom().len() + n > capacity {
        if let Some(v) = victim(pages) {
            if pages.contains_key(v) {
                assert(pages.remove(v).dom() =~= pages.dom().remove(v));
                lemma_room(pages.remove(v), capacity, n);
            }
        }
    }
}

/// Room is denied only while no page may leave the cache.
pub proof fn law_room_is_denied_only_when_all_are_in_use(
    pages: PageMap,
    capacity: usize,
    n: nat,
    k: usize,
)
    requires
        pages.dom().finite(),
        !with_room(pages, capacity, n).1,
        with_room(pages, capacity, n).0.contains_key(k),
    ensures
        must_stay(with_room(pages, capacity, n).0[k]),
    decreases pages.dom().len(),
{
    if pages.dom().len() + n > capacity {
        if let Some(v) = victim(pages) {
            assert(is_victim(pages, v));
            assert(pages.remove(v).dom() =~= pages.dom().remove(v));
            law_room_is_denied_only_when_all_are_in_use(pages.remove(v), capacity, n, k);
        } else if !must_stay(pages[k]) {
            lemma_victim_exists(pages, k);
        }
    }
}

/// If some page may leave, there is a first one.
proof fn lemma_victim_exists(pages: PageMap, k: usize)
    requires
        pages.contains_key(k),
        evictable(pages[k]),
    ensures
        victim(pages) is Some,
    decreases k,
{
    if exists|j: usize| #[trigger] pages.contains_key(j) && evictable(pages[j]) && j < k {
        let j = choose|j: usize| #[trigger] pages.contains_key(j) && evictable(pages[j]) && j < k;
        lemma_victim_exists(pages, j);
    } else {
        assert(is_victim(pages, k));
    }
}

/// Dropping the pages above a number keeps the others as they are.
pub proof fn law_truncation_keeps_lower_pages(pages: PageMap, len: usize, k: usize)
    ensures
        up_to(pages, len).contains_key(k) == (pages.contains_key(k) && k <= len),
        up_to(pages, len).contains_key(k) ==> up_to(pages, len)[k] == pages[k],
{
}

/// Reading a page that is in the cache leaves everything as it is. One that is not comes into the
/// cache, empty until its bytes come, and is read from the frame in which the connection finds it,
/// 24 bytes behind the frame's start, or from the database file if it is in no frame.
pub proof fn law_read_goes_where_the_page_is(
    v: PagerView,
    s: SharedView,
    id: usize,
    after: SpillOutcome,
)
    requires
        v.cache.pages.dom().finite(),
        v.can_read(s, id as int, None),
    ensures
        ({
            let (w, r) = v.read_step(s, id, after);
            let there = v.cache.pages.contains_key(id) && (v.page(id).loaded || v.page(id).locked);
            &&& there ==> w == v && (r matches Ok(step) && (step is Ready) == v.page(id).loaded
                && (step is Ready || step is Loading))
            &&& !there ==> (r matches Ok(step) ==> step is Started || step is Spill)
            &&& (r matches Ok(ReadStep::Started(_))) ==> {
                let plan = r->Ok_0->Started_0;
                let frame = match v.wal {
                    Some(wal) => wal.found_frame(s, id as u64, None),
                    None => None,
                };
                &&& w.cache.pages.contains_key(id)
                &&& w.page(id).id == id
                &&& !w.page(id).loaded && !w.page(id).dirty
                &&& plan is Database <==> frame is None
                &&& frame matches Some(f) ==> {
                    &&& plan->frame_id == f
                    &&& plan->offset == 32 + (f - 1) * (s.header.page_size + 24) + 24
                    &&& w.page(id).locked
                }
            }
        }),
{
    let asked = v.cache.asked(id);
    assert(asked.pages.dom().finite());
    lemma_with_room(asked.pages, asked.capacity, 1);
}

/// A lock has one writer or any number of readers, never both: nobody gets in beside a writer, and
/// no writer beside anybody.
pub proof fn law_lock_excludes(lock: LockView)
    requires
        !(lock.writer && lock.readers > 0),
    ensures
        lock.free() <==> !lock.writer && lock.readers == 0,
        !lock.writer ==> {
            let l = lock.add_reader();
            l.readers == lock.readers + 1 && !l.writer && !l.free()
        },
        lock.free() ==> {
            let l = lock.add_writer();
            l.writer && l.readers == 0 && !l.free()
        },
        lock.readers == 1 ==> {
            let l = lock.upgraded();
            l.writer && l.readers == 0
        },
        lock.writer ==> {
            let l = lock.downgraded();
            !l.writer && l.readers == 1
        },
        lock.writer ==> lock.released().free(),
        lock.readers > 0 ==> lock.released().readers + 1 == lock.readers && !lock.released().writer,
        lock.wf(),
{
}

/// Only pages with changes that nobody holds on to are spilled, and as many of them, in the order of
/// their numbers, as there may be.
pub proof fn law_spill_list(list: Seq<usize>, pages: PageMap, max: usize, i: int, k: usize)
    requires
        is_spill_list(list, pages, max),
    ensures
        0 <= i < list.len() ==> {
            let page = pages[list[i]];
            &&& pages.contains_key(list[i])
            &&& page.dirty && page.loaded && !page.locked && page.pin_count == 0
            &&& must_stay(page)
        },
        list.len() <= max,
        list.len() < max && pages.contains_key(k) && pages[k].dirty && !pages[k].spilled
            && pages[k].loaded && pages[k].buffer is Some && !pages[k].locked && pages[k].pin_count
            == 0 ==> list.contains(k),
{
}

/// A page that is not in the cache gets there if there is room.
pub proof fn law_read_finds_room(v: PagerView, s: SharedView, id: usize, after: SpillOutcome)
    requires
        v.cache.pages.dom().finite(),
        v.cache.pages.dom().len() < v.cache.capacity,
        !v.cache.pages.contains_key(id),
    ensures
        v.read_step(s, id, after).1 matches Ok(ReadStep::Started(_)),
{
}

/// Where no room can be made for a page that is to be read, pages are to be spilled, if that was not
/// tried yet; if none could be, the connection is told to wait.
pub proof fn law_read_of_full_cache(v: PagerView, s: SharedView, id: usize, after: SpillOutcome)
    requires
        v.cache.pages.dom().finite(),
        !v.cache.pages.contains_key(id),
        !with_room(v.cache.pages, v.cache.capacity, 1).1,
    ensures
        match after {
            SpillOutcome::NotTried => v.read_step(s, id, after).1 == Ok::<ReadStep, LimboError>(
                ReadStep::Spill,
            ),
            SpillOutcome::Nothing => v.read_step(s, id, after).1 == Err::<ReadStep, LimboError>(
                LimboError::Busy,
            ),
            SpillOutcome::Spilled => v.read_step(s, id, after).1 == Err::<ReadStep, LimboError>(
                LimboError::CacheError(CacheError::Full),
            ),
        },
{
}

} // verus!
