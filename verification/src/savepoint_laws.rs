//! What rolling back to a savepoint gives back of what was changed since it was opened.

use vstd::prelude::*;
use crate::bytes::{be32, be32_bytes, lemma_be32_at};
use crate::frame_index::{ascending, law_rollback_keeps_older_frames, page_frame};
use crate::page::PageView;
use crate::page_cache::CacheView;
use crate::pager::{Pager, PagerView};
use crate::rollback::{changed_pages, first_image, fits,
    law_savepoint_rollback_forgets_new_pages, law_savepoint_rollback_restores_pages, lined_up};
use crate::wal_shared::SharedView;

verus! {

/// The images that are in the journal, each with its page's number.
pub type Images = Seq<(u32, Seq<u8>)>;

/// Whether there is an image of this page.
pub open spec fn has_image(images: Images, id: u32) -> bool {
    exists|e: int| 0 <= e < images.len() && (#[trigger] images[e]).0 == id
}

/// The images' bytes: each image behind its page's number in four bytes.
pub open spec fn journal_bytes(images: Images) -> Seq<u8>
    decreases images.len(),
{
    if images.len() == 0 {
        Seq::empty()
    } else {
        journal_bytes(images.drop_last()) + (be32_bytes(images.last().0) + images.last().1)
    }
}

/// The savepoint is open, its journal holds just these images, each of a whole page and no two of
/// one page, and the savepoint knows of which pages there are some.
pub open spec fn journal_holds(v: PagerView, images: Images) -> bool {
    &&& v.journal is Some
    &&& v.savepoints.len() == 1
    &&& v.savepoints[0].start_offset == 0
    &&& v.journal->0.data == journal_bytes(images)
    &&& forall|e: int|
        #![trigger images[e]]
        0 <= e < images.len() ==> images[e].1.len() == v.page_size
    &&& forall|d: int, e: int|
        0 <= d < e < images.len() ==> (#[trigger] images[d]).0 != (#[trigger] images[e]).0
    &&& forall|id: u32| #[trigger]
        v.savepoints[0].pages.contains(id) <==> has_image(images, id)
}

/// The pager went through these states: in each one but the last a page was about to change and the
/// pager took note of it. What else happened between two states did not touch the journal, the
/// savepoint and the page size.
pub open spec fn pages_marked(states: Seq<PagerView>, pages: Seq<PageView>) -> bool {
    &&& states.len() == pages.len() + 1
    &&& forall|i: int|
        #![trigger pages[i]]
        0 <= i < pages.len() ==> {
            let marked = states[i].marked(pages[i]);
            &&& states[i].can_mark(pages[i])
            &&& states[i + 1].journal == marked.journal
            &&& states[i + 1].savepoints == marked.savepoints
            &&& states[i + 1].page_size == states[i].page_size
        }
}

/// Page `k` of the list is the first one with its number.
pub open spec fn is_first(pages: Seq<PageView>, k: int) -> bool {
    forall|j: int| 0 <= j < k ==> (#[trigger] pages[j]).id != pages[k].id
}

/// The pages of the list as they were when they first were about to change.
pub open spec fn first_images(pages: Seq<PageView>) -> Images
    decreases pages.len(),
{
    if pages.len() == 0 {
        Seq::empty()
    } else {
        let before = first_images(pages.drop_last());
        if is_first(pages, pages.len() - 1) {
            before.push((pages.last().id as u32, pages.last().data()))
        } else {
            before
        }
    }
}

/// A page has an image if it is on the list; it is that of its first place there.
proof fn lemma_first_images(pages: Seq<PageView>, k: int)
    requires
        forall|i: int| 0 <= i < pages.len() ==> (#[trigger] pages[i]).id <= u32::MAX,
    ensures
        0 <= k < pages.len() && is_first(pages, k) ==> exists|e: int|
            0 <= e < first_images(pages).len() && #[trigger] first_images(pages)[e] == (
                pages[k].id as u32,
                pages[k].data(),
            ),
        forall|e: int|
            #![trigger first_images(pages)[e]]
            0 <= e < first_images(pages).len() ==> exists|j: int|
                0 <= j < pages.len() && (#[trigger] pages[j]).id == first_images(pages)[e].0,
    decreases pages.len(),
{
    if pages.len() > 0 {
        let rest = pages.drop_last();
        let before = first_images(rest);
        let after = first_images(pages);
        assert forall|i: int| 0 <= i < rest.len() implies (#[trigger] rest[i]).id <= u32::MAX by {
            assert(rest[i] == pages[i]);
        }
        lemma_first_images(rest, k);
        assert(pages.last() == pages[pages.len() - 1]);
        if 0 <= k < pages.len() && is_first(pages, k) {
            let want = (pages[k].id as u32, pages[k].data());
            if k + 1 == pages.len() {
                assert(after[before.len() as int] == want);
            } else {
                assert(is_first(rest, k)) by {
                    assert forall|j: int| 0 <= j < k implies (#[trigger] rest[j]).id != rest[k].id by {
                        assert(rest[j] == pages[j]);
                    }
                }
                assert(rest[k] == pages[k]);
                let e = choose|e: int| 0 <= e < before.len() && #[trigger] before[e] == want;
                assert(after[e] == want);
            }
        }
        assert forall|e: int|
            #![trigger after[e]]
            0 <= e < after.len() implies exists|j: int|
            0 <= j < pages.len() && (#[trigger] pages[j]).id == after[e].0 by {
            if e < before.len() {
                assert(after[e] == before[e]);
                let j = choose|j: int|
                    0 <= j < rest.len() && (#[trigger] rest[j]).id == before[e].0;
                assert(pages[j] == rest[j]);
            } else {
                assert(pages[pages.len() - 1].id == after[e].0);
            }
        }
    }
}

/// A page has an image just if it is on the list.
proof fn lemma_has_first_image(pages: Seq<PageView>, id: u32)
    requires
        forall|i: int| 0 <= i < pages.len() ==> (#[trigger] pages[i]).id <= u32::MAX,
    ensures
        has_image(first_images(pages), id) == exists|j: int|
            0 <= j < pages.len() && (#[trigger] pages[j]).id == id,
    decreases pages.len(),
{
    lemma_first_images(pages, 0);
    if pages.len() > 0 {
        let rest = pages.drop_last();
        let before = first_images(rest);
        let after = first_images(pages);
        assert forall|i: int| 0 <= i < rest.len() implies (#[trigger] rest[i]).id <= u32::MAX by {
            assert(rest[i] == pages[i]);
        }
        lemma_has_first_image(rest, id);
        assert(pages.last() == pages[pages.len() - 1]);
        if exists|j: int| 0 <= j < pages.len() && (#[trigger] pages[j]).id == id {
            let j = choose|j: int| 0 <= j < pages.len() && (#[trigger] pages[j]).id == id;
            if exists|i: int| 0 <= i < rest.len() && (#[trigger] rest[i]).id == id {
                let e = choose|e: int| 0 <= e < before.len() && (#[trigger] before[e]).0 == id;
                assert(after[e] == before[e]);
            } else {
                if j < rest.len() {
                    assert(rest[j] == pages[j]);
                }
                assert(is_first(pages, pages.len() - 1)) by {
                    assert forall|i: int| 0 <= i < pages.len() - 1 implies (#[trigger] pages[i]).id
                        != pages[pages.len() - 1].id by {
                        assert(rest[i] == pages[i]);
                    }
                }
                assert(after[before.len() as int].0 == id);
            }
        }
    }
}

/// The page's image goes to the journal if it has none there yet.
proof fn lemma_image_added(v: PagerView, page: PageView, images: Images, w: PagerView)
    requires
        journal_holds(v, images),
        v.can_mark(page),
        !has_image(images, page.id as u32),
        w.journal == v.marked(page).journal,
        w.savepoints == v.marked(page).savepoints,
        w.page_size == v.page_size,
    ensures
        journal_holds(w, images.push((page.id as u32, page.data()))),
        w.savepoints[0].db_size == v.savepoints[0].db_size,
        w.savepoints[0].wal_max_frame == v.savepoints[0].wal_max_frame,
        w.savepoints[0].wal_checksum == v.savepoints[0].wal_checksum,
{
    let id = page.id as u32;
    let now = images.push((id, page.data()));
    assert(v.savepoints.last() == v.savepoints[0]);
    assert(v.journals(id));
    assert(now.drop_last() =~= images);
    assert(w.journal->0.data =~= journal_bytes(now));
    assert forall|e: int| #![trigger now[e]] 0 <= e < now.len() implies now[e].1.len()
        == w.page_size by {
        if e < images.len() {
            assert(now[e] == images[e]);
        }
    }
    assert forall|d: int, e: int| 0 <= d < e < now.len() implies (#[trigger] now[d]).0 != (
    #[trigger] now[e]).0 by {
        assert(now[d] == images[d]);
        if e < images.len() {
            assert(now[e] == images[e]);
        } else {
            assert(images[d].0 != id);
        }
    }
    assert forall|x: u32| #[trigger] w.savepoints[0].pages.contains(x) <==> has_image(now, x) by {
        if has_image(images, x) {
            let e = choose|e: int| 0 <= e < images.len() && (#[trigger] images[e]).0 == x;
            assert(now[e].0 == x);
        }
        if x == id {
            assert(now[images.len() as int].0 == x);
        }
        if has_image(now, x) && x != id {
            let e = choose|e: int| 0 <= e < now.len() && (#[trigger] now[e]).0 == x;
            assert(images[e].0 == x);
        }
        assert(v.savepoints[0].pages.contains(x) <==> has_image(images, x));
    }
}

/// A page that has an image in the journal gets no other one.
proof fn lemma_image_kept(v: PagerView, page: PageView, images: Images, w: PagerView)
    requires
        journal_holds(v, images),
        has_image(images, page.id as u32),
        w.journal == v.marked(page).journal,
        w.savepoints == v.marked(page).savepoints,
        w.page_size == v.page_size,
    ensures
        journal_holds(w, images),
        w.savepoints == v.savepoints,
{
    assert(v.savepoints.last() == v.savepoints[0]);
    assert(v.savepoints[0].pages.contains(page.id as u32));
}

/// The journal holds the first images of the pages that the pager took note of since the savepoint
/// was opened: each page as it was before its first change, once.
pub proof fn law_journal_holds_first_images(states: Seq<PagerView>, pages: Seq<PageView>)
    requires
        pages_marked(states, pages),
        journal_holds(states[0], Seq::empty()),
    ensures
        journal_holds(states.last(), first_images(pages)),
        states.last().page_size == states[0].page_size,
        states.last().savepoints[0].db_size == states[0].savepoints[0].db_size,
        states.last().savepoints[0].wal_max_frame == states[0].savepoints[0].wal_max_frame,
        states.last().savepoints[0].wal_checksum == states[0].savepoints[0].wal_checksum,
    decreases pages.len(),
{
    if pages.len() > 0 {
        let rest = pages.drop_last();
        let early = states.drop_last();
        let n = rest.len() as int;
        assert forall|i: int| #![trigger rest[i]] 0 <= i < rest.len() implies rest[i] == pages[i]
            && early[i] == states[i] && early[i + 1] == states[i + 1] && states[i].can_mark(
            pages[i],
        ) by {
            assert(rest[i] == pages[i]);
        }
        assert(pages_marked(early, rest));
        law_journal_holds_first_images(early, rest);
        let v = states[n];
        let page = pages[n];
        assert(early.last() == v);
        assert(pages.last() == page);
        let images = first_images(rest);
        let id = page.id as u32;
        assert(v.can_mark(page));
        assert forall|i: int| 0 <= i < rest.len() implies (#[trigger] rest[i]).id <= u32::MAX by {
            assert(states[i].can_mark(pages[i]));
        }
        lemma_has_first_image(rest, id);
        let w = states[n + 1];
        assert(states.last() == w);
        if is_first(pages, n) {
            assert(!has_image(images, id)) by {
                assert forall|j: int| 0 <= j < rest.len() implies (#[trigger] rest[j]).id != id by {
                    assert(pages[j].id != pages[n].id);
                }
            }
            lemma_image_added(v, page, images, w);
        } else {
            let j = choose|j: int| 0 <= j < n && (#[trigger] pages[j]).id == pages[n].id;
            assert(rest[j].id == id);
            lemma_image_kept(v, page, images, w);
        }
    } else {
        assert(states.last() == states[0]);
    }
}

/// Where image `k` is in the journal.
proof fn lemma_image_at(images: Images, page_size: int, k: int)
    requires
        0 <= page_size,
        forall|e: int|
            #![trigger images[e]]
            0 <= e < images.len() ==> images[e].1.len() == page_size,
        0 <= k < images.len(),
    ensures
        ({
            let data = journal_bytes(images);
            let at = k * (4 + page_size);
            &&& data.len() == images.len() * (4 + page_size)
            &&& 0 <= at
            &&& at + 4 + page_size <= data.len()
            &&& be32(data, at) == images[k].0
            &&& data.subrange(at + 4, at + 4 + page_size) == images[k].1
        }),
    decreases images.len(),
{
    let rest = images.drop_last();
    let w = 4 + page_size;
    let n = images.len() as int;
    let data = journal_bytes(images);
    let before = journal_bytes(rest);
    let entry = be32_bytes(images.last().0) + images.last().1;
    let at = k * w;
    lemma_journal_len(images, page_size);
    assert forall|e: int| #![trigger rest[e]] 0 <= e < rest.len() implies rest[e].1.len()
        == page_size by {
        assert(rest[e] == images[e]);
    }
    lemma_journal_len(rest, page_size);
    assert(images.last() == images[n - 1]);
    assert(0 <= at) by (nonlinear_arith)
        requires
            0 <= k,
            0 <= w,
            at == k * w,
    ;
    assert(at + w <= n * w) by (nonlinear_arith)
        requires
            k + 1 <= n,
            0 <= w,
            at == k * w,
    ;
    if k + 1 == n {
        assert(data.subrange(at, at + 4) =~= be32_bytes(images[k].0));
        lemma_be32_at(data, at, images[k].0);
        assert(data.subrange(at + 4, at + w) =~= images[k].1);
    } else {
        lemma_image_at(rest, page_size, k);
        assert(rest[k] == images[k]);
        assert(data.subrange(at + 4, at + w) =~= before.subrange(at + 4, at + w));
        assert(data[at] == before[at] && data[at + 1] == before[at + 1] && data[at + 2] == before[at
            + 2] && data[at + 3] == before[at + 3]);
    }
}

proof fn lemma_journal_len(images: Images, page_size: int)
    requires
        forall|e: int|
            #![trigger images[e]]
            0 <= e < images.len() ==> images[e].1.len() == page_size,
    ensures
        journal_bytes(images).len() == images.len() * (4 + page_size),
    decreases images.len(),
{
    if images.len() > 0 {
        let rest = images.drop_last();
        assert forall|e: int| #![trigger rest[e]] 0 <= e < rest.len() implies rest[e].1.len()
            == page_size by {
            assert(rest[e] == images[e]);
        }
        lemma_journal_len(rest, page_size);
        assert(images.last() == images[images.len() - 1]);
        let n = images.len() as int;
        assert(n * (4 + page_size) == (n - 1) * (4 + page_size) + (4 + page_size))
            by (nonlinear_arith);
    }
}

/// The start of image `k` is a number of whole entries behind the start of image `j`.
proof fn lemma_lined_up(j: int, k: int, page_size: int)
    requires
        0 <= page_size,
        j <= k,
    ensures
        lined_up(j * (4 + page_size), k * (4 + page_size), page_size),
    decreases k - j,
{
    let w = 4 + page_size;
    if j < k {
        lemma_lined_up(j + 1, k, page_size);
        assert((j + 1) * w == j * w + w) by (nonlinear_arith);
        assert((j + 1) * w <= k * w) by (nonlinear_arith)
            requires
                j + 1 <= k,
                0 <= w,
        ;
    }
}

/// What is a number of whole entries behind the start of an image is the start of an image.
proof fn lemma_is_start(j: int, at: int, page_size: int) -> (k: int)
    requires
        0 <= page_size,
        lined_up(j * (4 + page_size), at, page_size),
        j * (4 + page_size) <= at,
    ensures
        j <= k,
        at == k * (4 + page_size),
    decreases at - j * (4 + page_size),
{
    let w = 4 + page_size;
    if j * w == at {
        j
    } else {
        assert((j + 1) * w == j * w + w) by (nonlinear_arith);
        lemma_is_start(j + 1, at, page_size)
    }
}

/// Every page with an entry in the journal has an image.
proof fn lemma_changed_are_images(images: Images, page_size: int, db_size: u32, from: int)
    requires
        0 <= page_size,
        forall|e: int|
            #![trigger images[e]]
            0 <= e < images.len() ==> images[e].1.len() == page_size,
        0 <= from <= images.len(),
    ensures
        changed_pages(journal_bytes(images), from * (4 + page_size), page_size, db_size).finite(),
        forall|k: usize| #[trigger]
            changed_pages(
                journal_bytes(images),
                from * (4 + page_size),
                page_size,
                db_size,
            ).contains(k) ==> k <= db_size && has_image(images, k as u32),
    decreases images.len() - from,
{
    let data = journal_bytes(images);
    let w = 4 + page_size;
    lemma_journal_len(images, page_size);
    assert((from + 1) * w == from * w + w) by (nonlinear_arith);
    if from < images.len() {
        lemma_image_at(images, page_size, from);
        lemma_changed_are_images(images, page_size, db_size, from + 1);
        assert(has_image(images, images[from].0));
    } else {
        assert(from * w + w > data.len());
    }
}

/// The changed pages are in the cache, or there is room for those that are not.
pub open spec fn room_for(c: CacheView, changed: Set<usize>) -> bool {
    ||| changed.subset_of(c.pages.dom())
    ||| c.pages.dom().union(changed).len() <= c.capacity
}

/// The image `e` in the journal is put back.
proof fn lemma_image_is_put_back(v: PagerView, images: Images, changed: Set<usize>, e: int)
    requires
        journal_holds(v, images),
        v.cache.pages.dom().finite(),
        changed.finite(),
        forall|x: u32| #[trigger] has_image(images, x) ==> changed.contains(x as usize),
        room_for(v.cache, changed),
        0 <= e < images.len(),
        images[e].0 <= v.savepoints[0].db_size,
    ensures
        ({
            let (after, _, err) = Pager::savepoint_rollback(v);
            let id = images[e].0 as usize;
            &&& err is None
            &&& after.pages.contains_key(id)
            &&& after.pages[id].loaded
            &&& after.pages[id].buffer == Some(images[e].1)
        }),
{
    let size = v.page_size as int;
    let db_size = v.savepoints[0].db_size;
    let data = journal_bytes(images);
    lemma_image_at(images, size, e);
    let at = e * (4 + size);
    assert(0 * (4 + size) == 0);
    lemma_lined_up(0, e, size);
    lemma_image_is_first(images, size, e);
    lemma_changed_are_images(images, size, db_size, 0);
    let entries = changed_pages(data, 0, size, db_size);
    assert(entries.subset_of(changed)) by {
        assert forall|x: usize| entries.contains(x) implies changed.contains(x) by {
            assert(has_image(images, x as u32));
        }
    }
    lemma_fits(v.cache, entries, changed);
    assert(v.savepoints.last() == v.savepoints[0]);
    law_savepoint_rollback_restores_pages(
        v.cache,
        v.dirty,
        Set::empty(),
        data,
        0,
        size,
        db_size,
        at,
    );
}

/// No image of the same page comes before image `e`.
proof fn lemma_image_is_first(images: Images, page_size: int, e: int)
    requires
        0 <= page_size,
        forall|d: int|
            #![trigger images[d]]
            0 <= d < images.len() ==> images[d].1.len() == page_size,
        forall|c: int, d: int|
            0 <= c < d < images.len() ==> (#[trigger] images[c]).0 != (#[trigger] images[d]).0,
        0 <= e < images.len(),
    ensures
        first_image(journal_bytes(images), 0, e * (4 + page_size), page_size),
{
    let data = journal_bytes(images);
    let at = e * (4 + page_size);
    lemma_image_at(images, page_size, e);
    assert forall|o: int| 0 <= o < at && #[trigger] lined_up(0, o, page_size) implies be32(data, o)
        != be32(data, at) by {
        assert(0 * (4 + page_size) == 0);
        let d = lemma_is_start(0, o, page_size);
        assert(d < e) by (nonlinear_arith)
            requires
                d * (4 + page_size) < e * (4 + page_size),
                0 <= page_size,
        ;
        lemma_image_at(images, page_size, d);
        assert(images[d].0 != images[e].0);
    }
}

/// Where there is room for some pages, there is room for fewer.
proof fn lemma_fits(c: CacheView, entries: Set<usize>, changed: Set<usize>)
    requires
        c.pages.dom().finite(),
        changed.finite(),
        entries.subset_of(changed),
        room_for(c, changed),
    ensures
        fits(c, entries),
{
    if !changed.subset_of(c.pages.dom()) {
        vstd::set_lib::lemma_len_subset(
            c.pages.dom().union(entries),
            c.pages.dom().union(changed),
        );
    }
}

/// The savepoint that was opened is empty.
proof fn lemma_opened(v: PagerView, db_size: u32)
    requires
        v.journal matches Some(j) && j.data.len() == 0,
    ensures
        journal_holds(v.savepoint_opened(db_size), Seq::empty()),
{
    let w = v.savepoint_opened(db_size);
    assert(w.journal->0.data =~= journal_bytes(Seq::empty()));
    assert forall|x: u32| #[trigger]
        w.savepoints[0].pages.contains(x) <==> has_image(Seq::empty(), x) by {}
}

/// Every page on the list with an image is to be put back.
proof fn lemma_images_are_changed(
    states: Seq<PagerView>,
    pages: Seq<PageView>,
    changed: Set<usize>,
    k: int,
) -> (e: int)
    requires
        pages_marked(states, pages),
        forall|i: int| 0 <= i < pages.len() ==> changed.contains((#[trigger] pages[i]).id),
        0 <= k < pages.len(),
        is_first(pages, k),
    ensures
        0 <= e < first_images(pages).len(),
        first_images(pages)[e] == (pages[k].id as u32, pages[k].data()),
        pages[k].id <= u32::MAX,
        forall|x: u32| #[trigger]
            has_image(first_images(pages), x) ==> changed.contains(x as usize),
{
    let images = first_images(pages);
    assert forall|i: int| 0 <= i < pages.len() implies (#[trigger] pages[i]).id <= u32::MAX by {
        assert(states[i].can_mark(pages[i]));
    }
    lemma_first_images(pages, k);
    assert forall|x: u32| #[trigger] has_image(images, x) implies changed.contains(x as usize) by {
        lemma_has_first_image(pages, x);
        let j = choose|j: int| 0 <= j < pages.len() && (#[trigger] pages[j]).id == x;
        assert(changed.contains(pages[j].id));
    }
    let want = (pages[k].id as u32, pages[k].data());
    choose|e: int| 0 <= e < images.len() && #[trigger] images[e] == want
}

/// Rolling back to a savepoint undoes every change since it was opened. Open a savepoint, let the
/// pager take note of any number of pages that are about to change, each any number of times, and
/// let anything happen to the pages. A rollback then leaves each of these pages that existed at
/// the savepoint in the cache with the bytes that it had before its first change, as long as the
/// pages are in the cache or there is room for them; and no page is left that did not exist.
pub proof fn law_rollback_undoes_changes(
    opened: PagerView,
    db_size: u32,
    states: Seq<PagerView>,
    pages: Seq<PageView>,
    changed: Set<usize>,
    k: int,
    s: SharedView,
    w: PagerView,
    t: SharedView,
)
    requires
        opened.journal matches Some(j) && j.data.len() == 0,
        states[0] == opened.savepoint_opened(db_size),
        pages_marked(states, pages),
        states.last().cache.pages.dom().finite(),
        changed.finite(),
        forall|i: int| 0 <= i < pages.len() ==> changed.contains((#[trigger] pages[i]).id),
        room_for(states.last().cache, changed),
        0 <= k < pages.len(),
        is_first(pages, k),
        pages[k].id <= db_size,
        states.last().undone_to(s, w, t),
    ensures
        w.has(pages[k].id),
        w.page(pages[k].id).buffer == Some(pages[k].data()),
        forall|id: usize| #[trigger] w.cache.pages.contains_key(id) ==> id <= db_size,
{
    let v = states.last();
    lemma_opened(opened, db_size);
    law_journal_holds_first_images(states, pages);
    let images = first_images(pages);
    let e = lemma_images_are_changed(states, pages, changed, k);
    assert(images[e].0 == pages[k].id);
    lemma_image_is_put_back(v, images, changed, e);
    assert(v.savepoints.last() == v.savepoints[0]);
    assert(w.cache.pages.contains_key(pages[k].id));
}

/// Rolling back to a savepoint takes the log back to where it was when the savepoint was opened:
/// it ends with the frame and the checksum that it ended with, no later frame is in the index,
/// and every earlier one is found as before.
pub proof fn law_rollback_takes_the_log_back(
    opened: PagerView,
    db_size: u32,
    states: Seq<PagerView>,
    pages: Seq<PageView>,
    s: SharedView,
    w: PagerView,
    t: SharedView,
    page: u64,
    lo: u64,
    hi: u64,
)
    requires
        opened.journal matches Some(j) && j.data.len() == 0,
        opened.wal is Some,
        states[0] == opened.savepoint_opened(db_size),
        pages_marked(states, pages),
        states.last().wal is Some,
        states.last().undone_to(s, w, t),
        ascending(s.frames),
        hi <= opened.wal->0.max_frame,
    ensures
        w.wal is Some,
        w.wal->0.max_frame == opened.wal->0.max_frame,
        w.wal->0.last_checksum == opened.wal->0.last_checksum,
        forall|p: u64, i: int|
            #![trigger t.frames[p][i]]
            t.frames.contains_key(p) && 0 <= i < t.frames[p].len() ==> t.frames[p][i]
                <= opened.wal->0.max_frame,
        page_frame(t.frames, page, lo, hi) == page_frame(s.frames, page, lo, hi),
{
    let v = states.last();
    lemma_opened(opened, db_size);
    law_journal_holds_first_images(states, pages);
    assert(v.savepoints.last() == v.savepoints[0]);
    law_rollback_keeps_older_frames(s.frames, opened.wal->0.max_frame, page, lo, hi);
}

/// Rolling back to a savepoint leaves nothing to be committed of the pages that did not exist when it
/// was opened: those that the pager took note of since are not dirty any more. No page becomes
/// dirty by it.
pub proof fn law_rollback_forgets_new_pages(
    opened: PagerView,
    db_size: u32,
    states: Seq<PagerView>,
    pages: Seq<PageView>,
    k: int,
    id: u32,
)
    requires
        opened.journal matches Some(j) && j.data.len() == 0,
        states[0] == opened.savepoint_opened(db_size),
        pages_marked(states, pages),
        Pager::savepoint_rollback(states.last()).2 is None,
        0 <= k < pages.len(),
        pages[k].id > db_size,
    ensures
        ({
            let (_, left, _) = Pager::savepoint_rollback(states.last());
            &&& !left.contains(pages[k].id as u32)
            &&& left.contains(id) ==> states.last().dirty.contains(id)
            &&& id <= db_size ==> left.contains(id) == states.last().dirty.contains(id)
        }),
{
    let v = states.last();
    lemma_opened(opened, db_size);
    law_journal_holds_first_images(states, pages);
    let images = first_images(pages);
    assert forall|i: int| 0 <= i < pages.len() implies (#[trigger] pages[i]).id <= u32::MAX by {
        assert(states[i].can_mark(pages[i]));
    }
    let new = pages[k].id as u32;
    lemma_has_first_image(pages, new);
    let e = choose|e: int| 0 <= e < images.len() && (#[trigger] images[e]).0 == new;
    let size = v.page_size as int;
    lemma_image_at(images, size, e);
    lemma_lined_up(0, e, size);
    assert(0 * (4 + size) == 0);
    assert(v.savepoints.last() == v.savepoints[0]);
    law_savepoint_rollback_forgets_new_pages(
        v.cache,
        v.dirty,
        Set::empty(),
        journal_bytes(images),
        0,
        size,
        db_size,
        e * (4 + size),
        new,
    );
    law_savepoint_rollback_forgets_new_pages(
        v.cache,
        v.dirty,
        Set::empty(),
        journal_bytes(images),
        0,
        size,
        db_size,
        0,
        id,
    );
}

} // verus!
