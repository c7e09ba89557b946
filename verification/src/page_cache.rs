//! The pages that a connection holds in memory.

use std::collections::BTreeMap;
use vstd::prelude::*;
use vstd::std_specs::btree::spec_keys_iter;
use vstd::std_specs::iter::IteratorSpec;
use crate::error::CacheError;
use crate::page::{Page, PageView};

verus! {

broadcast use vstd::std_specs::btree::group_btree_axioms;

/// Pages by their numbers.
pub type PageMap = Map<usize, PageView>;

/// Numbers in ascending order.
pub open spec fn increasing(s: Seq<usize>) -> bool {
    forall|i: int, j: int| 0 <= i < j < s.len() ==> s[i] < s[j]
}

/// Puts a number where it belongs in ascending order.
fn insert_sorted(v: &mut Vec<usize>, k: usize)
    requires
        increasing(old(v)@),
        !old(v)@.contains(k),
    ensures
        increasing(final(v)@),
        final(v)@.to_set() == old(v)@.to_set().insert(k),
{
    let mut i: usize = v.len();
    while i > 0 && v[i - 1] > k
        invariant
            i <= v@.len(),
            v@ == old(v)@,
            forall|j: int| i <= j < v@.len() ==> v@[j] > k,
        decreases i,
    {
        i = i - 1;
    }
    let ghost before = v@;
    proof {
        if i > 0 {
            assert(before.contains(before[i - 1]));
        }
    }
    v.insert(i, k);
    proof {
        assert(v@ == before.insert(i as int, k));
        assert forall|x: usize| v@.to_set().contains(x) <==> before.to_set().insert(k).contains(x) by {
            if before.contains(x) {
                let j = choose|j: int| 0 <= j < before.len() && before[j] == x;
                if j < i {
                    assert(v@[j] == x);
                } else {
                    assert(v@[j + 1] == x);
                }
            }
            if x == k {
                assert(v@[i as int] == x);
            }
            if v@.contains(x) {
                let j = choose|j: int| 0 <= j < v@.len() && v@[j] == x;
                if j < i {
                    assert(before[j] == x);
                } else if j > i {
                    assert(before[j - 1] == x);
                }
            }
        }
        assert(v@.to_set() =~= before.to_set().insert(k));
    }
}

/// The numbers of the pages, in ascending order.
fn sorted_keys(m: &BTreeMap<usize, Page>) -> (r: Vec<usize>)
    ensures
        r@.to_set() == m@.dom(),
        increasing(r@),
{
    let mut r: Vec<usize> = Vec::new();
    let ghost s = spec_keys_iter(m).remaining();
    assert(r@.to_set() =~= s.take(0).unref().to_set());
    for k in it: m.keys()
        invariant
            it.seq() == s,
            s.no_duplicates(),
            increasing(r@),
            r@.to_set() == it.seq().take(it.index()).unref().to_set(),
    {
        let ghost n = it.index();
        let ghost seen = s.take(n).unref();
        let ghost next = s.take(n + 1).unref();
        proof {
            if r@.contains(*k) {
                assert(seen.to_set().contains(*k));
                let j = choose|j: int| 0 <= j < seen.len() && seen[j] == *k;
                assert(s[j] == s[n]);
            }
            assert(next =~= seen.push(*k));
            seen.lemma_push_to_set_commute(*k);
        }
        insert_sorted(&mut r, *k);
    }
    assert(s.take(s.len() as int) =~= s);
    r
}

/// Whether a page may leave the cache: nobody uses it, and its changes, if it has
/// any, are in the log.
pub open spec fn evictable(page: PageView) -> bool {
    !page.locked && page.pin_count == 0 && (!page.dirty || page.spilled)
}

/// Whether a page may be written to the log ahead of its commit, to make room.
pub open spec fn spillable(page: PageView) -> bool {
    &&& page.dirty
    &&& !page.spilled
    &&& !page.locked
    &&& page.loaded
    &&& page.buffer is Some
    &&& page.pin_count == 0
}

/// Why a page may not be taken out of the cache, if it may not.
pub open spec fn obstacle(page: PageView, id: usize) -> Option<CacheError> {
    if page.locked {
        Some(CacheError::Locked { page_id: id })
    } else if page.dirty {
        Some(CacheError::Dirty { page_id: id })
    } else if page.pin_count > 0 {
        Some(CacheError::Pinned { page_id: id })
    } else {
        None
    }
}

/// `v` is the first page that may leave the cache.
pub open spec fn is_victim(pages: PageMap, v: usize) -> bool {
    &&& pages.contains_key(v)
    &&& evictable(pages[v])
    &&& forall|k: usize| #[trigger] pages.contains_key(k) && evictable(pages[k]) ==> v <= k
}

/// The first page that may leave the cache.
pub open spec fn victim(pages: PageMap) -> Option<usize> {
    if exists|v: usize| is_victim(pages, v) {
        Some(choose|v: usize| is_victim(pages, v))
    } else {
        None
    }
}

/// The pages after room for `n` more was made, and whether that worked.
pub open spec fn with_room(pages: PageMap, capacity: usize, n: nat) -> (PageMap, bool)
    decreases pages.dom().len(),
    when pages.dom().finite()
{
    if pages.dom().len() + n <= capacity {
        (pages, true)
    } else {
        match victim(pages) {
            None => (pages, false),
            Some(v) => if pages.contains_key(v) {
                with_room(pages.remove(v), capacity, n)
            } else {
                (pages, false)
            },
        }
    }
}

/// Making room only drops pages that may leave the cache.
pub proof fn lemma_with_room(pages: PageMap, capacity: usize, n: nat)
    requires
        pages.dom().finite(),
    ensures
        with_room(pages, capacity, n).0.dom().finite(),
        forall|k: usize| #[trigger]
            with_room(pages, capacity, n).0.contains_key(k) ==> pages.contains_key(k) && with_room(
                pages,
                capacity,
                n,
            ).0[k] == pages[k],
        forall|k: usize| #[trigger]
            pages.contains_key(k) && !evictable(pages[k]) ==> with_room(
                pages,
                capacity,
                n,
            ).0.contains_key(k),
    decreases pages.dom().len(),
{
    if pages.dom().len() + n > capacity {
        if let Some(v) = victim(pages) {
            if pages.contains_key(v) {
                assert(is_victim(pages, v));
                assert(pages.remove(v).dom() =~= pages.dom().remove(v));
                lemma_with_room(pages.remove(v), capacity, n);
            }
        }
    }
}

/// Every page is where its number says, and every loaded page has its bytes.
pub open spec fn pages_wf(pages: PageMap) -> bool {
    &&& pages.dom().finite()
    &&& forall|k: usize| #[trigger]
        pages.contains_key(k) ==> pages[k].id == k && (pages[k].loaded ==> pages[k].buffer is Some)
}

/// Adding a page, with room made for it, keeps the pages in order.
pub proof fn lemma_inserted_wf(c: CacheView, id: usize, page: PageView)
    requires
        pages_wf(c.pages),
        page.id == id,
        page.loaded ==> page.buffer is Some,
    ensures
        pages_wf(c.inserted(id, page).0.pages),
        c.inserted(id, page).1 is Ok ==> c.inserted(id, page).0.pages.contains_key(id)
            && c.inserted(id, page).0.pages[id] == page,
        forall|k: usize| #[trigger]
            c.pages.contains_key(k) && !evictable(c.pages[k]) ==> c.inserted(
                id,
                page,
            ).0.pages.contains_key(k) && c.inserted(id, page).0.pages[k] == c.pages[k],
{
    lemma_with_room(c.pages, c.capacity, 1);
}

/// The pages without those above `len`.
pub open spec fn up_to(pages: PageMap, len: usize) -> PageMap {
    pages.restrict(Set::new(|k: usize| k <= len))
}

/// The first `max` pages that may be spilled.
pub open spec fn is_spill_list(list: Seq<usize>, pages: PageMap, max: usize) -> bool {
    &&& increasing(list)
    &&& list.len() <= max
    &&& forall|i: int|
        0 <= i < list.len() ==> pages.contains_key(#[trigger] list[i]) && spillable(pages[list[i]])
    &&& forall|k: usize| #[trigger]
        pages.contains_key(k) && spillable(pages[k]) && !list.contains(k) ==> list.len() == max
            && forall|i: int| 0 <= i < list.len() ==> #[trigger] list[i] < k
}

/// The pages in memory, at most so many.
#[derive(Debug)]
pub struct PageCache {
    pages: BTreeMap<usize, Page>,
    capacity: usize,
    spill_enabled: bool,
}

/// What a cache is.
#[verifier::ext_equal]
pub struct CacheView {
    pub pages: PageMap,
    pub capacity: usize,
    pub spill_enabled: bool,
}

impl View for PageCache {
    type V = CacheView;

    closed spec fn view(&self) -> CacheView {
        CacheView {
            pages: Map::new(|k: usize| self.pages@.contains_key(k), |k: usize| self.pages@[k]@),
            capacity: self.capacity,
            spill_enabled: self.spill_enabled,
        }
    }
}

impl CacheView {
    /// The same with other pages.
    pub open spec fn with_pages(self, pages: PageMap) -> CacheView {
        CacheView { pages, ..self }
    }

    /// Whether page `id` is there and either loaded or being loaded.
    pub open spec fn usable(self, id: usize) -> bool {
        self.pages.contains_key(id) && (self.pages[id].loaded || self.pages[id].locked)
    }

    /// The cache after page `id` was asked for: one that will never be loaded is dropped.
    pub open spec fn asked(self, id: usize) -> CacheView {
        if self.pages.contains_key(id) && !self.usable(id) {
            self.with_pages(self.pages.remove(id))
        } else {
            self
        }
    }

    /// The cache after `page` was added as page `id`, and what came of it.
    pub open spec fn inserted(self, id: usize, page: PageView) -> (CacheView, Result<
        (),
        CacheError,
    >) {
        if self.pages.contains_key(id) {
            (self, Err(CacheError::KeyExists))
        } else {
            let (pages, ok) = with_room(self.pages, self.capacity, 1);
            if ok {
                (self.with_pages(pages.insert(id, page)), Ok(()))
            } else {
                (self.with_pages(pages), Err(CacheError::Full))
            }
        }
    }
}

/// What came of a change of the cache's capacity.
#[derive(Debug, Clone, Copy, PartialEq, Eq, Structural)]
pub enum CacheResizeResult {
    Done,
    /// More pages are in use than the cache should hold.
    PendingEvictions,
}

/// Whether pages have to be spilled.
#[derive(Debug)]
pub enum SpillResult {
    NotNeeded,
    Disabled,
    /// The cache is full, and no page can be spilled.
    CacheFull,
    /// These pages can be spilled.
    PagesToSpill(Vec<usize>),
}

impl PageCache {
    /// The pages are finitely many.
    pub proof fn lemma_finite(&self)
        ensures
            self@.pages.dom().finite(),
    {
        assert(self@.pages.dom() =~= self.pages@.dom());
    }

    /// An empty cache for `capacity` pages.
    pub fn new(capacity: usize) -> (r: PageCache)
        ensures
            r@ == (CacheView { pages: PageMap::empty(), capacity, spill_enabled: true }),
    {
        let r = PageCache { pages: BTreeMap::new(), capacity, spill_enabled: true };
        assert(r@.pages =~= PageMap::empty());
        r
    }

    /// How many pages are there.
    pub fn len(&self) -> (r: usize)
        ensures
            r == self@.pages.dom().len(),
    {
        assert(self@.pages.dom() =~= self.pages@.dom());
        self.pages.len()
    }

    /// How many pages there may be.
    pub fn capacity(&self) -> (r: usize)
        ensures
            r == self@.capacity,
    {
        self.capacity
    }

    /// Whether pages may be spilled.
    pub fn is_spill_enabled(&self) -> (r: bool)
        ensures
            r == self@.spill_enabled,
    {
        self.spill_enabled
    }

    /// Sets whether pages may be spilled.
    pub fn set_spill_enabled(&mut self, enabled: bool)
        ensures
            final(self)@ == (CacheView { spill_enabled: enabled, ..old(self)@ }),
    {
        self.spill_enabled = enabled;
        assert(self@.pages =~= old(self)@.pages);
    }

    /// Whether page `id` is there.
    pub fn contains_key(&self, id: usize) -> (r: bool)
        ensures
            r == self@.pages.contains_key(id),
    {
        self.pages.contains_key(&id)
    }

    /// Page `id`, if it is there.
    pub fn peek(&self, id: usize) -> (r: Option<&Page>)
        ensures
            match r {
                Some(p) => self@.pages.contains_key(id) && p@ == self@.pages[id],
                None => !self@.pages.contains_key(id),
            },
    {
        self.pages.get(&id)
    }

    /// Page `id`, if it is there and loaded or being loaded; otherwise it is dropped.
    pub fn get(&mut self, id: usize) -> (r: Option<&Page>)
        ensures
            final(self)@ == old(self)@.asked(id),
            match r {
                Some(p) => old(self)@.usable(id) && p@ == old(self)@.pages[id],
                None => !old(self)@.usable(id),
            },
    {
        let unusable = match self.pages.get(&id) {
            Some(page) => !page.is_loaded() && !page.is_locked(),
            None => false,
        };
        if unusable {
            self.pages.remove(&id);
            assert(self@.pages =~= old(self)@.pages.remove(id));
            return None;
        }
        self.pages.get(&id)
    }

    /// Takes page `id` out, to be changed and put back.
    pub fn take(&mut self, id: usize) -> (r: Page)
        requires
            old(self)@.pages.contains_key(id),
        ensures
            r@ == old(self)@.pages[id],
            final(self)@ == old(self)@.with_pages(old(self)@.pages.remove(id)),
    {
        let page = self.pages.remove(&id).unwrap();
        assert(self@.pages =~= old(self)@.pages.remove(id));
        page
    }

    /// Puts a page in as page `id`, whatever was there.
    pub fn put(&mut self, id: usize, page: Page)
        ensures
            final(self)@ == old(self)@.with_pages(old(self)@.pages.insert(id, page@)),
    {
        self.pages.insert(id, page);
        assert(self@.pages =~= old(self)@.pages.insert(id, page@));
    }

    /// The first page that may leave the cache.
    fn find_victim(&self) -> (r: Option<usize>)
        ensures
            r == victim(self@.pages),
            r matches Some(v) ==> is_victim(self@.pages, v),
    {
        let keys = sorted_keys(&self.pages);
        let mut i: usize = 0;
        while i < keys.len()
            invariant
                i <= keys@.len(),
                keys@.to_set() == self.pages@.dom(),
                increasing(keys@),
                forall|j: int| 0 <= j < i ==> !evictable(self@.pages[#[trigger] keys@[j]]),
            decreases keys@.len() - i,
        {
            let key: usize = keys[i];
            assert(keys@.to_set().contains(key));
            let page = self.pages.get(&key).unwrap();
            if !page.is_locked() && !page.is_pinned() && (!page.is_dirty() || page.is_spilled()) {
                proof {
                    assert forall|k: usize| #[trigger]
                        self@.pages.contains_key(k) && evictable(self@.pages[k]) implies key <= k by {
                        assert(keys@.to_set().contains(k));
                        let j = choose|j: int| 0 <= j < keys@.len() && keys@[j] == k;
                        assert(keys@[j] == k);
                    }
                    assert(is_victim(self@.pages, key));
                    let v = choose|v: usize| is_victim(self@.pages, v);
                    assert(v <= key && key <= v);
                }
                return Some(key);
            }
            i = i + 1;
        }
        proof {
            assert forall|v: usize| !is_victim(self@.pages, v) by {
                if is_victim(self@.pages, v) {
                    assert(keys@.to_set().contains(v));
                    let j = choose|j: int| 0 <= j < keys@.len() && keys@[j] == v;
                    assert(!evictable(self@.pages[keys@[j]]));
                }
            }
        }
        None
    }

    /// Makes room for `n` more pages, by dropping those that may go, first page first.
    pub fn make_room_for(&mut self, n: usize) -> (r: Result<(), CacheError>)
        ensures
            ({
                let (pages, ok) = with_room(old(self)@.pages, old(self)@.capacity, n as nat);
                &&& final(self)@ == old(self)@.with_pages(pages)
                &&& r == (if ok {
                    Ok::<(), CacheError>(())
                } else {
                    Err::<(), CacheError>(CacheError::Full)
                })
            }),
    {
        let ghost before = self@;
        loop
            invariant
                before == old(self)@,
                self@.capacity == before.capacity,
                self@.spill_enabled == before.spill_enabled,
                with_room(self@.pages, before.capacity, n as nat) == with_room(
                    before.pages,
                    before.capacity,
                    n as nat,
                ),
            decreases self@.pages.dom().len(),
        {
            proof {
                self.lemma_finite();
            }
            if n <= self.capacity && self.len() <= self.capacity - n {
                return Ok(());
            }
            let ghost now = self@.pages;
            match self.find_victim() {
                None => {
                    return Err(CacheError::Full);
                },
                Some(v) => {
                    self.pages.remove(&v);
                    proof {
                        assert(self@.pages =~= now.remove(v));
                        assert(now.dom().remove(v) =~= self@.pages.dom());
                    }
                },
            }
        }
    }

    /// Adds a page that is not there yet, and makes room for it if need be.
    pub fn insert(&mut self, id: usize, page: Page) -> (r: Result<(), CacheError>)
        ensures
            (final(self)@, r) == old(self)@.inserted(id, page@),
    {
        if self.pages.contains_key(&id) {
            return Err(CacheError::KeyExists);
        }
        match self.make_room_for(1) {
            Err(e) => Err(e),
            Ok(()) => {
                let ghost pages = self@.pages;
                self.pages.insert(id, page);
                assert(self@.pages =~= pages.insert(id, page@));
                Ok(())
            },
        }
    }

    /// Adds a page, or puts it in place of the one that is there.
    pub fn upsert_page(&mut self, id: usize, page: Page) -> (r: Result<(), CacheError>)
        ensures
            if old(self)@.pages.contains_key(id) {
                &&& r is Ok
                &&& final(self)@ == old(self)@.with_pages(old(self)@.pages.insert(id, page@))
            } else {
                (final(self)@, r) == old(self)@.inserted(id, page@)
            },
    {
        if self.pages.contains_key(&id) {
            self.put(id, page);
            return Ok(());
        }
        self.insert(id, page)
    }

    /// Takes page `id` out for good, unless it is locked, dirty or pinned.
    pub fn delete(&mut self, id: usize) -> (r: Result<(), CacheError>)
        ensures
            if old(self)@.pages.contains_key(id) {
                match obstacle(old(self)@.pages[id], id) {
                    Some(e) => r == Err::<(), CacheError>(e) && final(self)@ == old(self)@,
                    None => r is Ok && final(self)@ == old(self)@.with_pages(
                        old(self)@.pages.remove(id),
                    ),
                }
            } else {
                r is Ok && final(self)@ == old(self)@
            },
    {
        match self.pages.get(&id) {
            None => {
                return Ok(());
            },
            Some(page) => {
                if page.is_locked() {
                    return Err(CacheError::Locked { page_id: id });
                }
                if page.is_dirty() {
                    return Err(CacheError::Dirty { page_id: id });
                }
                if page.is_pinned() {
                    return Err(CacheError::Pinned { page_id: id });
                }
            },
        }
        self.pages.remove(&id);
        assert(self@.pages =~= old(self)@.pages.remove(id));
        Ok(())
    }

    /// Drops every page, pinned or not. Unless `clear_dirty` says otherwise, it
    /// fails if a page is dirty, and names the first.
    pub fn clear(&mut self, clear_dirty: bool) -> (r: Result<(), CacheError>)
        ensures
            clear_dirty || (forall|k: usize| #[trigger]
                old(self)@.pages.contains_key(k) ==> !old(self)@.pages[k].dirty) ==> {
                &&& r is Ok
                &&& final(self)@ == old(self)@.with_pages(PageMap::empty())
            },
            !clear_dirty && !(forall|k: usize| #[trigger]
                old(self)@.pages.contains_key(k) ==> !old(self)@.pages[k].dirty) ==> {
                &&& final(self)@ == old(self)@
                &&& r matches Err(CacheError::Dirty { page_id }) && old(self)@.pages.contains_key(
                    page_id,
                ) && old(self)@.pages[page_id].dirty && forall|k: usize| #[trigger]
                    old(self)@.pages.contains_key(k) && old(self)@.pages[k].dirty ==> page_id <= k
            },
    {
        if !clear_dirty {
            let keys = sorted_keys(&self.pages);
            let mut i: usize = 0;
            while i < keys.len()
                invariant
                    i <= keys@.len(),
                    *self == *old(self),
                    keys@.to_set() == self.pages@.dom(),
                    increasing(keys@),
                    !clear_dirty,
                    forall|j: int| 0 <= j < i ==> !self@.pages[#[trigger] keys@[j]].dirty,
                decreases keys@.len() - i,
            {
                let key: usize = keys[i];
                assert(keys@.to_set().contains(key));
                let page = self.pages.get(&key).unwrap();
                if page.is_dirty() {
                    assert(self@.pages.contains_key(key));
                    assert forall|k: usize| #[trigger]
                        self@.pages.contains_key(k) && self@.pages[k].dirty implies key <= k by {
                        assert(keys@.to_set().contains(k));
                        let j = choose|j: int| 0 <= j < keys@.len() && keys@[j] == k;
                        assert(keys@[j] == k);
                    }
                    return Err(CacheError::Dirty { page_id: key });
                }
                i = i + 1;
            }
            assert forall|k: usize| #[trigger] self@.pages.contains_key(k) implies !self@.pages[k].dirty by {
                assert(keys@.to_set().contains(k));
                let j = choose|j: int| 0 <= j < keys@.len() && keys@[j] == k;
                assert(!self@.pages[keys@[j]].dirty);
            }
        }
        self.pages.clear();
        assert(self@.pages =~= PageMap::empty());
        Ok(())
    }

    /// Drops the pages above `len`, in ascending order, up to the first one that is locked,
    /// dirty or pinned: it fails there.
    pub fn truncate(&mut self, len: usize) -> (r: Result<(), CacheError>)
        ensures
            match r {
                Ok(()) => {
                    &&& final(self)@ == old(self)@.with_pages(up_to(old(self)@.pages, len))
                    &&& forall|k: usize| #[trigger]
                        old(self)@.pages.contains_key(k) && k > len ==> obstacle(
                            old(self)@.pages[k],
                            k,
                        ) is None
                },
                Err(e) => exists|b: usize| #[trigger]
                    old(self)@.pages.contains_key(b) && b > len && obstacle(old(self)@.pages[b], b)
                        == Some(e) && (forall|k: usize| #[trigger]
                        old(self)@.pages.contains_key(k) && len < k < b ==> obstacle(
                            old(self)@.pages[k],
                            k,
                        ) is None) && final(self)@ == old(self)@.with_pages(
                        old(self)@.pages.restrict(Set::new(|k: usize| k <= len || k >= b)),
                    ),
            },
    {
        let keys = sorted_keys(&self.pages);
        let ghost before = self@;
        let mut i: usize = 0;
        assert(self@.pages =~= before.pages.restrict(
            Set::new(|k: usize| k <= len || !keys@.take(0).contains(k)),
        ));
        while i < keys.len()
            invariant
                i <= keys@.len(),
                before == old(self)@,
                keys@.to_set() == before.pages.dom(),
                increasing(keys@),
                self@ == before.with_pages(
                    before.pages.restrict(
                        Set::new(|k: usize| k <= len || !keys@.take(i as int).contains(k)),
                    ),
                ),
                forall|j: int|
                    0 <= j < i && #[trigger] keys@[j] > len ==> obstacle(
                        before.pages[keys@[j]],
                        keys@[j],
                    ) is None,
            decreases keys@.len() - i,
        {
            let key: usize = keys[i];
            proof {
                assert(keys@.to_set().contains(key));
                assert(!keys@.take(i as int).contains(key));
                lemma_take_contains(keys@, i as int);
            }
            if key > len {
                match self.delete(key) {
                    Err(e) => {
                        proof {
                            assert forall|k: usize| #[trigger]
                                before.pages.contains_key(k) && len < k < key implies obstacle(
                                before.pages[k],
                                k,
                            ) is None by {
                                assert(keys@.to_set().contains(k));
                                let j = choose|j: int| 0 <= j < keys@.len() && keys@[j] == k;
                                assert(keys@[j] == k);
                                assert(j < i);
                            }
                            assert(before.pages.contains_key(key));
                            let set = Set::new(|k: usize| k <= len || k >= key);
                            assert forall|k: usize| before.pages.contains_key(k) implies (
                            set.contains(k) <==> (k <= len || !keys@.take(i as int).contains(k))) by {
                                assert(keys@.to_set().contains(k));
                                let j = choose|j: int| 0 <= j < keys@.len() && keys@[j] == k;
                                assert(keys@[j] == k);
                                if j < i {
                                    assert(keys@.take(i as int)[j] == k);
                                } else if keys@.take(i as int).contains(k) {
                                    let taken = keys@.take(i as int);
                                    let m = choose|m: int| 0 <= m < taken.len() && taken[m] == k;
                                    assert(keys@[m] == k);
                                }
                            }
                            assert(self@.pages =~= before.pages.restrict(set));
                        }
                        return Err(e);
                    },
                    Ok(()) => {},
                }
            }
            i = i + 1;
            assert(self@.pages =~= before.pages.restrict(
                Set::new(|k: usize| k <= len || !keys@.take(i as int).contains(k)),
            ));
        }
        proof {
            assert(keys@.take(keys@.len() as int) =~= keys@);
            assert forall|k: usize| before.pages.contains_key(k) implies keys@.contains(k) by {
                assert(keys@.to_set().contains(k));
            }
            assert(self@.pages =~= up_to(before.pages, len));
            assert forall|k: usize| #[trigger] before.pages.contains_key(k) && k > len implies obstacle(
                before.pages[k],
                k,
            ) is None by {
                let j = choose|j: int| 0 <= j < keys@.len() && keys@[j] == k;
                assert(keys@[j] == k);
            }
        }
        Ok(())
    }

    /// Changes how many pages there may be, and drops those that are too many.
    pub fn resize(&mut self, capacity: usize) -> (r: CacheResizeResult)
        ensures
            ({
                let (pages, ok) = with_room(old(self)@.pages, capacity, 0);
                &&& final(self)@ == (CacheView { pages, capacity, ..old(self)@ })
                &&& r == (if ok {
                    CacheResizeResult::Done
                } else {
                    CacheResizeResult::PendingEvictions
                })
            }),
    {
        self.capacity = capacity;
        assert(self@.pages =~= old(self)@.pages);
        match self.make_room_for(0) {
            Ok(()) => CacheResizeResult::Done,
            Err(_) => CacheResizeResult::PendingEvictions,
        }
    }

    /// Whether the cache is full and pages may be spilled.
    pub fn needs_spill(&self) -> (r: bool)
        ensures
            r == (self@.spill_enabled && self@.pages.dom().len() >= self@.capacity),
    {
        self.spill_enabled && self.len() >= self.capacity
    }

    /// Whether pages have to be spilled, and if so up to `max` that can be.
    pub fn check_spill(&self, max: usize) -> (r: SpillResult)
        ensures
            if !self@.spill_enabled {
                r is Disabled
            } else if self@.pages.dom().len() < self@.capacity {
                r is NotNeeded
            } else {
                match r {
                    SpillResult::PagesToSpill(list) => list@.len() > 0 && is_spill_list(
                        list@,
                        self@.pages,
                        max,
                    ),
                    SpillResult::CacheFull => is_spill_list(Seq::empty(), self@.pages, max),
                    _ => false,
                }
            },
    {
        if !self.spill_enabled {
            return SpillResult::Disabled;
        }
        if self.len() < self.capacity {
            return SpillResult::NotNeeded;
        }
        let list = self.spill_list(max);
        if list.len() == 0 {
            assert(list@ =~= Seq::empty());
            SpillResult::CacheFull
        } else {
            SpillResult::PagesToSpill(list)
        }
    }

    fn spill_list(&self, max: usize) -> (r: Vec<usize>)
        ensures
            is_spill_list(r@, self@.pages, max),
    {
        let keys = sorted_keys(&self.pages);
        let mut list: Vec<usize> = Vec::new();
        let mut i: usize = 0;
        while i < keys.len() && list.len() < max
            invariant
                i <= keys@.len(),
                keys@.to_set() == self.pages@.dom(),
                increasing(keys@),
                increasing(list@),
                list@.len() <= max,
                forall|j: int|
                    0 <= j < list@.len() ==> self@.pages.contains_key(#[trigger] list@[j])
                        && spillable(self@.pages[list@[j]]),
                forall|j: int, k: int|
                    0 <= j < list@.len() && i <= k < keys@.len() ==> #[trigger] list@[j]
                        < #[trigger] keys@[k],
                forall|j: int|
                    0 <= j < i && spillable(self@.pages[#[trigger] keys@[j]]) ==> list@.contains(
                        keys@[j],
                    ),
            decreases keys@.len() - i,
        {
            let key: usize = keys[i];
            let ghost before = list@;
            assert(keys@.to_set().contains(key));
            let page = self.pages.get(&key).unwrap();
            if page.is_dirty() && !page.is_spilled() && !page.is_locked() && page.is_loaded()
                && page.inner.buffer.is_some() && !page.is_pinned() {
                list.push(key);
                proof {
                    assert(list@[before.len() as int] == key);
                    assert forall|j: int|
                        0 <= j < i + 1 && spillable(self@.pages[#[trigger] keys@[j]]) implies list@.contains(
                        keys@[j]) by {
                        if j < i {
                            let m = choose|m: int| 0 <= m < before.len() && before[m] == keys@[j];
                            assert(list@[m] == keys@[j]);
                        }
                    }
                }
            }
            i = i + 1;
        }
        proof {
            assert forall|k: usize| #[trigger]
                self@.pages.contains_key(k) && spillable(self@.pages[k]) && !list@.contains(
                    k,
                ) implies list@.len() == max && forall|j: int|
                0 <= j < list@.len() ==> #[trigger] list@[j] < k by {
                assert(keys@.to_set().contains(k));
                let j = choose|j: int| 0 <= j < keys@.len() && keys@[j] == k;
                assert(keys@[j] == k);
            }
        }
        list
    }
}

/// A number that is among the first `n` is not the one after them, in ascending order.
proof fn lemma_take_contains(s: Seq<usize>, n: int)
    requires
        0 <= n < s.len(),
    ensures
        forall|k: usize|
            s.take(n + 1).contains(k) <==> (#[trigger] s.take(n).contains(k) || k == s[n]),
{
    assert forall|k: usize|
        s.take(n + 1).contains(k) <==> (#[trigger] s.take(n).contains(k) || k == s[n]) by {
        let a = s.take(n);
        let b = s.take(n + 1);
        if b.contains(k) {
            let j = choose|j: int| 0 <= j < b.len() && b[j] == k;
            if j < n {
                assert(a[j] == k);
            }
        }
        if a.contains(k) {
            let j = choose|j: int| 0 <= j < a.len() && a[j] == k;
            assert(b[j] == k);
        }
        if k == s[n] {
            assert(b[n] == k);
        }
    }
}

} // verus!
