//! Rolling back: to a savepoint, or a whole transaction.

use vstd::prelude::*;
use crate::bitmap::PageSet;
use crate::bytes::{be32, copy_range, read_be32};
use crate::checkpoint_state::OngoingView;
use crate::error::{CacheError, InternalFault, LimboError};
use crate::frame_index::rolled_back;
use crate::page::{Page, PageView, TAG_UNSET};
use crate::page_cache::{lemma_inserted_wf, obstacle, pages_wf, up_to, CacheView};
use crate::pager::{Pager, PagerView};
use crate::rwlock::NO_LOCK_HELD;
use crate::savepoint::JournalView;
use crate::wal::{RollbackTo, WalFile};
use crate::wal_shared::{SharedView, WalFileShared};

verus! {

/// A page as its image in the journal says.
pub open spec fn restored_page(id: u32, image: Seq<u8>) -> PageView {
    PageView { loaded: true, buffer: Some(image), ..PageView::fresh(id as usize) }
}

/// The cache after a page that does not exist any more was forgotten: if it is there, it is no
/// longer dirty, and has one pin less.
pub open spec fn forgotten(c: CacheView, id: usize) -> CacheView {
    let asked = c.asked(id);
    if c.usable(id) {
        let p = c.pages[id];
        asked.with_pages(
            asked.pages.insert(
                id,
                PageView {
                    pin_count: if p.pin_count > 0 {
                        (p.pin_count - 1) as usize
                    } else {
                        0
                    },
                    ..p.cleaned()
                },
            ),
        )
    } else {
        asked
    }
}

/// The cache after a page was put in place, whether it was there or not, and what came of it.
pub open spec fn upserted(c: CacheView, id: usize, page: PageView) -> (CacheView, Result<
    (),
    CacheError,
>) {
    if c.pages.contains_key(id) {
        (c.with_pages(c.pages.insert(id, page)), Ok(()))
    } else {
        c.inserted(id, page)
    }
}

/// The cache and the dirty pages after the images in the journal from `off` on were put back, and
/// the error that stopped it, if one did. The first image of a page counts; a page beyond
/// the database's size is forgotten.
pub open spec fn put_back(
    c: CacheView,
    dirty: Set<u32>,
    seen: Set<u32>,
    data: Seq<u8>,
    off: int,
    page_size: int,
    db_size: u32,
) -> (CacheView, Set<u32>, Option<LimboError>)
    decreases data.len() - off,
{
    let next = off + 4 + page_size;
    if off < 0 || page_size < 0 || next > data.len() {
        (c, dirty, None)
    } else {
        let id = be32(data, off) as u32;
        if seen.contains(id) {
            put_back(c, dirty, seen, data, next, page_size, db_size)
        } else if id > db_size {
            put_back(
                forgotten(c, id as usize),
                dirty.remove(id),
                seen.insert(id),
                data,
                next,
                page_size,
                db_size,
            )
        } else {
            let (after, r) = upserted(
                c,
                id as usize,
                restored_page(id, data.subrange(off + 4, next)),
            );
            match r {
                Ok(()) => put_back(after, dirty, seen.insert(id), data, next, page_size, db_size),
                Err(reason) => (
                    after,
                    dirty,
                    Some(
                        LimboError::InternalError(
                            InternalFault::CacheInsert { page_id: id as usize, reason },
                        ),
                    ),
                ),
            }
        }
    }
}

impl PagerView {
    /// `w` and `t` are this pager and the log `s` without what came after the savepoint: the pages are
    /// those that were put back, as far as they existed then, the log ends where it did then,
    /// and the savepoint is gone with its journal.
    pub open spec fn undone_to(self, s: SharedView, w: PagerView, t: SharedView) -> bool {
        let savepoint = self.savepoints.last();
        let (cache, _, err) = Pager::savepoint_rollback(self);
        &&& err is None
        &&& forall|k: usize| #[trigger]
            w.cache.pages.contains_key(k) <==> cache.pages.contains_key(k) && k <= savepoint.db_size
        &&& forall|k: usize| #[trigger]
            w.cache.pages.contains_key(k) ==> w.cache.pages[k] == cache.pages[k]
        &&& w.savepoints.len() == 0
        &&& w.journal matches Some(j) && j.data.len() == 0
        &&& self.wal is Some ==> {
            &&& w.wal matches Some(f) && f.max_frame == savepoint.wal_max_frame && f.last_checksum
                == savepoint.wal_checksum
            &&& t.frames == rolled_back(s.frames, savepoint.wal_max_frame)
        }
    }
}

impl Pager {
    /// Puts a page in the cache, whether it is there or not. It counts as loaded, from no frame.
    pub fn upsert_page_in_cache(
        &mut self,
        id: usize,
        page: Page,
        dirty_page_must_exist: bool,
    ) -> (r: Result<(), LimboError>)
        requires
            dirty_page_must_exist ==> page@.dirty,
        ensures
            ({
                let placed = PageView { loaded: true, wal_tag: TAG_UNSET, ..page@ };
                let (cache, res) = upserted(old(self)@.cache, id, placed);
                &&& final(self)@ == old(self)@.with_cache(cache)
                &&& r == (match res {
                    Ok(()) => Ok::<(), LimboError>(()),
                    Err(reason) => Err::<(), LimboError>(
                        LimboError::InternalError(
                            InternalFault::CacheInsert { page_id: id, reason },
                        ),
                    ),
                })
            }),
    {
        let mut page = page;
        page.set_loaded();
        page.clear_wal_tag();
        match self.page_cache.upsert_page(id, page) {
            Ok(()) => Ok(()),
            Err(reason) => Err(
                LimboError::InternalError(InternalFault::CacheInsert { page_id: id, reason }),
            ),
        }
    }

    /// What rolling back to the savepoint does, apart from the log.
    pub open spec fn savepoint_rollback(v: PagerView) -> (CacheView, Set<u32>, Option<LimboError>) {
        put_back(
            v.cache,
            v.dirty,
            Set::empty(),
            v.journal->0.data,
            v.savepoints.last().start_offset as int,
            v.page_size as int,
            v.savepoints.last().db_size,
        )
    }

    /// Rolls back to the savepoint, if one is open: puts back the images in the journal, drops the
    /// pages that did not exist then, and takes back the frames since. Says whether there was one.
    pub fn rollback_to_newest_savepoint(&mut self, shared: &mut WalFileShared) -> (r: Result<
        bool,
        LimboError,
    >)
        requires
            old(self)@.wf(),
        ensures
            final(self)@.wf(),
            ({
                let v = old(self)@;
                let s = old(shared)@;
                let savepoint = v.savepoints.last();
                let (cache, dirty, err) = Pager::savepoint_rollback(v);
                if v.journal is None || v.savepoints.len() == 0 {
                    &&& r == Ok::<bool, LimboError>(false)
                    &&& final(self)@ == v
                    &&& final(shared)@ == s
                } else if err is Some {
                    &&& r == Err::<bool, LimboError>(err->0)
                    &&& final(self)@ == (PagerView {
                        cache,
                        dirty,
                        savepoints: v.savepoints.drop_last(),
                        ..v
                    })
                    &&& final(shared)@ == s
                } else {
                    let undone = PagerView {
                        dirty,
                        savepoints: v.savepoints.drop_last(),
                        journal: Some(JournalView { data: Seq::empty(), ..v.journal->0 }),
                        ..v
                    };
                    let size = savepoint.db_size as usize;
                    let blocked = exists|k: usize| #[trigger]
                        cache.pages.contains_key(k) && k > size && obstacle(cache.pages[k], k) is Some;
                    &&& blocked ==> exists|b: usize| #[trigger]
                        cache.pages.contains_key(b) && b > size && obstacle(cache.pages[b], b) is Some
                            && (forall|k: usize| #[trigger]
                            cache.pages.contains_key(k) && size < k < b ==> obstacle(
                                cache.pages[k],
                                k,
                            ) is None) && r == Err::<bool, LimboError>(
                            LimboError::CacheError(obstacle(cache.pages[b], b)->0),
                        ) && final(self)@ == undone.with_cache(
                            cache.with_pages(
                                cache.pages.restrict(Set::new(|k: usize| k <= size || k >= b)),
                            ),
                        ) && final(shared)@ == s
                    &&& !blocked ==> {
                        &&& r == Ok::<bool, LimboError>(true)
                        &&& final(self)@ == (PagerView {
                            cache: cache.with_pages(up_to(cache.pages, size)),
                            wal: final(self)@.wal,
                            ..undone
                        })
                        &&& match v.wal {
                            None => final(self)@.wal is None && final(shared)@ == s,
                            Some(w) => {
                                &&& final(self)@.wal matches Some(f) && f == (WalFile {
                                    max_frame: savepoint.wal_max_frame,
                                    last_checksum: savepoint.wal_checksum,
                                    max_frame_read_lock_index: NO_LOCK_HELD,
                                    syncing: false,
                                    ongoing_checkpoint: f.ongoing_checkpoint,
                                    ..w
                                }) && f.ongoing_checkpoint@ == OngoingView::idle() && f.wf()
                                &&& final(shared)@ == (SharedView {
                                    frames: rolled_back(s.frames, savepoint.wal_max_frame),
                                    ..s
                                })
                            },
                        }
                    }
                }
            }),
            r == Ok::<bool, LimboError>(true) ==> old(self)@.undone_to(
                old(shared)@,
                final(self)@,
                final(shared)@,
            ),
    {
        if self.subjournal.is_none() || self.savepoints.len() == 0 {
            return Ok(false);
        }
        let ghost before = self@;
        proof {
            lemma_put_back_wf(
                before.cache,
                before.dirty,
                Set::empty(),
                before.journal->0.data,
                before.savepoints.last().start_offset as int,
                before.page_size as int,
                before.savepoints.last().db_size,
            );
        }
        let savepoint = self.savepoints.pop().unwrap();
        assert(savepoint@ == before.savepoints.last());
        assert(self@.savepoints =~= before.savepoints.drop_last());
        let mut journal = self.subjournal.take().unwrap();
        let page_size: usize = self.page_size as usize;
        let end: usize = journal.data.len();
        let db_size: u32 = savepoint.db_size;
        let mut seen = PageSet::new();
        let mut offset: usize = 0;
        while 4 <= end - offset && page_size <= end - offset - 4
            invariant
                offset <= end,
                end == journal.data@.len(),
                journal@ == before.journal->0,
                page_size == before.page_size,
                db_size == savepoint@.db_size,
                savepoint@ == before.savepoints.last(),
                savepoint@.start_offset == 0,
                before == old(self)@,
                before.journal is Some,
                before.savepoints.len() == 1,
                before.wf(),
                pages_wf(Pager::savepoint_rollback(before).0.pages),
                *shared == *old(shared),
                self@ == (PagerView {
                    cache: self@.cache,
                    dirty: self@.dirty,
                    journal: None,
                    savepoints: before.savepoints.drop_last(),
                    ..before
                }),
                put_back(
                    self@.cache,
                    self@.dirty,
                    seen@,
                    journal.data@,
                    offset as int,
                    page_size as int,
                    db_size,
                ) == Pager::savepoint_rollback(before),
            decreases end - offset,
        {
            let ghost mid = self@;
            let page_id: u32 = read_be32(journal.data.as_slice(), offset);
            let image_at: usize = offset + 4;
            let next: usize = image_at + page_size;
            if seen.contains(page_id) {
                offset = next;
                continue ;
            }
            if page_id > db_size {
                self.dirty_pages.remove(page_id);
                self.forget_page(page_id as usize);
                seen.insert(page_id);
                offset = next;
                assert(self@ =~= (PagerView {
                    cache: forgotten(mid.cache, page_id as usize),
                    dirty: mid.dirty.remove(page_id),
                    ..mid
                }));
                continue ;
            }
            let mut page = Page::new(page_id as i64);
            page.finish_read(copy_range(journal.data.as_slice(), image_at, next));
            assert(page@ =~= restored_page(
                page_id,
                journal.data@.subrange(image_at as int, next as int),
            ));
            seen.insert(page_id);
            match self.upsert_page_in_cache(page_id as usize, page, false) {
                Err(e) => {
                    let ghost failed = self@;
                    self.subjournal = Some(journal);
                    assert(self@ =~= (PagerView { journal: before.journal, ..failed }));
                    return Err(e);
                },
                Ok(()) => {},
            }
            offset = next;
        }
        let ghost done = self@;
        journal.truncate(savepoint.start_offset);
        assert(journal@.data =~= Seq::empty());
        self.subjournal = Some(journal);
        let ghost undone = PagerView {
            journal: Some(JournalView { data: Seq::empty(), ..before.journal->0 }),
            ..done
        };
        assert(self@ =~= undone);
        match self.page_cache.truncate(db_size as usize) {
            Err(e) => {
                assert(self@ =~= undone.with_cache(self@.cache));
                proof {
                    self.page_cache.lemma_finite();
                }
                return Err(LimboError::CacheError(e));
            },
            Ok(()) => {},
        }
        proof {
            self.page_cache.lemma_finite();
        }
        if self.wal.is_some() {
            let mut wal = self.wal.take().unwrap();
            wal.rollback(
                shared,
                Some(RollbackTo { frame: savepoint.wal_max_frame, checksum: savepoint.wal_checksum }),
            );
            self.wal = Some(wal);
        }
        Ok(true)
    }

    /// Forgets a page that does not exist any more.
    fn forget_page(&mut self, id: usize)
        ensures
            final(self)@ == old(self)@.with_cache(forgotten(old(self)@.cache, id)),
    {
        let ghost before = self@;
        let there = self.page_cache.get(id).is_some();
        if there {
            let mut page = self.page_cache.take(id);
            page.clear_dirty();
            page.try_unpin();
            self.page_cache.put(id, page);
            assert(self@.cache.pages =~= forgotten(before.cache, id).pages);
        }
        assert(self@ =~= before.with_cache(forgotten(before.cache, id)));
    }
}

/// Putting images back keeps the pages in order.
proof fn lemma_put_back_wf(
    c: CacheView,
    dirty: Set<u32>,
    seen: Set<u32>,
    data: Seq<u8>,
    off: int,
    page_size: int,
    db_size: u32,
)
    requires
        pages_wf(c.pages),
    ensures
        pages_wf(put_back(c, dirty, seen, data, off, page_size, db_size).0.pages),
    decreases data.len() - off,
{
    let next = off + 4 + page_size;
    if !(off < 0 || page_size < 0 || next > data.len()) {
        let id = be32(data, off) as u32;
        if seen.contains(id) {
            lemma_put_back_wf(c, dirty, seen, data, next, page_size, db_size);
        } else if id > db_size {
            lemma_put_back_wf(
                forgotten(c, id as usize),
                dirty.remove(id),
                seen.insert(id),
                data,
                next,
                page_size,
                db_size,
            );
        } else {
            let page = restored_page(id, data.subrange(off + 4, next));
            let (after, r) = upserted(c, id as usize, page);
            lemma_inserted_wf(c, id as usize, page);
            if r is Ok {
                lemma_put_back_wf(after, dirty, seen.insert(id), data, next, page_size, db_size);
            }
        }
    }
}

/// The pages with an entry from `off` on that existed at the savepoint.
pub open spec fn changed_pages(data: Seq<u8>, off: int, page_size: int, db_size: u32) -> Set<usize>
    decreases data.len() - off,
{
    let next = off + 4 + page_size;
    if off < 0 || page_size < 0 || next > data.len() {
        Set::empty()
    } else {
        let rest = changed_pages(data, next, page_size, db_size);
        let id = be32(data, off) as u32;
        if id <= db_size {
            rest.insert(id as usize)
        } else {
            rest
        }
    }
}

/// The pages are in the cache, or there is room for those that are not.
pub open spec fn fits(c: CacheView, pages: Set<usize>) -> bool {
    ||| pages.subset_of(c.pages.dom())
    ||| c.pages.dom().union(pages).len() <= c.capacity
}

proof fn lemma_changed_pages(data: Seq<u8>, off: int, page_size: int, db_size: u32)
    ensures
        changed_pages(data, off, page_size, db_size).finite(),
        forall|k: usize| #[trigger]
            changed_pages(data, off, page_size, db_size).contains(k) ==> k <= db_size,
    decreases data.len() - off,
{
    let next = off + 4 + page_size;
    if !(off < 0 || page_size < 0 || next > data.len()) {
        lemma_changed_pages(data, next, page_size, db_size);
    }
}

/// A page that fits the cache is put there, and no other page leaves for it.
proof fn lemma_upserted(c: CacheView, pages: Set<usize>, id: usize, page: PageView)
    requires
        c.pages.dom().finite(),
        pages.finite(),
        fits(c, pages),
        pages.contains(id),
    ensures
        upserted(c, id, page) == (
            c.with_pages(c.pages.insert(id, page)),
            Ok::<(), CacheError>(()),
        ),
{
    let dom = c.pages.dom();
    if !dom.contains(id) {
        assert(dom.insert(id).subset_of(dom.union(pages)));
        vstd::set_lib::lemma_len_subset(dom.insert(id), dom.union(pages));
    }
}

/// What fits goes on to fit while pages are put in place and others leave.
proof fn lemma_fits_later(c: CacheView, d: CacheView, pages: Set<usize>, rest: Set<usize>)
    requires
        c.pages.dom().finite(),
        pages.finite(),
        rest.subset_of(pages),
        fits(c, pages),
        d.capacity == c.capacity,
        d.pages.dom().subset_of(c.pages.dom().union(pages)),
        forall|k: usize| #[trigger]
            rest.contains(k) && c.pages.contains_key(k) ==> d.pages.contains_key(k),
    ensures
        fits(d, rest),
{
    if pages.subset_of(c.pages.dom()) {
        assert forall|k: usize| rest.contains(k) implies d.pages.dom().contains(k) by {
            assert(c.pages.dom().contains(k));
        }
    } else {
        vstd::set_lib::lemma_len_subset(d.pages.dom().union(rest), c.pages.dom().union(pages));
    }
}

/// One entry is put back, or passed over, while the changed pages fit the cache: what is put back
/// next, and that the rest still fits.
proof fn lemma_put_back_one(
    c: CacheView,
    dirty: Set<u32>,
    seen: Set<u32>,
    data: Seq<u8>,
    off: int,
    page_size: int,
    db_size: u32,
) -> (d: CacheView)
    requires
        0 <= off,
        0 <= page_size,
        off + 4 + page_size <= data.len(),
        c.pages.dom().finite(),
        fits(c, changed_pages(data, off, page_size, db_size)),
    ensures
        ({
            let next = off + 4 + page_size;
            let id = be32(data, off) as u32;
            &&& d.pages.dom().finite()
            &&& fits(d, changed_pages(data, next, page_size, db_size))
            &&& put_back(c, dirty, seen, data, off, page_size, db_size) == put_back(
                d,
                if !seen.contains(id) && id > db_size {
                    dirty.remove(id)
                } else {
                    dirty
                },
                seen.insert(id),
                data,
                next,
                page_size,
                db_size,
            )
            &&& !seen.contains(id) && id <= db_size ==> d.pages.contains_key(id as usize)
                && d.pages[id as usize] == restored_page(id, data.subrange(off + 4, next))
            &&& forall|k: usize|
                #![trigger d.pages.contains_key(k)]
                #![trigger d.pages[k]]
                k <= db_size && c.pages.contains_key(k) && (k != id || seen.contains(id))
                    ==> d.pages.contains_key(k) && d.pages[k] == c.pages[k]
        }),
{
    let next = off + 4 + page_size;
    let id = be32(data, off) as u32;
    let pages = changed_pages(data, off, page_size, db_size);
    let rest = changed_pages(data, next, page_size, db_size);
    lemma_changed_pages(data, off, page_size, db_size);
    lemma_changed_pages(data, next, page_size, db_size);
    if seen.contains(id) {
        assert(seen.insert(id) =~= seen);
        lemma_fits_later(c, c, pages, rest);
        c
    } else if id > db_size {
        let d = forgotten(c, id as usize);
        lemma_fits_later(c, d, pages, rest);
        d
    } else {
        let page = restored_page(id, data.subrange(off + 4, next));
        let d = c.with_pages(c.pages.insert(id as usize, page));
        lemma_upserted(c, pages, id as usize, page);
        lemma_fits_later(c, d, pages, rest);
        d
    }
}

/// Rolling back to a savepoint gives every page that was changed since, and existed then, the bytes
/// that it had when it was first changed, as long as the changed pages are in the cache or there is
/// room for those that are not.
pub proof fn law_savepoint_rollback_restores_pages(
    c: CacheView,
    dirty: Set<u32>,
    seen: Set<u32>,
    data: Seq<u8>,
    off: int,
    page_size: int,
    db_size: u32,
    at: int,
)
    requires
        0 <= off <= at,
        0 <= page_size,
        at + 4 + page_size <= data.len(),
        lined_up(off, at, page_size),
        c.pages.dom().finite(),
        fits(c, changed_pages(data, off, page_size, db_size)),
        be32(data, at) <= db_size,
        !seen.contains(be32(data, at) as u32),
        first_image(data, off, at, page_size),
    ensures
        ({
            let (after, _, err) = put_back(c, dirty, seen, data, off, page_size, db_size);
            let id = be32(data, at) as usize;
            &&& err is None
            &&& after.pages.contains_key(id)
            &&& after.pages[id].buffer == Some(data.subrange(at + 4, at + 4 + page_size))
            &&& after.pages[id].loaded
            &&& !after.pages[id].dirty
        }),
    decreases data.len() - off,
{
    let next = off + 4 + page_size;
    let id = be32(data, off) as u32;
    crate::bytes::lemma_be32_bytes_of(data, off);
    crate::bytes::lemma_be32_bytes_of(data, at);
    if off < at {
        lemma_lined_up(off, at, page_size);
    }
    let d = lemma_put_back_one(c, dirty, seen, data, off, page_size, db_size);
    let left = if !seen.contains(id) && id > db_size {
        dirty.remove(id)
    } else {
        dirty
    };
    if off == at {
        lemma_put_back_keeps(d, left, seen.insert(id), data, next, page_size, db_size, id);
    } else {
        assert(lined_up(off, off, page_size));
        assert(first_image(data, next, at, page_size)) by {
            assert forall|o: int| next <= o < at && #[trigger] lined_up(next, o, page_size) implies be32(
                data,
                o,
            ) != be32(data, at) by {
                lemma_lined_up_step(off, o, page_size);
            }
        }
        law_savepoint_rollback_restores_pages(
            d,
            left,
            seen.insert(id),
            data,
            next,
            page_size,
            db_size,
            at,
        );
    }
}

/// Rolling back to a savepoint makes no page dirty, and leaves those that existed then as dirty as
/// they are. A page that did not exist then, and was noted as about to change, is not dirty any
/// more.
pub proof fn law_savepoint_rollback_forgets_new_pages(
    c: CacheView,
    dirty: Set<u32>,
    seen: Set<u32>,
    data: Seq<u8>,
    off: int,
    page_size: int,
    db_size: u32,
    at: int,
    id: u32,
)
    requires
        0 <= off <= at,
        0 <= page_size,
        put_back(c, dirty, seen, data, off, page_size, db_size).2 is None,
    ensures
        ({
            let (_, left, _) = put_back(c, dirty, seen, data, off, page_size, db_size);
            &&& left.contains(id) ==> dirty.contains(id)
            &&& id <= db_size ==> left.contains(id) == dirty.contains(id)
            &&& lined_up(off, at, page_size) && at + 4 + page_size <= data.len() && be32(data, at)
                == id && id > db_size && !seen.contains(id) ==> !left.contains(id)
        }),
    decreases data.len() - off,
{
    let next = off + 4 + page_size;
    if next <= data.len() {
        let here = be32(data, off) as u32;
        crate::bytes::lemma_be32_bytes_of(data, off);
        let (d, e, n) = if seen.contains(here) {
            (c, dirty, seen)
        } else if here > db_size {
            (forgotten(c, here as usize), dirty.remove(here), seen.insert(here))
        } else {
            (
                upserted(
                    c,
                    here as usize,
                    restored_page(here, data.subrange(off + 4, next)),
                ).0,
                dirty,
                seen.insert(here),
            )
        };
        let then = if at < next {
            next
        } else {
            at
        };
        law_savepoint_rollback_forgets_new_pages(
            d,
            e,
            n,
            data,
            next,
            page_size,
            db_size,
            then,
            id,
        );
    }
}

/// `at` is some number of whole entries behind `off`.
pub open spec fn lined_up(off: int, at: int, page_size: int) -> bool
    decreases at - off,
{
    if off == at {
        true
    } else if page_size < 0 || off + 4 + page_size > at {
        false
    } else {
        lined_up(off + 4 + page_size, at, page_size)
    }
}

/// No entry from `off` on and before `at` is of the same page as the one at `at`.
pub open spec fn first_image(data: Seq<u8>, off: int, at: int, page_size: int) -> bool {
    forall|o: int|
        off <= o < at && #[trigger] lined_up(off, o, page_size) ==> be32(data, o) != be32(data, at)
}

proof fn lemma_lined_up(off: int, at: int, page_size: int)
    requires
        off < at,
        0 <= page_size,
        lined_up(off, at, page_size),
    ensures
        off + 4 + page_size <= at,
        lined_up(off + 4 + page_size, at, page_size),
{
}

proof fn lemma_lined_up_step(off: int, at: int, page_size: int)
    requires
        0 <= page_size,
        lined_up(off + 4 + page_size, at, page_size),
        off + 4 + page_size <= at,
    ensures
        lined_up(off, at, page_size),
{
}

/// A page that was put back is not touched again, while the pages that follow fit the cache.
proof fn lemma_put_back_keeps(
    c: CacheView,
    dirty: Set<u32>,
    seen: Set<u32>,
    data: Seq<u8>,
    off: int,
    page_size: int,
    db_size: u32,
    id: u32,
)
    requires
        0 <= off,
        0 <= page_size,
        c.pages.dom().finite(),
        fits(c, changed_pages(data, off, page_size, db_size)),
        seen.contains(id),
        id <= db_size,
        c.pages.contains_key(id as usize),
    ensures
        ({
            let (after, _, err) = put_back(c, dirty, seen, data, off, page_size, db_size);
            &&& err is None
            &&& after.pages.contains_key(id as usize)
            &&& after.pages[id as usize] == c.pages[id as usize]
        }),
    decreases data.len() - off,
{
    let next = off + 4 + page_size;
    if next <= data.len() {
        let other = be32(data, off) as u32;
        let d = lemma_put_back_one(c, dirty, seen, data, off, page_size, db_size);
        lemma_put_back_keeps(
            d,
            if !seen.contains(other) && other > db_size {
                dirty.remove(other)
            } else {
                dirty
            },
            seen.insert(other),
            data,
            next,
            page_size,
            db_size,
            id,
        );
    }
}

} // verus!
