//! Bringing pages into the cache.

use vstd::prelude::*;
use crate::error::{CacheError, CompletionError, LimboError};
use crate::page::{Page, PageView, TAG_UNSET};
use crate::page_cache::lemma_inserted_wf;
use crate::pager::{Pager, PagerView};
use crate::wal::WalFile;
use crate::wal_format::{frame_position, WAL_FRAME_HEADER_SIZE};
use crate::wal_shared::{SharedView, WalFileShared};

verus! {

/// Where a page's bytes are to be read from.
#[derive(Debug, Clone, Copy, PartialEq, Eq, Structural)]
pub enum ReadPlan {
    /// From a frame of the log: they are at this offset of its file.
    Frame { frame_id: u64, offset: u64 },
    /// From the database file.
    Database,
}

/// Where a step leaves the reading of a page.
#[derive(Debug, Clone, Copy, PartialEq, Eq, Structural)]
pub enum ReadStep {
    /// The page is in the cache and loaded.
    Ready,
    /// The page is in the cache, and its bytes are on the way.
    Loading,
    /// The page is in the cache, and its bytes are to be read.
    Started(ReadPlan),
    /// The cache is full: pages have to be spilled first.
    Spill,
}

/// What was done about a full cache.
#[derive(Debug, Clone, Copy, PartialEq, Eq, Structural)]
pub enum SpillOutcome {
    /// Nothing yet.
    NotTried,
    /// Pages were spilled.
    Spilled,
    /// No page could be spilled.
    Nothing,
}

/// What came of a read: the buffer, and how many bytes of it were filled.
pub open spec fn came(res: Result<(Vec<u8>, usize), CompletionError>) -> Result<
    (Seq<u8>, usize),
    CompletionError,
> {
    match res {
        Ok((buf, n)) => Ok((buf@, n)),
        Err(e) => Err(e),
    }
}

impl PagerView {
    /// The frame to read page `id` from, if the log has it.
    pub open spec fn frame_for(self, s: SharedView, id: int, watermark: Option<u64>) -> Option<u64> {
        match self.wal {
            Some(wal) => wal.found_frame(s, id as u64, watermark),
            None => None,
        }
    }

    /// Where page `id` is to be read from.
    pub open spec fn plan_for(self, s: SharedView, id: int, watermark: Option<u64>) -> ReadPlan {
        match self.frame_for(s, id, watermark) {
            Some(frame_id) => ReadPlan::Frame {
                frame_id,
                offset: (frame_position(frame_id as int, s.header.page_size as int)
                    + WAL_FRAME_HEADER_SIZE) as u64,
            },
            None => ReadPlan::Database,
        }
    }

    /// A page whose bytes are on the way. While they come from a frame, or from the file of a
    /// database without a log, the page is locked.
    pub open spec fn expected_page(self, s: SharedView, id: int, watermark: Option<u64>) -> PageView {
        PageView {
            locked: self.wal is None || self.frame_for(s, id, watermark) is Some,
            ..PageView::fresh(id as usize)
        }
    }

    /// The frame that page `id` is to be read from, if there is one, is at an offset that fits,
    /// and the log is in use.
    pub open spec fn can_read(self, s: SharedView, id: int, watermark: Option<u64>) -> bool {
        self.frame_for(s, id, watermark) matches Some(f) ==> {
            &&& s.enabled
            &&& f >= 1
            &&& frame_position(f as int, s.header.page_size as int) + WAL_FRAME_HEADER_SIZE
                <= u64::MAX
        }
    }

    /// A page that is being read goes into the cache: whether it got there, and if not, whether
    /// spilling may help.
    pub open spec fn cached_with(self, id: usize, page: PageView, after: SpillOutcome) -> (
        PagerView,
        Result<bool, LimboError>,
    ) {
        let (cache, r) = self.cache.inserted(id, page);
        let v = self.with_cache(cache);
        match r {
            Ok(()) => (v, Ok(true)),
            Err(CacheError::KeyExists) => (v, Ok(true)),
            Err(e) => match after {
                SpillOutcome::NotTried => (v, Ok(false)),
                SpillOutcome::Spilled => (v, Err(LimboError::CacheError(e))),
                SpillOutcome::Nothing => (v, Err(LimboError::Busy)),
            },
        }
    }

    /// A step of the reading of page `id`.
    pub open spec fn read_step(self, s: SharedView, id: usize, after: SpillOutcome) -> (
        PagerView,
        Result<ReadStep, LimboError>,
    ) {
        if self.cache.usable(id) {
            (
                self,
                Ok(
                    if self.page(id).loaded {
                        ReadStep::Ready
                    } else {
                        ReadStep::Loading
                    },
                ),
            )
        } else {
            let asked = self.with_cache(self.cache.asked(id));
            let (v, r) = asked.cached_with(id, self.expected_page(s, id as int, None), after);
            match r {
                Err(e) => (v, Err(e)),
                Ok(false) => (v, Ok(ReadStep::Spill)),
                Ok(true) => (v, Ok(ReadStep::Started(self.plan_for(s, id as int, None)))),
            }
        }
    }

    /// Page `id` after its bytes came, or did not.
    pub open spec fn page_read(
        self,
        s: SharedView,
        id: usize,
        plan: ReadPlan,
        res: Result<(Seq<u8>, usize), CompletionError>,
    ) -> (PageView, Result<(), CompletionError>) {
        let page = self.page(id);
        match (plan, res) {
            (ReadPlan::Frame { frame_id, offset }, Ok((buf, n))) => if n != buf.len() {
                (
                    PageView { locked: false, wal_tag: TAG_UNSET, ..page },
                    Err(
                        CompletionError::ShortReadWalFrame {
                            offset,
                            expected: buf.len() as usize,
                            actual: n,
                        },
                    ),
                )
            } else {
                (
                    PageView { locked: false, loaded: true, buffer: Some(buf), ..page }.tagged(
                        frame_id,
                        s.epoch,
                    ),
                    Ok(()),
                )
            },
            (ReadPlan::Frame { .. }, Err(e)) => (
                PageView { locked: false, wal_tag: TAG_UNSET, ..page },
                Err(e),
            ),
            (ReadPlan::Database, Ok((buf, _))) => (
                PageView {
                    locked: false,
                    loaded: true,
                    buffer: Some(buf),
                    wal_tag: TAG_UNSET,
                    ..page
                },
                Ok(()),
            ),
            (ReadPlan::Database, Err(e)) => (PageView { locked: false, ..page }, Err(e)),
        }
    }
}

impl Pager {
    /// Plans to read a page, whatever is in the cache. With `frame_watermark`, the page is read as
    /// it was at that frame.
    pub fn read_page_no_cache(
        &self,
        shared: &WalFileShared,
        page_idx: i64,
        frame_watermark: Option<u64>,
    ) -> (r: (Page, ReadPlan))
        requires
            0 <= page_idx <= usize::MAX,
            self@.can_read(shared@, page_idx as int, frame_watermark),
            match self@.wal {
                Some(wal) => frame_watermark matches Some(w) ==> shared@.nbackfills <= w
                    <= wal.max_frame,
                None => frame_watermark matches Some(w) ==> w == 0,
            },
        ensures
            r.0@ == self@.expected_page(shared@, page_idx as int, frame_watermark),
            r.1 == self@.plan_for(shared@, page_idx as int, frame_watermark),
    {
        let mut page = Page::new(page_idx);
        match &self.wal {
            None => {
                page.set_locked();
                (page, ReadPlan::Database)
            },
            Some(wal) => match wal.find_frame(shared, page_idx as u64, frame_watermark) {
                Ok(Some(frame_id)) => {
                    let offset: u64 = wal.read_frame(shared, frame_id, &mut page);
                    (page, ReadPlan::Frame { frame_id, offset })
                },
                _ => (page, ReadPlan::Database),
            },
        }
    }

    /// Puts a page that is being read in the cache. Says whether it is there now; if not, pages
    /// have to be spilled, and then this is tried again.
    fn cache_insert(&mut self, page_idx: usize, page: Page, after: SpillOutcome) -> (r: Result<
        bool,
        LimboError,
    >)
        requires
            old(self)@.wf(),
            page@.id == page_idx,
            !page@.loaded,
        ensures
            final(self)@.wf(),
            (final(self)@, r) == old(self)@.cached_with(page_idx, page@, after),
    {
        proof {
            lemma_inserted_wf(self@.cache, page_idx, page@);
        }
        match self.page_cache.insert(page_idx, page) {
            Ok(()) => Ok(true),
            Err(CacheError::KeyExists) => Ok(true),
            Err(e) => match after {
                SpillOutcome::NotTried => Ok(false),
                SpillOutcome::Spilled => Err(LimboError::CacheError(e)),
                SpillOutcome::Nothing => Err(LimboError::Busy),
            },
        }
    }

    /// Takes the next step of bringing a page into the cache. `after` says what was done since the
    /// last step found the cache full.
    pub fn read_page(&mut self, shared: &WalFileShared, page_idx: i64, after: SpillOutcome) -> (r:
        Result<ReadStep, LimboError>)
        requires
            old(self)@.wf(),
            0 <= page_idx <= usize::MAX,
            old(self)@.can_read(shared@, page_idx as int, None),
        ensures
            final(self)@.wf(),
            (final(self)@, r) == old(self)@.read_step(shared@, page_idx as usize, after),
    {
        let id: usize = page_idx as usize;
        let ghost before = self@;
        if let Some(page) = self.page_cache.get(id) {
            if page.is_loaded() {
                return Ok(ReadStep::Ready);
            }
            return Ok(ReadStep::Loading);
        }
        assert(self@ =~= before.with_cache(before.cache.asked(id)));
        assert(self@.cache.pages.dom().subset_of(before.cache.pages.dom()));
        let (page, plan) = self.read_page_no_cache(shared, page_idx, None);
        match self.cache_insert(id, page, after) {
            Err(e) => Err(e),
            Ok(false) => Ok(ReadStep::Spill),
            Ok(true) => Ok(ReadStep::Started(plan)),
        }
    }

    /// Ends the reading of a page with what came of it. If the page has left the cache meanwhile,
    /// nothing happens.
    pub fn complete_read_page(
        &mut self,
        shared: &WalFileShared,
        page_idx: usize,
        plan: ReadPlan,
        res: Result<(Vec<u8>, usize), CompletionError>,
    ) -> (r: Result<(), CompletionError>)
        requires
            old(self)@.wf(),
        ensures
            final(self)@.wf(),
            if old(self)@.cache.pages.contains_key(page_idx) {
                let (page, outcome) = old(self)@.page_read(
                    shared@,
                    page_idx,
                    plan,
                    came(res),
                );
                &&& r == outcome
                &&& final(self)@ == old(self)@.with_cached(page_idx, page)
            } else {
                &&& final(self)@ == old(self)@
                &&& r == Ok::<(), CompletionError>(())
            },
            old(self)@.cache.pages.contains_key(page_idx) ==> match res {
                Ok((buf, n)) => if plan is Database || n == buf@.len() {
                    &&& r is Ok
                    &&& final(self)@.has(page_idx)
                    &&& final(self)@.page(page_idx).data() == buf@
                } else {
                    r is Err
                },
                Err(e) => r == Err::<(), CompletionError>(e),
            },
    {
        let ghost before = self@;
        if !self.page_cache.contains_key(page_idx) {
            return Ok(());
        }
        let mut page = self.page_cache.take(page_idx);
        let r = match plan {
            ReadPlan::Frame { frame_id, offset } => {
                WalFile::complete_read_frame(shared, frame_id, offset, &mut page, res)
            },
            ReadPlan::Database => match res {
                Ok((buf, _)) => {
                    page.finish_read(buf);
                    Ok(())
                },
                Err(e) => {
                    page.clear_locked();
                    Err(e)
                },
            },
        };
        let ghost after = page@;
        self.page_cache.put(page_idx, page);
        assert(self@ =~= before.with_cached(page_idx, after));
        r
    }

    /// A page in the cache, if it is loaded or being loaded.
    pub fn cache_get(&mut self, page_idx: usize) -> (r: Option<&Page>)
        requires
            old(self)@.wf(),
        ensures
            final(self)@.wf(),
            final(self)@ == old(self)@.with_cache(old(self)@.cache.asked(page_idx)),
            match r {
                Some(p) => old(self)@.cache.usable(page_idx) && p@ == old(self)@.page(page_idx),
                None => !old(self)@.cache.usable(page_idx),
            },
    {
        let r = self.page_cache.get(page_idx);
        r
    }

    /// A page in the cache, if its bytes are those of the given frame.
    pub fn cache_get_for_checkpoint(&mut self, page_idx: usize, target_frame: u64, seq: u32) -> (r:
        Option<&Page>)
        requires
            old(self)@.wf(),
        ensures
            final(self)@.wf(),
            final(self)@ == old(self)@.with_cache(old(self)@.cache.asked(page_idx)),
            ({
                let valid = old(self)@.cache.usable(page_idx) && old(self)@.page(
                    page_idx,
                ).valid_for_checkpoint(target_frame, seq);
                match r {
                    Some(p) => valid && p@ == old(self)@.page(page_idx),
                    None => !valid,
                }
            }),
    {
        match self.page_cache.get(page_idx) {
            Some(page) => {
                if page.is_valid_for_checkpoint(target_frame, seq) {
                    Some(page)
                } else {
                    None
                }
            },
            None => None,
        }
    }
}

} // verus!
