//! Making room in a full cache by writing dirty pages ahead of their commit.
//!
//! A database with a log has them appended to it; one without has them written to its file. The
//! pages are pinned while that goes on, and one that is modified meanwhile stays as it is.

use vstd::prelude::*;
use crate::bytes::copy_range;
use crate::error::{CacheError, LimboError};
use crate::ondisk::{is_page_size, PageSize};
use crate::page::{tag_of, PageView, FRAME_MAX, TAG_UNSET, TAG_WRITE_PENDING};
use crate::page_cache::{evictable, is_spill_list, lemma_with_room, spillable, with_room, PageMap,
    SpillResult};
use crate::pager::{Pager, PagerView};
use crate::pager_state::{IOResult, IoOutcome, IoRequest, LogStart, SpillState};
use crate::wal::WalFile;
use crate::wal_append::{inputs, with_frames, FrameInput, FrameMeta, IOV_MAX};
use crate::wal_format::frame_position;
use crate::wal_shared::{SharedView, WalFileShared};

verus! {

/// The pages' numbers.
pub open spec fn ids(pages: Seq<FrameInput>) -> Seq<usize> {
    Seq::new(pages.len(), |i: int| pages[i].page_id as usize)
}

/// Whether a frame is known to hold the page as it is.
pub open spec fn has_tag(page: PageView) -> bool {
    page.wal_tag != TAG_UNSET && page.wal_tag != TAG_WRITE_PENDING
}

/// A page with one pin less, if it has any.
pub open spec fn unpinned(page: PageView) -> PageView {
    PageView {
        pin_count: if page.pin_count > 0 {
            (page.pin_count - 1) as usize
        } else {
            0
        },
        ..page
    }
}

/// A page that is being written: pinned, and with a mark that a modification takes away.
pub open spec fn being_written(page: PageView) -> PageView {
    PageView { wal_tag: TAG_WRITE_PENDING, pin_count: (page.pin_count + 1) as usize, ..page }
}

/// A page that was written to a frame: clean, unless it was modified meanwhile.
pub open spec fn written(page: PageView, frame: u64, epoch: u32) -> PageView {
    if page.wal_tag == TAG_UNSET {
        page
    } else {
        page.cleaned().tagged(frame, epoch)
    }
}

/// A page after its spill to a frame: it may leave the cache, unless it was modified meanwhile.
pub open spec fn spilled_to(page: PageView, frame: u64, epoch: u32) -> PageView {
    let p = written(page, frame, epoch);
    unpinned(PageView { spilled: p.spilled || has_tag(p), ..p })
}

/// A page after its spill to the database file: clean, unless it was modified meanwhile.
pub open spec fn spilled_to_file(page: PageView) -> PageView {
    unpinned(
        if page.wal_tag == TAG_UNSET {
            page
        } else {
            page.cleaned()
        },
    )
}

/// The pages after those of the list were marked as being written.
pub open spec fn all_being_written(pages: PageMap, list: Seq<usize>) -> PageMap
    decreases list.len(),
{
    if list.len() == 0 {
        pages
    } else {
        let before = all_being_written(pages, list.drop_last());
        let id = list.last();
        before.insert(id, being_written(before[id]))
    }
}

/// The pages after their spill to frames.
pub open spec fn all_spilled(pages: PageMap, frames: Seq<FrameMeta>, epoch: u32) -> PageMap
    decreases frames.len(),
{
    if frames.len() == 0 {
        pages
    } else {
        let before = all_spilled(pages, frames.drop_last(), epoch);
        let id = frames.last().page_id as usize;
        if before.contains_key(id) {
            before.insert(id, spilled_to(before[id], frames.last().frame_id, epoch))
        } else {
            before
        }
    }
}

/// The pages after their spill to the database file.
pub open spec fn all_spilled_to_file(pages: PageMap, list: Seq<usize>) -> PageMap
    decreases list.len(),
{
    if list.len() == 0 {
        pages
    } else {
        let before = all_spilled_to_file(pages, list.drop_last());
        let id = list.last();
        if before.contains_key(id) {
            before.insert(id, spilled_to_file(before[id]))
        } else {
            before
        }
    }
}

/// The page size that the log is written with: the pager's, or 4096 while it has none.
pub open spec fn log_page_size(page_size: u32) -> PageSize {
    if is_page_size(page_size as int) {
        PageSize::of(page_size as int)
    } else {
        PageSize(4096)
    }
}

impl PagerView {
    /// Whether the cache is full and pages may be spilled.
    pub open spec fn spill_due(self) -> bool {
        self.cache.spill_enabled && self.cache.pages.dom().len() >= self.cache.capacity
    }

    /// The same with other pages in the cache.
    pub open spec fn with_pages(self, pages: PageMap) -> PagerView {
        self.with_cache(self.cache.with_pages(pages))
    }

    /// The same with a spill elsewhere.
    pub open spec fn with_spill(self, state: SpillState) -> PagerView {
        PagerView { spill_state: state, ..self }
    }

    /// Frames for these pages can be appended to the log.
    pub open spec fn can_append(self, s: SharedView, encoded: Seq<FrameInput>) -> bool {
        self.wal matches Some(wal) ==> {
            let size = log_page_size(self.page_size);
            &&& s.header.page_size == size.bytes()
            &&& encoded.len() <= IOV_MAX
            &&& forall|i: int|
                0 <= i < encoded.len() ==> (#[trigger] encoded[i]).data@.len() == size.bytes()
            &&& wal.max_frame + 1 + encoded.len() <= u64::MAX
            &&& frame_position(wal.max_frame + 1, size.bytes()) <= u64::MAX
        }
    }

    /// What a step of a spill needs: `encoded` are the pages to be spilled, as they go to disk.
    pub open spec fn can_spill(self, s: SharedView, encoded: Seq<FrameInput>) -> bool {
        &&& self.wf()
        &&& match self.spill_state {
            SpillState::Idle => {
                &&& self.spill_due() ==> is_spill_list(ids(encoded), self.cache.pages, IOV_MAX)
                &&& s.initialized ==> self.can_append(s, encoded)
            },
            SpillState::SyncingHeader => {
                &&& self.spill_due() ==> is_spill_list(ids(encoded), self.cache.pages, IOV_MAX)
                &&& self.can_append(s, encoded)
            },
            _ => true,
        }
    }

    /// What a spill that is due begins with: the log's header, if it is not on disk, or else
    /// the pages.
    pub open spec fn spill_begun(
        self,
        s: SharedView,
        start: LogStart,
        encoded: Seq<FrameInput>,
        v: PagerView,
        t: SharedView,
        r: Result<IOResult<bool>, LimboError>,
    ) -> bool {
        let marked = self.with_pages(all_being_written(self.cache.pages, ids(encoded)));
        match self.wal {
            None => {
                &&& r matches Ok(IOResult::IO(IoRequest::WriteDbPages { pages }))
                &&& inputs(pages@) == inputs(encoded)
                &&& v.spill_state matches SpillState::WritingToDisk { pages: list }
                &&& list@ == ids(encoded)
                &&& v == marked.with_spill(v.spill_state)
                &&& t == s
            },
            Some(wal) => if !s.initialized {
                let header = start.header(s.header, log_page_size(self.page_size));
                &&& r matches Ok(IOResult::IO(IoRequest::WriteWalHeader { bytes }))
                &&& bytes@ == header.encoded()
                &&& t == (SharedView {
                    header,
                    last_checksum: (header.checksum_1, header.checksum_2),
                    ..s
                })
                &&& v == (PagerView {
                    wal: Some(
                        WalFile {
                            last_checksum: (header.checksum_1, header.checksum_2),
                            max_frame: 0,
                            ..wal
                        },
                    ),
                    spill_state: SpillState::WritingHeader,
                    ..self
                })
            } else {
                &&& r matches Ok(IOResult::IO(IoRequest::WriteFrames { frames }))
                &&& frames.is_batch_of(s, inputs(encoded), 0, wal.last_checksum, wal.max_frame + 1)
                &&& t == (SharedView { frames: with_frames(s.frames, frames.metadata@), ..s })
                &&& v.spill_state matches SpillState::WritingToWal { frames: list, epoch }
                &&& list@ == frames.metadata@
                &&& epoch == frames.epoch
                &&& v == (PagerView {
                    wal: Some(
                        WalFile {
                            last_checksum: frames.final_checksum,
                            max_frame: frames.final_max_frame,
                            ..wal
                        },
                    ),
                    ..marked.with_spill(v.spill_state)
                })
            },
        }
    }

    /// What a spill begins with, if it is due and there are pages for it.
    pub open spec fn spill_started(
        self,
        s: SharedView,
        start: LogStart,
        encoded: Seq<FrameInput>,
        v: PagerView,
        t: SharedView,
        r: Result<IOResult<bool>, LimboError>,
    ) -> bool {
        if !self.spill_due() || encoded.len() == 0 {
            &&& r == Ok::<IOResult<bool>, LimboError>(IOResult::Done(false))
            &&& v == self
            &&& t == s
        } else {
            self.spill_begun(s, start, encoded, v, t, r)
        }
    }

    /// A step of a spill: from this pager and the log `s` to the pager `v` and the log `t`.
    pub open spec fn spill_step(
        self,
        s: SharedView,
        start: LogStart,
        encoded: Seq<FrameInput>,
        outcome: IoOutcome,
        v: PagerView,
        t: SharedView,
        r: Result<IOResult<bool>, LimboError>,
    ) -> bool {
        let idle = self.with_spill(SpillState::Idle);
        match self.spill_state {
            SpillState::Idle => self.spill_started(s, start, encoded, v, t, r),
            SpillState::WritingHeader => {
                &&& t == s
                &&& match outcome {
                    IoOutcome::Pending => r == waiting() && v == self,
                    IoOutcome::Failed(e) => r == Err::<IOResult<bool>, LimboError>(
                        LimboError::CompletionError(e),
                    ) && v == idle,
                    IoOutcome::Succeeded => r == Ok::<IOResult<bool>, LimboError>(
                        IOResult::IO(IoRequest::SyncWal),
                    ) && v == self.with_spill(SpillState::SyncingHeader),
                }
            },
            SpillState::SyncingHeader => match outcome {
                IoOutcome::Pending => r == waiting() && v == self && t == s,
                IoOutcome::Failed(e) => {
                    &&& r == Err::<IOResult<bool>, LimboError>(LimboError::CompletionError(e))
                    &&& v == idle
                    &&& t == (SharedView { initialized: true, ..s })
                },
                IoOutcome::Succeeded => idle.spill_started(
                    SharedView { initialized: true, ..s },
                    start,
                    encoded,
                    v,
                    t,
                    r,
                ),
            },
            SpillState::WritingToWal { frames, epoch } => {
                &&& t == s
                &&& match outcome {
                    IoOutcome::Pending => r == waiting() && v == self,
                    IoOutcome::Failed(e) => r == Err::<IOResult<bool>, LimboError>(
                        LimboError::CompletionError(e),
                    ) && v == self,
                    IoOutcome::Succeeded => {
                        &&& r == Ok::<IOResult<bool>, LimboError>(IOResult::Done(true))
                        &&& v == idle.with_pages(all_spilled(self.cache.pages, frames@, epoch))
                    },
                }
            },
            SpillState::WritingToDisk { pages } => {
                &&& t == s
                &&& match outcome {
                    IoOutcome::Pending => r == waiting() && v == self,
                    IoOutcome::Failed(e) => r == Err::<IOResult<bool>, LimboError>(
                        LimboError::CompletionError(e),
                    ) && v == self,
                    IoOutcome::Succeeded => {
                        &&& r == Ok::<IOResult<bool>, LimboError>(IOResult::Done(true))
                        &&& v == idle.with_pages(all_spilled_to_file(self.cache.pages, pages@))
                    },
                }
            },
        }
    }
}

/// Nothing can be done before the last request is over.
pub open spec fn waiting() -> Result<IOResult<bool>, LimboError> {
    Ok(IOResult::IO(IoRequest::Yield))
}

impl Pager {
    /// The page size that the log is written with.
    pub(crate) fn page_size_or_default(&self) -> (r: PageSize)
        ensures
            r == log_page_size(self@.page_size),
            r.valid(),
    {
        match self.get_page_size() {
            Some(size) => size,
            None => PageSize::default(),
        }
    }

    /// The pages that a spill is going to write, in order; none if no spill is due.
    pub fn spill_input(&self) -> (r: Vec<FrameInput>)
        requires
            self@.wf(),
            forall|k: usize| #[trigger]
                self@.cache.pages.contains_key(k) && spillable(self@.cache.pages[k]) ==> k
                    <= u32::MAX,
        ensures
            !self@.spill_due() ==> r@.len() == 0,
            self@.spill_due() ==> is_spill_list(ids(r@), self@.cache.pages, IOV_MAX),
            forall|i: int|
                #![trigger r@[i]]
                0 <= i < r@.len() ==> r@[i].data@ == self@.page(r@[i].page_id as usize).data(),
    {
        let mut r: Vec<FrameInput> = Vec::new();
        match self.page_cache.check_spill(IOV_MAX) {
            SpillResult::PagesToSpill(list) => {
                let mut i: usize = 0;
                while i < list.len()
                    invariant
                        i <= list@.len(),
                        self@.wf(),
                        is_spill_list(list@, self@.cache.pages, IOV_MAX),
                        forall|k: usize| #[trigger]
                            self@.cache.pages.contains_key(k) && spillable(self@.cache.pages[k])
                                ==> k <= u32::MAX,
                        ids(r@) == list@.take(i as int),
                        forall|j: int|
                            #![trigger r@[j]]
                            0 <= j < r@.len() ==> r@[j].data@ == self@.page(
                                r@[j].page_id as usize,
                            ).data(),
                    decreases list@.len() - i,
                {
                    let id: usize = list[i];
                    assert(self@.cache.pages.contains_key(list@[i as int]));
                    let page = self.page_cache.peek(id).unwrap();
                    let bytes = page.inner.as_slice();
                    let data = copy_range(bytes, 0, bytes.len());
                    assert(data@ =~= self@.page(id).data());
                    let ghost so_far = r@;
                    r.push(FrameInput { page_id: id as u32, data });
                    assert(ids(r@) =~= ids(so_far).push(id));
                    assert(list@.take(i + 1) =~= list@.take(i as int).push(id));
                    i = i + 1;
                }
                assert(list@.take(list@.len() as int) =~= list@);
            },
            SpillResult::CacheFull => {
                assert(ids(r@) =~= Seq::empty());
            },
            _ => {},
        }
        r
    }

    /// Takes the next step of spilling pages; at the end, says whether any were. `encoded` are the
    /// pages that `spill_input` gave, as they go to disk; `outcome` is what came of the last
    /// request.
    pub fn try_spill_dirty_pages(
        &mut self,
        shared: &mut WalFileShared,
        start: LogStart,
        encoded: &Vec<FrameInput>,
        outcome: IoOutcome,
    ) -> (r: Result<IOResult<bool>, LimboError>)
        requires
            old(self)@.can_spill(old(shared)@, encoded@),
        ensures
            final(self)@.wf(),
            old(self)@.spill_step(
                old(shared)@,
                start,
                encoded@,
                outcome,
                final(self)@,
                final(shared)@,
                r,
            ),
    {
        let ghost before = self@;
        let idle = match &self.spill_state {
            SpillState::Idle => true,
            _ => false,
        };
        if idle {
            return self.spill_start(shared, start, encoded);
        }
        match outcome {
            IoOutcome::Pending => {
                return Ok(IOResult::IO(IoRequest::Yield));
            },
            IoOutcome::Failed(e) => {
                match &self.spill_state {
                    SpillState::WritingHeader => {
                        self.spill_state = SpillState::Idle;
                    },
                    SpillState::SyncingHeader => {
                        let ghost s = shared@;
                        shared.initialized = true;
                        assert(shared@.slots =~= s.slots);
                        self.spill_state = SpillState::Idle;
                    },
                    _ => {},
                }
                return Err(LimboError::CompletionError(e));
            },
            IoOutcome::Succeeded => {},
        }
        let mut state = SpillState::Idle;
        std::mem::swap(&mut state, &mut self.spill_state);
        match state {
            SpillState::Idle => Ok(IOResult::Done(false)),
            SpillState::WritingHeader => {
                self.spill_state = SpillState::SyncingHeader;
                Ok(IOResult::IO(IoRequest::SyncWal))
            },
            SpillState::SyncingHeader => {
                let ghost s = shared@;
                shared.initialized = true;
                assert(shared@.slots =~= s.slots);
                assert(self@ =~= before.with_spill(SpillState::Idle));
                self.spill_start(shared, start, encoded)
            },
            SpillState::WritingToWal { frames, epoch } => {
                self.mark_spilled(&frames, epoch);
                Ok(IOResult::Done(true))
            },
            SpillState::WritingToDisk { pages } => {
                self.finish_ephemeral_spill(&pages);
                Ok(IOResult::Done(true))
            },
        }
    }

    /// Begins a spill, if one is due.
    fn spill_start(
        &mut self,
        shared: &mut WalFileShared,
        start: LogStart,
        encoded: &Vec<FrameInput>,
    ) -> (r: Result<IOResult<bool>, LimboError>)
        requires
            old(self)@.wf(),
            old(self)@.spill_state is Idle,
            old(self)@.spill_due() ==> is_spill_list(
                ids(encoded@),
                old(self)@.cache.pages,
                IOV_MAX,
            ),
            old(shared)@.initialized ==> old(self)@.can_append(old(shared)@, encoded@),
        ensures
            final(self)@.wf(),
            old(self)@.spill_started(
                old(shared)@,
                start,
                encoded@,
                final(self)@,
                final(shared)@,
                r,
            ),
    {
        let ghost before = self@;
        if !self.page_cache.needs_spill() || encoded.len() == 0 {
            return Ok(IOResult::Done(false));
        }
        let page_sz = self.page_size_or_default();
        if self.wal.is_none() {
            self.mark_being_written(encoded);
            let list = id_list(encoded);
            let pages = copied(encoded);
            self.spill_state = SpillState::WritingToDisk { pages: list };
            return Ok(IOResult::IO(IoRequest::WriteDbPages { pages }));
        }
        let mut wal = self.wal.take().unwrap();
        assert(self@ =~= (PagerView { wal: None, ..before }));
        let header = wal.prepare_wal_start(
            shared,
            page_sz,
            start.big_endian,
            (start.salt_1, start.salt_2),
        );
        match header {
            Some(bytes) => {
                self.wal = Some(wal);
                self.spill_state = SpillState::WritingHeader;
                Ok(IOResult::IO(IoRequest::WriteWalHeader { bytes }))
            },
            None => {
                self.mark_being_written(encoded);
                let frames = wal.append_frames_vectored(shared, encoded, page_sz);
                self.wal = Some(wal);
                self.spill_state = SpillState::WritingToWal {
                    frames: meta_copied(&frames.metadata),
                    epoch: frames.epoch,
                };
                Ok(IOResult::IO(IoRequest::WriteFrames { frames }))
            },
        }
    }

    /// Pins the pages and marks them as being written.
    fn mark_being_written(&mut self, encoded: &Vec<FrameInput>)
        requires
            old(self)@.wf(),
            is_spill_list(ids(encoded@), old(self)@.cache.pages, IOV_MAX),
        ensures
            final(self)@.wf(),
            final(self)@ == old(self)@.with_pages(
                all_being_written(old(self)@.cache.pages, ids(encoded@)),
            ),
    {
        let ghost before = self@;
        let ghost list = ids(encoded@);
        let mut i: usize = 0;
        assert(list.take(0) =~= Seq::empty());
        assert(self@ =~= before.with_pages(before.cache.pages));
        while i < encoded.len()
            invariant
                i <= encoded@.len(),
                list == ids(encoded@),
                before.wf(),
                self@.wf(),
                is_spill_list(list, before.cache.pages, IOV_MAX),
                self@ == before.with_pages(
                    all_being_written(before.cache.pages, list.take(i as int)),
                ),
                forall|j: int|
                    i <= j < list.len() ==> self@.cache.pages.contains_key(#[trigger] list[j])
                        && self@.cache.pages[list[j]] == before.cache.pages[list[j]],
            decreases encoded@.len() - i,
        {
            let id: usize = encoded[i].page_id as usize;
            assert(list[i as int] == id);
            assert(spillable(before.cache.pages[list[i as int]]));
            let ghost pages = self@.cache.pages;
            let mut page = self.page_cache.take(id);
            page.set_write_pending();
            page.pin();
            self.page_cache.put(id, page);
            proof {
                assert(list.take(i + 1).drop_last() =~= list.take(i as int));
                assert(self@.cache.pages =~= pages.insert(id, being_written(pages[id])));
                assert forall|j: int| i + 1 <= j < list.len() implies self@.cache.pages.contains_key(
                    #[trigger] list[j],
                ) && self@.cache.pages[list[j]] == before.cache.pages[list[j]] by {
                    assert(list[i as int] < list[j]);
                }
            }
            i = i + 1;
        }
        assert(list.take(list.len() as int) =~= list);
    }

    /// Notes that the pages are in the log, so that they may leave the cache.
    fn mark_spilled(&mut self, frames: &Vec<FrameMeta>, epoch: u32)
        requires
            old(self)@.wf(),
        ensures
            final(self)@.wf(),
            final(self)@ == old(self)@.with_pages(
                all_spilled(old(self)@.cache.pages, frames@, epoch),
            ),
    {
        let ghost before = self@;
        let mut i: usize = 0;
        assert(frames@.take(0) =~= Seq::empty());
        assert(self@ =~= before.with_pages(before.cache.pages));
        while i < frames.len()
            invariant
                i <= frames@.len(),
                self@.wf(),
                self@ == before.with_pages(
                    all_spilled(before.cache.pages, frames@.take(i as int), epoch),
                ),
            decreases frames@.len() - i,
        {
            let m = frames[i];
            let id: usize = m.page_id as usize;
            let ghost pages = self@.cache.pages;
            assert(frames@.take(i + 1).drop_last() =~= frames@.take(i as int));
            if self.page_cache.contains_key(id) {
                let mut page = self.page_cache.take(id);
                if page.inner.wal_tag != TAG_UNSET {
                    page.clear_dirty();
                    page.set_wal_tag(m.frame_id, epoch);
                }
                if page.has_wal_tag() {
                    page.set_spilled();
                }
                let _was_pinned = page.try_unpin();
                assert(page@ == spilled_to(pages[id], m.frame_id, epoch));
                self.page_cache.put(id, page);
                assert(self@.cache.pages =~= pages.insert(
                    id,
                    spilled_to(pages[id], m.frame_id, epoch),
                ));
            }
            i = i + 1;
        }
        assert(frames@.take(frames@.len() as int) =~= frames@);
    }

    /// Notes that the pages are in the file of a database without a log.
    fn finish_ephemeral_spill(&mut self, list: &Vec<usize>)
        requires
            old(self)@.wf(),
        ensures
            final(self)@.wf(),
            final(self)@ == old(self)@.with_pages(
                all_spilled_to_file(old(self)@.cache.pages, list@),
            ),
    {
        let ghost before = self@;
        let mut i: usize = 0;
        assert(list@.take(0) =~= Seq::empty());
        assert(self@ =~= before.with_pages(before.cache.pages));
        while i < list.len()
            invariant
                i <= list@.len(),
                self@.wf(),
                self@ == before.with_pages(
                    all_spilled_to_file(before.cache.pages, list@.take(i as int)),
                ),
            decreases list@.len() - i,
        {
            let id: usize = list[i];
            let ghost pages = self@.cache.pages;
            assert(list@.take(i + 1).drop_last() =~= list@.take(i as int));
            if self.page_cache.contains_key(id) {
                let mut page = self.page_cache.take(id);
                if page.inner.wal_tag != TAG_UNSET {
                    page.clear_dirty();
                }
                let _was_pinned = page.try_unpin();
                self.page_cache.put(id, page);
                assert(self@.cache.pages =~= pages.insert(id, spilled_to_file(pages[id])));
            }
            i = i + 1;
        }
        assert(list@.take(list@.len() as int) =~= list@);
    }

    /// Takes the next step of ending a spill that is under way, if one is.
    pub fn wait_for_spill_completions(
        &mut self,
        shared: &mut WalFileShared,
        start: LogStart,
        encoded: &Vec<FrameInput>,
        outcome: IoOutcome,
    ) -> (r: Result<IOResult<()>, LimboError>)
        requires
            old(self)@.can_spill(old(shared)@, encoded@),
        ensures
            final(self)@.wf(),
            old(self)@.spill_state is Idle ==> {
                &&& r == Ok::<IOResult<()>, LimboError>(IOResult::Done(()))
                &&& final(self)@ == old(self)@
                &&& final(shared)@ == old(shared)@
            },
            !(old(self)@.spill_state is Idle) ==> exists|q: Result<IOResult<bool>, LimboError>|
                {
                    &&& #[trigger] old(self)@.spill_step(
                        old(shared)@,
                        start,
                        encoded@,
                        outcome,
                        final(self)@,
                        final(shared)@,
                        q,
                    )
                    &&& match q {
                        Err(e) => r == Err::<IOResult<()>, LimboError>(e),
                        Ok(IOResult::IO(io)) => r == Ok::<IOResult<()>, LimboError>(
                            IOResult::IO(io),
                        ),
                        Ok(IOResult::Done(_)) => r == Ok::<IOResult<()>, LimboError>(
                            IOResult::Done(()),
                        ),
                    }
                },
            r matches Ok(IOResult::Done(_)) ==> final(self)@.spill_state is Idle,
    {
        let idle = match &self.spill_state {
            SpillState::Idle => true,
            _ => false,
        };
        if idle {
            return Ok(IOResult::Done(()));
        }
        let q = self.try_spill_dirty_pages(shared, start, encoded, outcome);
        match q {
            Err(e) => Err(e),
            Ok(IOResult::IO(io)) => Ok(IOResult::IO(io)),
            Ok(IOResult::Done(_)) => Ok(IOResult::Done(())),
        }
    }

    /// Takes the next step of making room for one more page, if the cache is full and pages may be
    /// spilled.
    pub fn ensure_cache_space(
        &mut self,
        shared: &mut WalFileShared,
        start: LogStart,
        encoded: &Vec<FrameInput>,
        outcome: IoOutcome,
    ) -> (r: Result<IOResult<()>, LimboError>)
        requires
            old(self)@.can_spill(old(shared)@, encoded@),
        ensures
            final(self)@.wf(),
            !old(self)@.spill_due() ==> {
                &&& r == Ok::<IOResult<()>, LimboError>(IOResult::Done(()))
                &&& final(self)@ == old(self)@
                &&& final(shared)@ == old(shared)@
            },
            old(self)@.spill_due() ==> exists|v: PagerView, q: Result<IOResult<bool>, LimboError>|
                {
                    &&& #[trigger] old(self)@.spill_step(
                        old(shared)@,
                        start,
                        encoded@,
                        outcome,
                        v,
                        final(shared)@,
                        q,
                    )
                    &&& match q {
                        Err(e) => r == Err::<IOResult<()>, LimboError>(e) && final(self)@ == v,
                        Ok(IOResult::IO(io)) => r == Ok::<IOResult<()>, LimboError>(
                            IOResult::IO(io),
                        ) && final(self)@ == v,
                        Ok(IOResult::Done(false)) => r == Ok::<IOResult<()>, LimboError>(
                            IOResult::Done(()),
                        ) && final(self)@ == v,
                        Ok(IOResult::Done(true)) => {
                            let (pages, ok) = with_room(v.cache.pages, v.cache.capacity, 1);
                            &&& final(self)@ == v.with_pages(pages)
                            &&& r == (if ok {
                                Ok::<IOResult<()>, LimboError>(IOResult::Done(()))
                            } else {
                                Err::<IOResult<()>, LimboError>(
                                    LimboError::CacheError(CacheError::Full),
                                )
                            })
                        },
                    }
                },
    {
        if !self.page_cache.needs_spill() {
            return Ok(IOResult::Done(()));
        }
        let q = self.try_spill_dirty_pages(shared, start, encoded, outcome);
        let ghost v = self@;
        match q {
            Err(e) => Err(e),
            Ok(IOResult::IO(io)) => Ok(IOResult::IO(io)),
            Ok(IOResult::Done(spilled)) => {
                if spilled {
                    proof {
                        lemma_with_room(v.cache.pages, v.cache.capacity, 1);
                    }
                    if self.page_cache.make_room_for(1).is_err() {
                        assert(self@ =~= v.with_pages(
                            with_room(v.cache.pages, v.cache.capacity, 1).0,
                        ));
                        return Err(LimboError::CacheError(CacheError::Full));
                    }
                    assert(self@ =~= v.with_pages(
                        with_room(v.cache.pages, v.cache.capacity, 1).0,
                    ));
                }
                Ok(IOResult::Done(()))
            },
        }
    }
}

/// The pages' numbers.
fn id_list(encoded: &Vec<FrameInput>) -> (r: Vec<usize>)
    ensures
        r@ == ids(encoded@),
{
    let mut r: Vec<usize> = Vec::new();
    let mut i: usize = 0;
    while i < encoded.len()
        invariant
            i <= encoded@.len(),
            r@ == ids(encoded@).take(i as int),
        decreases encoded@.len() - i,
    {
        r.push(encoded[i].page_id as usize);
        assert(r@ =~= ids(encoded@).take(i + 1));
        i = i + 1;
    }
    assert(ids(encoded@).take(encoded@.len() as int) =~= ids(encoded@));
    r
}

/// The same pages again.
pub(crate) fn copied(encoded: &Vec<FrameInput>) -> (r: Vec<FrameInput>)
    ensures
        inputs(r@) == inputs(encoded@),
{
    let mut r: Vec<FrameInput> = Vec::new();
    let mut i: usize = 0;
    while i < encoded.len()
        invariant
            i <= encoded@.len(),
            inputs(r@) == inputs(encoded@).take(i as int),
        decreases encoded@.len() - i,
    {
        let bytes = encoded[i].data.as_slice();
        let data = copy_range(bytes, 0, bytes.len());
        assert(data@ =~= encoded@[i as int].data@);
        let ghost so_far = r@;
        r.push(FrameInput { page_id: encoded[i].page_id, data });
        assert(inputs(r@) =~= inputs(so_far).push(encoded@[i as int]@));
        assert(inputs(r@) =~= inputs(encoded@).take(i + 1));
        i = i + 1;
    }
    assert(inputs(encoded@).take(encoded@.len() as int) =~= inputs(encoded@));
    r
}

/// The same list again.
fn meta_copied(list: &Vec<FrameMeta>) -> (r: Vec<FrameMeta>)
    ensures
        r@ == list@,
{
    let mut r: Vec<FrameMeta> = Vec::new();
    let mut i: usize = 0;
    while i < list.len()
        invariant
            i <= list@.len(),
            r@ == list@.take(i as int),
        decreases list@.len() - i,
    {
        r.push(list[i]);
        assert(r@ =~= list@.take(i + 1));
        i = i + 1;
    }
    assert(list@.take(list@.len() as int) =~= list@);
    r
}

/// A page that is modified while it is being spilled is not taken for spilled: it stays dirty, no
/// frame is taken for it, and it may not leave the cache. One that is not modified may
/// leave it, if its frame's number fits a tag.
pub proof fn law_spill_respects_modifications(page: PageView, frame: u64, epoch: u32)
    requires
        spillable(page),
        tag_of(frame, epoch) < TAG_WRITE_PENDING,
        frame <= FRAME_MAX,
    ensures
        ({
            let modified = spilled_to(being_written(page).dirtied(), frame, epoch);
            let kept = spilled_to(being_written(page), frame, epoch);
            &&& modified.dirty
            &&& !modified.spilled
            &&& !has_tag(modified)
            &&& !evictable(modified)
            &&& kept.spilled
            &&& kept.data() == page.data()
            &&& evictable(kept)
            &&& !evictable(being_written(page))
        }),
{
}

} // verus!
