//! Flushing the dirty pages to the log, without a commit.

use vstd::prelude::*;
use crate::bitmap::is_listing;
use crate::bytes::copy_range;
use crate::error::{InternalFault, LimboError};
use crate::page::{PageView, TAG_UNSET, TAG_WRITE_PENDING};
use crate::page_cache::PageMap;
use crate::pager::{Pager, PagerView};
use crate::pager_state::{CacheFlushState, CollectingState, IoOutcome, IoRequest, LogStart};
use crate::read::ReadPlan;
use crate::spill::{log_page_size, written};
use crate::wal::WalFile;
use crate::wal_append::{inputs, with_frames, FrameInput, FrameMeta, PreparedFrames, IOV_MAX};
use crate::wal_format::frame_position;
use crate::wal_shared::{SharedView, WalFileShared};

verus! {

/// Where a step leaves a flush.
#[derive(Debug)]
pub enum CacheFlushStep {
    /// The next step can follow at once.
    Continue,
    /// Something has to be done outside first.
    Io(IoRequest),
    /// A page that has left the cache is to be read.
    Read { page_id: usize, plan: ReadPlan },
    /// The frames are to be written, and once they are, reported by `frames_written`.
    Write(PreparedFrames),
    /// All pages are on their way to the log.
    Done,
}

/// The pages after those of the list that are in the cache were marked as being written.
pub open spec fn all_pending(pages: PageMap, list: Seq<(u32, Seq<u8>)>) -> PageMap
    decreases list.len(),
{
    if list.len() == 0 {
        pages
    } else {
        let before = all_pending(pages, list.drop_last());
        let (page_id, _) = list.last();
        let id = page_id as usize;
        if before.contains_key(id) {
            before.insert(id, PageView { wal_tag: TAG_WRITE_PENDING, ..before[id] })
        } else {
            before
        }
    }
}

/// The pages after they were written to frames.
pub open spec fn all_written(pages: PageMap, frames: Seq<FrameMeta>, epoch: u32) -> PageMap
    decreases frames.len(),
{
    if frames.len() == 0 {
        pages
    } else {
        let before = all_written(pages, frames.drop_last(), epoch);
        let id = frames.last().page_id as usize;
        if before.contains_key(id) {
            before.insert(id, written(before[id], frames.last().frame_id, epoch))
        } else {
            before
        }
    }
}

impl CollectingState {
    /// The pages that are gathered, of those to be flushed.
    pub open spec fn is(&self, ids: Seq<u32>, idx: int, pages: Seq<(u32, Seq<u8>)>) -> bool {
        &&& self.dirty_ids@ == ids
        &&& self.current_idx == idx
        &&& inputs(self.collected_pages@) == pages
    }

    /// As many pages are gathered as one append takes, and no more than were looked at.
    pub open spec fn wf(&self) -> bool {
        &&& self.current_idx <= self.dirty_ids@.len()
        &&& self.collected_pages@.len() < IOV_MAX
    }
}

/// Whether the pages that are gathered are to be appended: as many as one append takes, or the
/// last ones.
pub open spec fn batch_full(ids: Seq<u32>, idx: int, pages: Seq<(u32, Seq<u8>)>) -> bool {
    pages.len() > 0 && (pages.len() == IOV_MAX || idx >= ids.len())
}

impl PagerView {
    /// The same with a flush elsewhere.
    pub open spec fn with_flush(self, state: CacheFlushState) -> PagerView {
        PagerView { cacheflush_state: state, ..self }
    }

    /// The pages that are gathered can be appended, together with one more of `len` bytes.
    pub open spec fn can_flush_more(self, s: SharedView, state: CollectingState, len: nat) -> bool {
        let size = log_page_size(self.page_size);
        &&& state.wf()
        &&& s.initialized
        &&& s.header.page_size == size.bytes()
        &&& len == size.bytes()
        &&& forall|i: int|
            0 <= i < state.collected_pages@.len() ==> (#[trigger] state.collected_pages@[i]).data@.len()
                == size.bytes()
        &&& self.wal->0.max_frame + 2 + state.collected_pages@.len() <= u64::MAX
        &&& frame_position(self.wal->0.max_frame + 1, size.bytes()) <= u64::MAX
    }

    /// What a step of a flush needs. While pages are gathered, `encoded` are the bytes of the
    /// next one as they go to disk, if it is in the cache or was read.
    pub open spec fn can_flush(self, s: SharedView, encoded: Seq<u8>, outcome: IoOutcome) -> bool {
        &&& self.wf()
        &&& self.wal is Some ==> match self.cacheflush_state {
            CacheFlushState::Collecting(state) => {
                &&& state.wf()
                &&& state.current_idx < state.dirty_ids@.len() ==> {
                    let id = state.dirty_ids@[state.current_idx as int] as usize;
                    if self.cache.usable(id) {
                        self.has(id) && self.can_flush_more(s, state, encoded.len())
                    } else {
                        self.can_read(s, id as int, None)
                    }
                }
            },
            CacheFlushState::WaitingForRead { state, page_id } => {
                &&& state.current_idx < state.dirty_ids@.len()
                &&& page_id <= u32::MAX
                &&& outcome is Succeeded ==> self.can_flush_more(s, state, encoded.len())
            },
            _ => true,
        }
    }

    /// A page was gathered: all of them are appended, if it is time.
    pub open spec fn flush_gathered(
        self,
        s: SharedView,
        ids: Seq<u32>,
        idx: int,
        pages: Seq<(u32, Seq<u8>)>,
        v: PagerView,
        t: SharedView,
        r: Result<CacheFlushStep, LimboError>,
    ) -> bool {
        let wal = self.wal->0;
        &&& v.cacheflush_state matches CacheFlushState::Collecting(state)
        &&& if batch_full(ids, idx, pages) {
            &&& r matches Ok(CacheFlushStep::Write(frames))
            &&& frames.is_batch_of(s, pages, 0, wal.last_checksum, wal.max_frame + 1)
            &&& t == (SharedView { frames: with_frames(s.frames, frames.metadata@), ..s })
            &&& state.is(ids, idx, Seq::empty())
            &&& v == (PagerView {
                wal: Some(
                    WalFile {
                        last_checksum: frames.final_checksum,
                        max_frame: frames.final_max_frame,
                        ..wal
                    },
                ),
                ..self.with_pages(all_pending(self.cache.pages, pages)).with_flush(
                    v.cacheflush_state,
                )
            })
        } else {
            &&& r matches Ok(CacheFlushStep::Continue)
            &&& t == s
            &&& state.is(ids, idx, pages)
            &&& v == self.with_flush(v.cacheflush_state)
        }
    }

    /// The first step of a flush.
    pub open spec fn flush_begun(
        self,
        s: SharedView,
        start: LogStart,
        v: PagerView,
        t: SharedView,
        r: Result<CacheFlushStep, LimboError>,
    ) -> bool {
        let wal = self.wal->0;
        if self.dirty.is_empty() {
            &&& r == Ok::<CacheFlushStep, LimboError>(CacheFlushStep::Done)
            &&& v == self
            &&& t == s
        } else if !s.initialized {
            let header = start.header(s.header, log_page_size(self.page_size));
            &&& r matches Ok(CacheFlushStep::Io(IoRequest::WriteWalHeader { bytes }))
            &&& bytes@ == header.encoded()
            &&& t == (SharedView {
                header,
                last_checksum: (header.checksum_1, header.checksum_2),
                ..s
            })
            &&& v.cacheflush_state matches CacheFlushState::WalPrepareStart { dirty_ids }
            &&& is_listing(dirty_ids@, self.dirty)
            &&& v == (PagerView {
                wal: Some(
                    WalFile {
                        last_checksum: (header.checksum_1, header.checksum_2),
                        max_frame: 0,
                        ..wal
                    },
                ),
                ..self.with_flush(v.cacheflush_state)
            })
        } else {
            &&& r == Ok::<CacheFlushStep, LimboError>(CacheFlushStep::Io(IoRequest::SyncWal))
            &&& t == s
            &&& v.cacheflush_state matches CacheFlushState::WalPrepareFinish { dirty_ids }
            &&& is_listing(dirty_ids@, self.dirty)
            &&& v == self.with_flush(v.cacheflush_state)
        }
    }

    /// A step of a flush: from this pager and the log `s` to the pager `v` and the log `t`.
    pub open spec fn flush_step(
        self,
        s: SharedView,
        start: LogStart,
        encoded: Seq<u8>,
        outcome: IoOutcome,
        v: PagerView,
        t: SharedView,
        r: Result<CacheFlushStep, LimboError>,
    ) -> bool {
        match self.cacheflush_state {
            CacheFlushState::Init => self.flush_begun(s, start, v, t, r),
            CacheFlushState::WalPrepareStart { dirty_ids } => {
                &&& t == s
                &&& match outcome {
                    IoOutcome::Pending => r == flush_waiting() && v == self,
                    IoOutcome::Failed(e) => r == Err::<CacheFlushStep, LimboError>(
                        LimboError::CompletionError(e),
                    ) && v == self,
                    IoOutcome::Succeeded => {
                        &&& r == Ok::<CacheFlushStep, LimboError>(
                            CacheFlushStep::Io(IoRequest::SyncWal),
                        )
                        &&& v == self.with_flush(CacheFlushState::WalPrepareFinish { dirty_ids })
                    },
                }
            },
            CacheFlushState::WalPrepareFinish { dirty_ids } => match outcome {
                IoOutcome::Pending => r == flush_waiting() && v == self && t == s,
                IoOutcome::Failed(e) => {
                    &&& r == Err::<CacheFlushStep, LimboError>(LimboError::CompletionError(e))
                    &&& v == self
                    &&& t == (SharedView { initialized: true, ..s })
                },
                IoOutcome::Succeeded => {
                    &&& r == Ok::<CacheFlushStep, LimboError>(CacheFlushStep::Continue)
                    &&& t == (SharedView { initialized: true, ..s })
                    &&& v.cacheflush_state matches CacheFlushState::Collecting(state)
                    &&& state.is(dirty_ids@, 0, Seq::empty())
                    &&& v == self.with_flush(v.cacheflush_state)
                },
            },
            CacheFlushState::Collecting(state) => {
                let idx = state.current_idx as int;
                let ids = state.dirty_ids@;
                if idx >= ids.len() {
                    &&& r == Ok::<CacheFlushStep, LimboError>(CacheFlushStep::Done)
                    &&& v == self.with_flush(CacheFlushState::Init)
                    &&& t == s
                } else {
                    let id = ids[idx] as usize;
                    let asked = self.with_cache(self.cache.asked(id));
                    if self.cache.usable(id) {
                        self.flush_gathered(
                            s,
                            ids,
                            idx + 1,
                            inputs(state.collected_pages@).push((ids[idx], encoded)),
                            v,
                            t,
                            r,
                        )
                    } else {
                        &&& r == Ok::<CacheFlushStep, LimboError>(
                            CacheFlushStep::Read {
                                page_id: id,
                                plan: self.plan_for(s, id as int, None),
                            },
                        )
                        &&& v == asked.with_flush(
                            CacheFlushState::WaitingForRead { state, page_id: id },
                        )
                        &&& t == s
                    }
                }
            },
            CacheFlushState::WaitingForRead { state, page_id } => match outcome {
                IoOutcome::Pending => r == flush_waiting() && v == self && t == s,
                IoOutcome::Failed(e) => {
                    &&& r == Err::<CacheFlushStep, LimboError>(LimboError::CompletionError(e))
                    &&& v == self
                    &&& t == s
                },
                IoOutcome::Succeeded => self.flush_gathered(
                    s,
                    state.dirty_ids@,
                    state.current_idx + 1,
                    inputs(state.collected_pages@).push((page_id as u32, encoded)),
                    v,
                    t,
                    r,
                ),
            },
        }
    }
}

/// Nothing can be done before the last request is over.
pub open spec fn flush_waiting() -> Result<CacheFlushStep, LimboError> {
    Ok(CacheFlushStep::Io(IoRequest::Yield))
}

impl Pager {
    /// The page that a flush is going to gather next, if it is in the cache.
    pub fn flush_input(&self) -> (r: Option<FrameInput>)
        requires
            self@.wf(),
        ensures
            match self@.cacheflush_state {
                CacheFlushState::Collecting(state) => {
                    let id = state.dirty_ids@[state.current_idx as int];
                    if state.current_idx < state.dirty_ids@.len() && self@.has(id as usize) {
                        r matches Some(input) && input@ == (id, self@.page(id as usize).data())
                    } else {
                        r is None
                    }
                },
                _ => r is None,
            },
    {
        match &self.cacheflush_state {
            CacheFlushState::Collecting(state) => {
                if state.current_idx >= state.dirty_ids.len() {
                    return None;
                }
                let page_id: u32 = state.dirty_ids[state.current_idx];
                if !self.has_page(page_id as usize) {
                    return None;
                }
                let page = self.page_cache.peek(page_id as usize).unwrap();
                let bytes = page.inner.as_slice();
                let data = copy_range(bytes, 0, bytes.len());
                assert(data@ =~= self@.page(page_id as usize).data());
                Some(FrameInput { page_id, data })
            },
            _ => None,
        }
    }

    /// Takes the next step of flushing all dirty pages to the log. Nothing is committed or synced
    /// but the log's header. `encoded` are the bytes of the page that is to be gathered next, as
    /// they go to disk; `outcome` is what came of the last request.
    pub fn cacheflush(
        &mut self,
        shared: &mut WalFileShared,
        start: LogStart,
        encoded: Vec<u8>,
        outcome: IoOutcome,
    ) -> (r: Result<CacheFlushStep, LimboError>)
        requires
            old(self)@.can_flush(old(shared)@, encoded@, outcome),
        ensures
            final(self)@.wf(),
            old(self)@.wal is None ==> {
                &&& r == Err::<CacheFlushStep, LimboError>(
                    LimboError::InternalError(InternalFault::NoWal),
                )
                &&& final(self)@ == old(self)@
                &&& final(shared)@ == old(shared)@
            },
            old(self)@.wal is Some ==> old(self)@.flush_step(
                old(shared)@,
                start,
                encoded@,
                outcome,
                final(self)@,
                final(shared)@,
                r,
            ),
    {
        let ghost before = self@;
        if self.wal.is_none() {
            return Err(LimboError::InternalError(InternalFault::NoWal));
        }
        match &self.cacheflush_state {
            CacheFlushState::Init => {
                return self.cacheflush_init(shared, start);
            },
            CacheFlushState::Collecting(_) => {},
            _ => match outcome {
                IoOutcome::Pending => {
                    return Ok(CacheFlushStep::Io(IoRequest::Yield));
                },
                IoOutcome::Failed(e) => {
                    if let CacheFlushState::WalPrepareFinish { .. } = &self.cacheflush_state {
                        let ghost s = shared@;
                        shared.initialized = true;
                        assert(shared@.slots =~= s.slots);
                    }
                    return Err(LimboError::CompletionError(e));
                },
                IoOutcome::Succeeded => {},
            },
        }
        let mut phase = CacheFlushState::Init;
        std::mem::swap(&mut phase, &mut self.cacheflush_state);
        let ghost taken = self@;
        assert(taken =~= before.with_flush(CacheFlushState::Init));
        match phase {
            CacheFlushState::Init => Ok(CacheFlushStep::Done),
            CacheFlushState::WalPrepareStart { dirty_ids } => {
                self.cacheflush_state = CacheFlushState::WalPrepareFinish { dirty_ids };
                Ok(CacheFlushStep::Io(IoRequest::SyncWal))
            },
            CacheFlushState::WalPrepareFinish { dirty_ids } => {
                let ghost s = shared@;
                shared.initialized = true;
                assert(shared@.slots =~= s.slots);
                let state = CollectingState {
                    dirty_ids,
                    current_idx: 0,
                    collected_pages: Vec::new(),
                };
                assert(inputs(state.collected_pages@) =~= Seq::empty());
                self.cacheflush_state = CacheFlushState::Collecting(state);
                Ok(CacheFlushStep::Continue)
            },
            CacheFlushState::Collecting(state) => {
                if state.current_idx >= state.dirty_ids.len() {
                    return Ok(CacheFlushStep::Done);
                }
                let page_id: u32 = state.dirty_ids[state.current_idx];
                let id: usize = page_id as usize;
                let usable = self.page_cache.get(id).is_some();
                if usable {
                    assert(self@ =~= taken);
                    self.cacheflush_gather(shared, state, page_id, encoded, Ghost(before))
                } else {
                    assert(self@.frame_for(shared@, id as int, None) == before.frame_for(
                        shared@,
                        id as int,
                        None,
                    ));
                    let (_page, plan) = self.read_page_no_cache(shared, page_id as i64, None);
                    self.cacheflush_state = CacheFlushState::WaitingForRead { state, page_id: id };
                    assert(self@ =~= before.with_cache(before.cache.asked(id)).with_flush(
                        CacheFlushState::WaitingForRead { state, page_id: id },
                    ));
                    Ok(CacheFlushStep::Read { page_id: id, plan })
                }
            },
            CacheFlushState::WaitingForRead { state, page_id } => {
                self.cacheflush_gather(shared, state, page_id as u32, encoded, Ghost(before))
            },
        }
    }

    /// Lists the dirty pages and sees to the log's header.
    fn cacheflush_init(&mut self, shared: &mut WalFileShared, start: LogStart) -> (r: Result<
        CacheFlushStep,
        LimboError,
    >)
        requires
            old(self)@.wf(),
            old(self)@.wal is Some,
            old(self)@.cacheflush_state is Init,
        ensures
            final(self)@.wf(),
            old(self)@.flush_begun(old(shared)@, start, final(self)@, final(shared)@, r),
    {
        let page_sz = self.page_size_or_default();
        if self.dirty_pages.is_empty() {
            return Ok(CacheFlushStep::Done);
        }
        let dirty_ids = self.dirty_pages.pages();
        let mut wal = self.wal.take().unwrap();
        let header = wal.prepare_wal_start(
            shared,
            page_sz,
            start.big_endian,
            (start.salt_1, start.salt_2),
        );
        self.wal = Some(wal);
        match header {
            Some(bytes) => {
                self.cacheflush_state = CacheFlushState::WalPrepareStart { dirty_ids };
                Ok(CacheFlushStep::Io(IoRequest::WriteWalHeader { bytes }))
            },
            None => {
                self.cacheflush_state = CacheFlushState::WalPrepareFinish { dirty_ids };
                Ok(CacheFlushStep::Io(IoRequest::SyncWal))
            },
        }
    }

    /// Adds a page to those that are gathered, and appends them if it is time.
    fn cacheflush_gather(
        &mut self,
        shared: &mut WalFileShared,
        state: CollectingState,
        page_id: u32,
        encoded: Vec<u8>,
        Ghost(whole): Ghost<PagerView>,
    ) -> (r: Result<CacheFlushStep, LimboError>)
        requires
            old(self)@.wf(),
            old(self)@.wal is Some,
            state.current_idx < state.dirty_ids@.len(),
            old(self)@.can_flush_more(old(shared)@, state, encoded@.len()),
            old(self)@ == whole.with_flush(CacheFlushState::Init),
        ensures
            final(self)@.wf(),
            whole.flush_gathered(
                old(shared)@,
                state.dirty_ids@,
                state.current_idx + 1,
                inputs(state.collected_pages@).push((page_id, encoded@)),
                final(self)@,
                final(shared)@,
                r,
            ),
    {
        let ghost gathered = inputs(state.collected_pages@).push((page_id, encoded@));
        let mut state = state;
        let input = FrameInput { page_id, data: encoded };
        state.collected_pages.push(input);
        let total: usize = state.dirty_ids.len();
        assert(state.current_idx < total);
        state.current_idx = state.current_idx + 1;
        assert(inputs(state.collected_pages@) =~= gathered);
        if !Pager::should_flush_batch(&state) {
            self.cacheflush_state = CacheFlushState::Collecting(state);
            assert(self@ =~= whole.with_flush(self@.cacheflush_state));
            return Ok(CacheFlushStep::Continue);
        }
        let frames = self.flush_page_batch(shared, &mut state);
        self.cacheflush_state = CacheFlushState::Collecting(state);
        Ok(CacheFlushStep::Write(frames))
    }

    /// Whether the pages that are gathered are to be appended.
    pub fn should_flush_batch(state: &CollectingState) -> (r: bool)
        ensures
            r == batch_full(
                state.dirty_ids@,
                state.current_idx as int,
                inputs(state.collected_pages@),
            ),
    {
        let at_capacity = state.collected_pages.len() == IOV_MAX;
        let at_end = state.current_idx >= state.dirty_ids.len();
        state.collected_pages.len() != 0 && (at_capacity || at_end)
    }

    /// Appends the pages that are gathered to the log.
    fn flush_page_batch(&mut self, shared: &mut WalFileShared, state: &mut CollectingState) -> (r:
        PreparedFrames)
        requires
            old(self)@.wf(),
            old(self)@.wal is Some,
            old(state).collected_pages@.len() <= IOV_MAX,
            old(shared)@.initialized,
            old(shared)@.header.page_size == log_page_size(old(self)@.page_size).bytes(),
            forall|i: int|
                0 <= i < old(state).collected_pages@.len() ==> (#[trigger] old(
                    state,
                ).collected_pages@[i]).data@.len() == log_page_size(old(self)@.page_size).bytes(),
            old(self)@.wal->0.max_frame + 1 + old(state).collected_pages@.len() <= u64::MAX,
            frame_position(
                old(self)@.wal->0.max_frame + 1,
                log_page_size(old(self)@.page_size).bytes(),
            ) <= u64::MAX,
        ensures
            final(self)@.wf(),
            final(state).is(
                old(state).dirty_ids@,
                old(state).current_idx as int,
                Seq::empty(),
            ),
            r.is_batch_of(
                old(shared)@,
                inputs(old(state).collected_pages@),
                0,
                old(self)@.wal->0.last_checksum,
                old(self)@.wal->0.max_frame + 1,
            ),
            final(shared)@ == (SharedView {
                frames: with_frames(old(shared)@.frames, r.metadata@),
                ..old(shared)@
            }),
            final(self)@ == (PagerView {
                wal: Some(
                    WalFile {
                        last_checksum: r.final_checksum,
                        max_frame: r.final_max_frame,
                        ..old(self)@.wal->0
                    },
                ),
                ..old(self)@.with_pages(
                    all_pending(old(self)@.cache.pages, inputs(old(state).collected_pages@)),
                )
            }),
    {
        let page_sz = self.page_size_or_default();
        let mut pages: Vec<FrameInput> = Vec::new();
        std::mem::swap(&mut pages, &mut state.collected_pages);
        assert(inputs(state.collected_pages@) =~= Seq::empty());
        self.set_write_pending(&pages);
        let mut wal = self.wal.take().unwrap();
        let frames = wal.append_frames_vectored(shared, &pages, page_sz);
        self.wal = Some(wal);
        frames
    }

    /// Marks the pages that are in the cache as being written.
    pub(crate) fn set_write_pending(&mut self, pages: &Vec<FrameInput>)
        requires
            old(self)@.wf(),
        ensures
            final(self)@.wf(),
            final(self)@ == old(self)@.with_pages(
                all_pending(old(self)@.cache.pages, inputs(pages@)),
            ),
    {
        let ghost before = self@;
        let ghost list = inputs(pages@);
        let mut i: usize = 0;
        assert(list.take(0) =~= Seq::empty());
        assert(self@ =~= before.with_pages(before.cache.pages));
        while i < pages.len()
            invariant
                i <= pages@.len(),
                list == inputs(pages@),
                self@.wf(),
                self@ == before.with_pages(all_pending(before.cache.pages, list.take(i as int))),
            decreases pages@.len() - i,
        {
            let id: usize = pages[i].page_id as usize;
            assert(list[i as int] == pages@[i as int]@);
            let ghost cached = self@.cache.pages;
            assert(list.take(i + 1).drop_last() =~= list.take(i as int));
            if self.page_cache.contains_key(id) {
                let mut page = self.page_cache.take(id);
                page.set_write_pending();
                self.page_cache.put(id, page);
                assert(self@.cache.pages =~= cached.insert(
                    id,
                    PageView { wal_tag: TAG_WRITE_PENDING, ..cached[id] },
                ));
            }
            i = i + 1;
        }
        assert(list.take(list.len() as int) =~= list);
    }

    /// Notes that the frames of a flush were written: the pages are clean, unless they were modified
    /// meanwhile.
    pub fn frames_written(&mut self, frames: &Vec<FrameMeta>, epoch: u32)
        requires
            old(self)@.wf(),
        ensures
            final(self)@.wf(),
            final(self)@ == old(self)@.with_pages(
                all_written(old(self)@.cache.pages, frames@, epoch),
            ),
    {
        let ghost before = self@;
        let mut i: usize = 0;
        assert(frames@.take(0) =~= Seq::empty());
        assert(self@ =~= before.with_pages(before.cache.pages));
        while i < frames.len()
            invariant
                i <= frames@.len(),
                self@.wf(),
                self@ == before.with_pages(
                    all_written(before.cache.pages, frames@.take(i as int), epoch),
                ),
            decreases frames@.len() - i,
        {
            let m = frames[i];
            let id: usize = m.page_id as usize;
            let ghost pages = self@.cache.pages;
            assert(frames@.take(i + 1).drop_last() =~= frames@.take(i as int));
            if self.page_cache.contains_key(id) {
                let mut page = self.page_cache.take(id);
                if page.inner.wal_tag != TAG_UNSET {
                    page.clear_dirty();
                    page.set_wal_tag(m.frame_id, epoch);
                }
                self.page_cache.put(id, page);
                assert(self@.cache.pages =~= pages.insert(
                    id,
                    written(pages[id], m.frame_id, epoch),
                ));
            }
            i = i + 1;
        }
        assert(frames@.take(frames@.len() as int) =~= frames@);
    }
}

} // verus!
