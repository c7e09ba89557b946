//! What becomes of pages that are written to the log ahead of their commit.

use vstd::prelude::*;
use crate::bytes::be32;
use crate::commit_frame_laws::lemma_batch_says;
use crate::commit_laws::{fresh_frames, lemma_frames_found};
use crate::error::LimboError;
use crate::flush::{all_pending, all_written, CacheFlushStep};
use crate::frame_index::page_frame;
use crate::page::{PageView, TAG_UNSET};
use crate::page_cache::PageMap;
use crate::pager::PagerView;
use crate::pager_state::{IOResult, IoOutcome, IoRequest, LogStart};
use crate::spill::{all_being_written, all_spilled, all_spilled_to_file, written};
use crate::wal::WalFile;
use crate::wal_append::{inputs, with_frames, FrameInput, FrameMeta, PreparedFrames};
use crate::wal_shared::SharedView;

verus! {

/// The frames hold these pages, uncommitted, and go right behind the last frame that the writer has.
pub open spec fn appended_uncommitted(
    frames: PreparedFrames,
    pages: Seq<(u32, Seq<u8>)>,
    wal: WalFile,
    s: SharedView,
    k: int,
) -> bool {
    let frame = frames.bufs@[k]@;
    &&& frames.bufs@.len() == pages.len()
    &&& frames.offset == 32 + wal.max_frame * (s.header.page_size + 24)
    &&& be32(frame, 0) == pages[k].0
    &&& be32(frame, 4) == 0
    &&& be32(frame, 8) == s.header.salt_1
    &&& be32(frame, 12) == s.header.salt_2
    &&& frame.subrange(24, frame.len() as int) == pages[k].1
}

/// The writer, and the writer alone, has the frames: it finds each page in its own frame, and for
/// everybody else the log ends where it did.
pub open spec fn known_to_writer(
    pages: Seq<(u32, Seq<u8>)>,
    wal: WalFile,
    s: SharedView,
    after: WalFile,
    t: SharedView,
    k: int,
) -> bool {
    &&& after.max_frame == wal.max_frame + pages.len()
    &&& page_frame(t.frames, pages[k].0 as u64, 0, after.max_frame) == Some(
        (wal.max_frame + 1 + k) as u64,
    )
    &&& t.max_frame == s.max_frame
    &&& t.last_checksum == s.last_checksum
    &&& t.transaction_count == s.transaction_count
}

proof fn lemma_appended(
    frames: PreparedFrames,
    pages: Seq<(u32, Seq<u8>)>,
    wal: WalFile,
    s: SharedView,
    k: int,
)
    requires
        frames.is_batch_of(s, pages, 0, wal.last_checksum, wal.max_frame + 1),
        forall|i: int, j: int|
            0 <= i < j < pages.len() ==> (#[trigger] pages[i]).0 != (#[trigger] pages[j]).0,
        wal.max_frame + pages.len() <= u64::MAX,
        0 <= k < pages.len(),
    ensures
        appended_uncommitted(frames, pages, wal, s, k),
        frames.final_max_frame == wal.max_frame + pages.len(),
        page_frame(
            with_frames(s.frames, frames.metadata@),
            pages[k].0 as u64,
            0,
            frames.final_max_frame,
        ) == Some((wal.max_frame + 1 + k) as u64),
{
    lemma_batch_says(frames, s, pages, 0, wal.last_checksum, wal.max_frame + 1, k);
    let list = frames.metadata@;
    assert forall|j: int, i: int| 0 <= j < i < list.len() implies (#[trigger] list[j]).page_id != (
    #[trigger] list[i]).page_id by {
        assert(pages[j].0 != pages[i].0);
    }
    assert(fresh_frames(list, wal.max_frame));
    lemma_frames_found(s.frames, list, wal.max_frame);
    assert(list[k].frame_id == wal.max_frame + 1 + k);
}

/// Pages that are spilled go to the log uncommitted, each with its own bytes, behind the frames that
/// the writer has. The writer finds them there from then on, and nobody else does.
pub proof fn law_spilled_pages_are_in_the_log(
    v: PagerView,
    s: SharedView,
    start: LogStart,
    encoded: Seq<FrameInput>,
    outcome: IoOutcome,
    w: PagerView,
    t: SharedView,
    r: Result<IOResult<bool>, LimboError>,
    k: int,
)
    requires
        v.wal is Some,
        v.spill_state is Idle,
        v.spill_step(s, start, encoded, outcome, w, t, r),
        r matches Ok(IOResult::IO(IoRequest::WriteFrames { .. })),
        v.wal->0.max_frame + encoded.len() <= u64::MAX,
        forall|i: int, j: int|
            0 <= i < j < encoded.len() ==> (#[trigger] encoded[i]).page_id != (
            #[trigger] encoded[j]).page_id,
        0 <= k < encoded.len(),
    ensures
        ({
            let frames = r->Ok_0->IO_0->WriteFrames_frames;
            let pages = inputs(encoded);
            &&& appended_uncommitted(frames, pages, v.wal->0, s, k)
            &&& w.wal is Some
            &&& known_to_writer(pages, v.wal->0, s, w.wal->0, t, k)
        }),
{
    let frames = r->Ok_0->IO_0->WriteFrames_frames;
    let pages = inputs(encoded);
    assert forall|i: int, j: int| 0 <= i < j < pages.len() implies (#[trigger] pages[i]).0 != (
    #[trigger] pages[j]).0 by {
        assert(encoded[i].page_id != encoded[j].page_id);
    }
    lemma_appended(frames, pages, v.wal->0, s, k);
}

/// Pages that are flushed go to the log uncommitted, each with its own bytes, behind the frames that
/// the writer has. The writer finds them there from then on, and nobody else does.
pub proof fn law_flushed_pages_are_in_the_log(
    v: PagerView,
    s: SharedView,
    ids: Seq<u32>,
    idx: int,
    pages: Seq<(u32, Seq<u8>)>,
    w: PagerView,
    t: SharedView,
    r: Result<CacheFlushStep, LimboError>,
    k: int,
)
    requires
        v.wal is Some,
        v.flush_gathered(s, ids, idx, pages, w, t, r),
        r matches Ok(CacheFlushStep::Write(_)),
        v.wal->0.max_frame + pages.len() <= u64::MAX,
        forall|i: int, j: int|
            0 <= i < j < pages.len() ==> (#[trigger] pages[i]).0 != (#[trigger] pages[j]).0,
        0 <= k < pages.len(),
    ensures
        ({
            let frames = r->Ok_0->Write_0;
            &&& appended_uncommitted(frames, pages, v.wal->0, s, k)
            &&& w.wal is Some
            &&& known_to_writer(pages, v.wal->0, s, w.wal->0, t, k)
        }),
{
    lemma_appended(r->Ok_0->Write_0, pages, v.wal->0, s, k);
}

/// A flush takes the dirty pages one after the other, each with its number, and is over only when it
/// has taken all of them.
pub proof fn law_flush_takes_every_page(
    v: PagerView,
    s: SharedView,
    start: LogStart,
    encoded: Seq<u8>,
    outcome: IoOutcome,
    w: PagerView,
    t: SharedView,
    r: Result<CacheFlushStep, LimboError>,
)
    requires
        v.flush_step(s, start, encoded, outcome, w, t, r),
        v.cacheflush_state is Collecting,
    ensures
        ({
            let now = v.cacheflush_state->Collecting_0;
            let ids = now.dirty_ids@;
            let idx = now.current_idx as int;
            let before = inputs(now.collected_pages@);
            let gathered = before.push((ids[idx], encoded));
            &&& (r matches Ok(CacheFlushStep::Done)) <==> idx >= ids.len()
            &&& 0 <= idx < ids.len() && v.cache.usable(ids[idx] as usize) ==> {
                &&& w.cacheflush_state is Collecting
                &&& w.cacheflush_state->Collecting_0.dirty_ids@ == ids
                &&& w.cacheflush_state->Collecting_0.current_idx == idx + 1
                &&& if gathered.len() == 1024 || idx + 1 >= ids.len() {
                    &&& r matches Ok(CacheFlushStep::Write(_))
                    &&& r->Ok_0->Write_0.metadata@.len() == gathered.len()
                    &&& inputs(w.cacheflush_state->Collecting_0.collected_pages@).len() == 0
                } else {
                    &&& r matches Ok(CacheFlushStep::Continue)
                    &&& inputs(w.cacheflush_state->Collecting_0.collected_pages@) == gathered
                }
            }
        }),
{
}

/// Being written, spilled or flushed changes no byte of any page, and puts no page in the cache or
/// out of it.
pub proof fn law_writing_keeps_contents(
    pages: PageMap,
    list: Seq<usize>,
    frames: Seq<FrameMeta>,
    flushed: Seq<(u32, Seq<u8>)>,
    epoch: u32,
    id: usize,
)
    requires
        forall|i: int| 0 <= i < list.len() ==> pages.contains_key(#[trigger] list[i]),
    ensures
        all_being_written(pages, list).contains_key(id) == pages.contains_key(id),
        pages.contains_key(id) ==> all_being_written(pages, list)[id].buffer == pages[id].buffer,
        all_spilled(pages, frames, epoch).contains_key(id) == pages.contains_key(id),
        pages.contains_key(id) ==> all_spilled(pages, frames, epoch)[id].buffer
            == pages[id].buffer,
        all_spilled_to_file(pages, list).contains_key(id) == pages.contains_key(id),
        pages.contains_key(id) ==> all_spilled_to_file(pages, list)[id].buffer
            == pages[id].buffer,
        all_pending(pages, flushed).contains_key(id) == pages.contains_key(id),
        pages.contains_key(id) ==> all_pending(pages, flushed)[id].buffer == pages[id].buffer,
        all_written(pages, frames, epoch).contains_key(id) == pages.contains_key(id),
        pages.contains_key(id) ==> all_written(pages, frames, epoch)[id].buffer
            == pages[id].buffer,
{
    lemma_being_written(pages, list, id);
    lemma_spilled(pages, frames, epoch, id);
    lemma_spilled_to_file(pages, list, id);
    lemma_pending(pages, flushed, id);
    lemma_written(pages, frames, epoch, id);
}

proof fn lemma_being_written(pages: PageMap, list: Seq<usize>, id: usize)
    requires
        forall|i: int| 0 <= i < list.len() ==> pages.contains_key(#[trigger] list[i]),
    ensures
        all_being_written(pages, list).contains_key(id) == pages.contains_key(id),
        pages.contains_key(id) ==> all_being_written(pages, list)[id].buffer == pages[id].buffer,
    decreases list.len(),
{
    if list.len() > 0 {
        let rest = list.drop_last();
        assert forall|i: int| 0 <= i < rest.len() implies pages.contains_key(#[trigger] rest[i]) by {
            assert(rest[i] == list[i]);
        }
        assert(pages.contains_key(list[list.len() - 1]));
        lemma_being_written(pages, rest, id);
        lemma_being_written(pages, rest, list.last());
    }
}

proof fn lemma_spilled(pages: PageMap, frames: Seq<FrameMeta>, epoch: u32, id: usize)
    ensures
        all_spilled(pages, frames, epoch).contains_key(id) == pages.contains_key(id),
        pages.contains_key(id) ==> all_spilled(pages, frames, epoch)[id].buffer
            == pages[id].buffer,
    decreases frames.len(),
{
    if frames.len() > 0 {
        lemma_spilled(pages, frames.drop_last(), epoch, id);
    }
}

proof fn lemma_spilled_to_file(pages: PageMap, list: Seq<usize>, id: usize)
    ensures
        all_spilled_to_file(pages, list).contains_key(id) == pages.contains_key(id),
        pages.contains_key(id) ==> all_spilled_to_file(pages, list)[id].buffer
            == pages[id].buffer,
    decreases list.len(),
{
    if list.len() > 0 {
        lemma_spilled_to_file(pages, list.drop_last(), id);
    }
}

proof fn lemma_pending(pages: PageMap, flushed: Seq<(u32, Seq<u8>)>, id: usize)
    ensures
        all_pending(pages, flushed).contains_key(id) == pages.contains_key(id),
        pages.contains_key(id) ==> all_pending(pages, flushed)[id].buffer == pages[id].buffer,
    decreases flushed.len(),
{
    if flushed.len() > 0 {
        lemma_pending(pages, flushed.drop_last(), id);
    }
}

proof fn lemma_written(pages: PageMap, frames: Seq<FrameMeta>, epoch: u32, id: usize)
    ensures
        all_written(pages, frames, epoch).contains_key(id) == pages.contains_key(id),
        pages.contains_key(id) ==> all_written(pages, frames, epoch)[id].buffer
            == pages[id].buffer,
    decreases frames.len(),
{
    if frames.len() > 0 {
        lemma_written(pages, frames.drop_last(), epoch, id);
    }
}

/// Without a log, pages that are spilled go to the database file, each with its own bytes.
pub proof fn law_spilled_pages_go_to_the_file(
    v: PagerView,
    s: SharedView,
    start: LogStart,
    encoded: Seq<FrameInput>,
    outcome: IoOutcome,
    w: PagerView,
    t: SharedView,
    r: Result<IOResult<bool>, LimboError>,
    k: int,
)
    requires
        v.wal is None,
        v.spill_state is Idle,
        v.spill_step(s, start, encoded, outcome, w, t, r),
        r matches Ok(IOResult::IO(_)),
        0 <= k < encoded.len(),
    ensures
        ({
            let pages = r->Ok_0->IO_0->WriteDbPages_pages@;
            &&& r->Ok_0->IO_0 is WriteDbPages
            &&& pages.len() == encoded.len()
            &&& pages[k].page_id == encoded[k].page_id
            &&& pages[k].data@ == encoded[k].data@
            &&& t == s
        }),
{
    let pages = r->Ok_0->IO_0->WriteDbPages_pages@;
    assert(inputs(pages).len() == inputs(encoded).len());
    assert(inputs(pages)[k] == inputs(encoded)[k]);
}

/// A page that was written ahead of its commit is clean, and known to be in its frame, unless it was
/// modified meanwhile: then it stays dirty, and is known to be in none.
pub proof fn law_flushed_page_is_clean_unless_modified(page: PageView, frame: u64, epoch: u32)
    ensures
        ({
            let w = written(page, frame, epoch);
            &&& w.buffer == page.buffer
            &&& page.wal_tag == TAG_UNSET ==> w == page
            &&& page.wal_tag != TAG_UNSET ==> !w.dirty
        }),
{
}

/// Frames are written ahead of their commit only once the log's header is on disk and synced.
pub proof fn law_spill_waits_for_the_log_header(
    v: PagerView,
    s: SharedView,
    start: LogStart,
    encoded: Seq<FrameInput>,
    outcome: IoOutcome,
    w: PagerView,
    t: SharedView,
    r: Result<IOResult<bool>, LimboError>,
)
    requires
        v.spill_step(s, start, encoded, outcome, w, t, r),
        r matches Ok(IOResult::IO(IoRequest::WriteFrames { .. })),
    ensures
        t.initialized,
        s.initialized || v.spill_state is SyncingHeader && outcome == IoOutcome::Succeeded,
{
}

/// A page that was read for a flush is gathered with its own number, and the flush goes on with the
/// next one.
pub proof fn law_flush_takes_pages_that_were_read(
    v: PagerView,
    s: SharedView,
    start: LogStart,
    encoded: Seq<u8>,
    w: PagerView,
    t: SharedView,
    r: Result<CacheFlushStep, LimboError>,
)
    requires
        v.flush_step(s, start, encoded, IoOutcome::Succeeded, w, t, r),
        v.cacheflush_state is WaitingForRead,
        v.cacheflush_state->page_id <= u32::MAX,
    ensures
        ({
            let now = v.cacheflush_state->WaitingForRead_state;
            let ids = now.dirty_ids@;
            let id = v.cacheflush_state->page_id as u32;
            let gathered = inputs(now.collected_pages@).push((id, encoded));
            &&& w.cacheflush_state is Collecting
            &&& w.cacheflush_state->Collecting_0.dirty_ids@ == ids
            &&& w.cacheflush_state->Collecting_0.current_idx == now.current_idx + 1
            &&& (r matches Ok(CacheFlushStep::Continue)) ==> inputs(
                w.cacheflush_state->Collecting_0.collected_pages@,
            ) == gathered
            &&& (r matches Ok(CacheFlushStep::Write(_))) ==> r->Ok_0->Write_0.metadata@.len()
                == gathered.len() && r->Ok_0->Write_0.metadata@[gathered.len() - 1].page_id == id
        }),
{
}

} // verus!
