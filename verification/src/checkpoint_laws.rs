//! What a checkpoint writes to the database.

use vstd::prelude::*;
use crate::checkpoint_state::{drained, waiting, CheckpointLocks, CheckpointMode, OngoingView,
    ReadView};
use crate::error::LimboError;
use crate::frame_index::{is_work_list, page_frame, Frames};
use crate::page_cache::CacheView;
use crate::rwlock::LockView;
use crate::wal::{first_busy, WalFile};
use crate::wal_checkpoint::{cached_for_checkpoint, flushed, issue, CheckpointStep};
use crate::wal_shared::{SharedView, READ_SLOTS};
use crate::write_batch::Pages;

verus! {

/// Whether the list has the page with this frame.
pub open spec fn listed(work: Seq<(u64, u64)>, page: usize, frame: u64) -> bool {
    exists|i: int|
        #![trigger work[i]]
        0 <= i < work.len() && work[i].0 as usize == page && work[i].1 == frame
}

/// Each gathered page has the bytes that its frame holds.
pub open spec fn gathered_as_held(
    pending: Pages,
    work: Seq<(u64, u64)>,
    held: spec_fn(u64) -> Seq<u8>,
) -> bool {
    forall|p: usize| #[trigger]
        pending.contains_key(p) ==> exists|f: u64| #[trigger]
            listed(work, p, f) && pending[p] == held(f)
}

/// Each read is of a frame of the list, and what it brought is what the frame holds.
pub open spec fn read_as_held(
    reads: Seq<ReadView>,
    work: Seq<(u64, u64)>,
    held: spec_fn(u64) -> Seq<u8>,
) -> bool {
    forall|i: int|
        #![trigger reads[i]]
        0 <= i < reads.len() ==> {
            &&& listed(work, reads[i].page_id, reads[i].frame_id)
            &&& reads[i].outcome matches Some(Ok(data)) ==> data == held(reads[i].frame_id)
        }
}

/// The checkpoint is true to what the frames hold.
pub open spec fn true_to_frames(oc: OngoingView, held: spec_fn(u64) -> Seq<u8>) -> bool {
    &&& gathered_as_held(oc.pending, oc.work, held)
    &&& read_as_held(oc.reads, oc.work, held)
}

/// A page that the cache has as it is in its frame has the bytes that the frame holds.
pub open spec fn cache_agrees(
    c: CacheView,
    work: Seq<(u64, u64)>,
    epoch: u32,
    held: spec_fn(u64) -> Seq<u8>,
) -> bool {
    forall|i: int|
        #![trigger work[i]]
        0 <= i < work.len() && cached_for_checkpoint(c, work[i].0 as usize, work[i].1, epoch)
            ==> c.pages[work[i].0 as usize].data() == held(work[i].1)
}

proof fn lemma_drained_as_held(
    pending: Pages,
    reads: Seq<ReadView>,
    work: Seq<(u64, u64)>,
    held: spec_fn(u64) -> Seq<u8>,
)
    requires
        gathered_as_held(pending, work, held),
        read_as_held(reads, work, held),
    ensures
        gathered_as_held(drained(pending, reads), work, held),
        read_as_held(waiting(reads), work, held),
    decreases reads.len(),
{
    if reads.len() > 0 {
        let rest = reads.drop_last();
        let last = reads.last();
        assert(last == reads[reads.len() - 1]);
        assert forall|i: int| #![trigger rest[i]] 0 <= i < rest.len() implies listed(
            work,
            rest[i].page_id,
            rest[i].frame_id,
        ) && (rest[i].outcome matches Some(Ok(data)) ==> data == held(rest[i].frame_id)) by {
            assert(rest[i] == reads[i]);
        }
        lemma_drained_as_held(pending, rest, work, held);
        let before = drained(pending, rest);
        let after = drained(pending, reads);
        assert forall|p: usize| #[trigger] after.contains_key(p) implies exists|f: u64| #[trigger]
            listed(work, p, f) && after[p] == held(f) by {
            if last.outcome is Some && last.outcome->0 is Ok && p == last.page_id {
                assert(listed(work, p, last.frame_id) && after[p] == held(last.frame_id));
            } else {
                assert(before.contains_key(p) && before[p] == after[p]);
            }
        }
        let kept = waiting(rest);
        let now = waiting(reads);
        assert forall|i: int| #![trigger now[i]] 0 <= i < now.len() implies listed(
            work,
            now[i].page_id,
            now[i].frame_id,
        ) && (now[i].outcome matches Some(Ok(data)) ==> data == held(now[i].frame_id)) by {
            if i < kept.len() {
                assert(now[i] == kept[i]);
            } else {
                assert(now[i] == last);
            }
        }
    }
}

proof fn lemma_issue_as_held(
    oc: OngoingView,
    c: CacheView,
    epoch: u32,
    held: spec_fn(u64) -> Seq<u8>,
)
    requires
        true_to_frames(oc, held),
        cache_agrees(c, oc.work, epoch, held),
    ensures
        true_to_frames(issue(oc, c, epoch), held),
        issue(oc, c, epoch).work == oc.work,
    decreases oc.work.len() - oc.current_page,
{
    if oc.may_read() && oc.current_page + 1 <= usize::MAX {
        let (page_id, frame_id) = oc.work[oc.current_page as int];
        let page = page_id as usize;
        let next = (oc.current_page + 1) as usize;
        assert(listed(oc.work, page, frame_id));
        if cached_for_checkpoint(c, page, frame_id, epoch) {
            let data = c.pages[page].data();
            let pending = oc.pending.insert(page, data);
            assert forall|p: usize| #[trigger] pending.contains_key(p) implies exists|f: u64|
                #[trigger] listed(oc.work, p, f) && pending[p] == held(f) by {
                if p == page {
                    assert(listed(oc.work, p, frame_id) && pending[p] == held(frame_id));
                } else {
                    assert(oc.pending.contains_key(p));
                }
            }
            lemma_issue_as_held(
                OngoingView { pending, current_page: next, ..oc },
                c,
                epoch,
                held,
            );
        } else {
            let read = ReadView { page_id: page, frame_id, outcome: None };
            let reads = oc.reads.push(read);
            assert forall|i: int| #![trigger reads[i]] 0 <= i < reads.len() implies listed(
                oc.work,
                reads[i].page_id,
                reads[i].frame_id,
            ) && (reads[i].outcome matches Some(Ok(data)) ==> data == held(reads[i].frame_id)) by {
                if i < oc.reads.len() {
                    assert(reads[i] == oc.reads[i]);
                } else {
                    assert(reads[i] == read);
                }
            }
            lemma_issue_as_held(OngoingView { reads, current_page: next, ..oc }, c, epoch, held);
        }
    }
}

/// A checkpoint writes to the database what the frames hold. Let `held` say what each frame holds,
/// and let the reads bring just that. Then, whatever mix of the cache and the log the pages are
/// taken from, each page that is gathered to be written has the bytes of its frame; this
/// stays so while outcomes are taken in, while the checkpoint goes on through its list, and
/// while it writes; and the frame is the page's last one among those that are copied.
pub proof fn law_checkpoint_writes_what_frames_hold(
    oc: OngoingView,
    c: CacheView,
    epoch: u32,
    frames: Frames,
    held: spec_fn(u64) -> Seq<u8>,
    page: usize,
)
    requires
        true_to_frames(oc, held),
        cache_agrees(c, oc.work, epoch, held),
        is_work_list(oc.work, frames, oc.min_frame, oc.max_frame),
        forall|i: int| 0 <= i < oc.work.len() ==> (#[trigger] oc.work[i]).0 <= usize::MAX,
    ensures
        true_to_frames(oc.collected(), held),
        true_to_frames(issue(oc, c, epoch), held),
        true_to_frames(flushed(oc), held),
        oc.pending.contains_key(page) ==> (page_frame(
            frames,
            page as u64,
            oc.min_frame,
            oc.max_frame,
        ) matches Some(f) && oc.pending[page] == held(f)),
{
    lemma_drained_as_held(oc.pending, oc.reads, oc.work, held);
    lemma_issue_as_held(oc, c, epoch, held);
    if oc.pending.contains_key(page) {
        let f = choose|f: u64| #[trigger]
            listed(oc.work, page, f) && oc.pending[page] == held(f);
        let i = choose|i: int|
            #![trigger oc.work[i]]
            0 <= i < oc.work.len() && oc.work[i].0 as usize == page && oc.work[i].1 == f;
        assert(page_frame(frames, oc.work[i].0, oc.min_frame, oc.max_frame) == Some(oc.work[i].1));
    }
}

/// A passive checkpoint blocks nobody: it takes neither the write lock nor a slot in which a reader
/// of the log can be.
pub proof fn law_passive_checkpoint_blocks_nobody(s: SharedView, bound: Option<u64>)
    requires
        s.wf(),
    ensures
        ({
            let mode = CheckpointMode::Passive { upper_bound_inclusive: bound };
            let t = CheckpointLocks::needed(mode).taken(s);
            &&& t.write_lock == s.write_lock
            &&& forall|i: int| 1 <= i < READ_SLOTS ==> #[trigger] t.slots[i] == s.slots[i]
        }),
{
}

/// Only a passive checkpoint may stop before the log's end: any other one that succeeds has copied
/// the whole log. One that starts the log over succeeds only while nobody reads from the log, and
/// leaves it empty, so that the next writer begins with its first frame.
pub proof fn law_only_passive_checkpoints_stop_early(
    before: &WalFile,
    s: SharedView,
    mode: CheckpointMode,
    salt_2: u32,
    after: &WalFile,
    t: SharedView,
    r: Result<CheckpointStep, LimboError>,
)
    requires
        WalFile::determine_post(before, s, mode, salt_2, after, t, r),
        !(mode is Passive),
        r is Ok,
    ensures
        before.ongoing_checkpoint@.max_frame == s.max_frame,
        !mode.restarts() ==> t.nbackfills == s.max_frame,
        mode.restarts() ==> {
            &&& t.max_frame == 0
            &&& t.nbackfills == 0
            &&& after.max_frame == 0
            &&& forall|i: int| 1 <= i < READ_SLOTS ==> (#[trigger] s.slots[i]).free()
        },
{
    if mode.restarts() {
        lemma_none_busy(s.slots, 1);
    }
}

proof fn lemma_none_busy(slots: Seq<LockView>, from: int)
    requires
        first_busy(slots, from) >= READ_SLOTS,
    ensures
        forall|i: int| from <= i < READ_SLOTS ==> (#[trigger] slots[i]).free(),
    decreases READ_SLOTS - from,
{
    if from < READ_SLOTS {
        lemma_none_busy(slots, from + 1);
    }
}

} // verus!
