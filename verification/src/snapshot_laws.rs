//! What a reader can rely on for as long as its transaction lasts.

use vstd::prelude::*;
use crate::checkpoint_state::{CheckpointLocks, CheckpointMode};
use crate::frame_index::{ascending, is_work_list, last_in_range, law_find_gives_the_latest,
    law_rollback_keeps_older_frames, page_frame, rolled_back, with_frame, Frames};
use crate::wal::WalFile;
use crate::wal_append::{with_frames, FrameMeta};
use crate::wal_shared::SharedView;

verus! {

/// A frame above the range does not change what is found in it.
proof fn lemma_later_frame(frames: Frames, added: u64, frame: u64, page: u64, lo: u64, hi: u64)
    requires
        frame > hi,
    ensures
        page_frame(with_frame(frames, added, frame), page, lo, hi) == page_frame(
            frames,
            page,
            lo,
            hi,
        ),
{
    let after = with_frame(frames, added, frame);
    if page == added {
        if frames.contains_key(page) {
            assert(after[page].drop_last() =~= frames[page]);
        } else {
            assert(after[page].drop_last() =~= Seq::<u64>::empty());
            reveal_with_fuel(last_in_range, 2);
        }
    }
}

proof fn lemma_later_frames(frames: Frames, list: Seq<FrameMeta>, page: u64, lo: u64, hi: u64)
    requires
        forall|k: int| 0 <= k < list.len() ==> (#[trigger] list[k]).frame_id > hi,
    ensures
        page_frame(with_frames(frames, list), page, lo, hi) == page_frame(frames, page, lo, hi),
    decreases list.len(),
{
    if list.len() > 0 {
        let rest = list.drop_last();
        assert forall|k: int| 0 <= k < rest.len() implies (#[trigger] rest[k]).frame_id > hi by {
            assert(rest[k] == list[k]);
        }
        lemma_later_frames(frames, rest, page, lo, hi);
        let last = list[list.len() - 1];
        lemma_later_frame(
            with_frames(frames, rest),
            last.page_id as u64,
            last.frame_id,
            page,
            lo,
            hi,
        );
    }
}

/// A reader keeps its snapshot: whatever is appended to the log behind the last frame that it reads,
/// it finds each page where it found it before.
pub proof fn law_reader_keeps_its_snapshot(
    reader: WalFile,
    s: SharedView,
    t: SharedView,
    list: Seq<FrameMeta>,
    page: u64,
)
    requires
        t.frames == with_frames(s.frames, list),
        forall|k: int| 0 <= k < list.len() ==> (#[trigger] list[k]).frame_id > reader.max_frame,
    ensures
        reader.found_frame(t, page, None) == reader.found_frame(s, page, None),
{
    lemma_later_frames(s.frames, list, page, reader.min_frame, reader.max_frame);
}

/// A reader keeps its snapshot when a writer takes its frames back.
pub proof fn law_rollback_keeps_snapshots(
    reader: WalFile,
    s: SharedView,
    t: SharedView,
    max: u64,
    page: u64,
)
    requires
        ascending(s.frames),
        reader.max_frame <= max,
        t.frames == rolled_back(s.frames, max),
    ensures
        reader.found_frame(t, page, None) == reader.found_frame(s, page, None),
{
    law_rollback_keeps_older_frames(s.frames, max, page, reader.min_frame, reader.max_frame);
}

proof fn lemma_wider_range(list: Seq<u64>, lo: u64, hi: u64, lo2: u64, hi2: u64)
    requires
        lo2 <= lo,
        hi <= hi2,
        last_in_range(list, lo, hi) is Some,
    ensures
        last_in_range(list, lo2, hi2) is Some,
    decreases list.len(),
{
    if list.len() > 0 && !(lo2 <= list.last() <= hi2) {
        lemma_wider_range(list.drop_last(), lo, hi, lo2, hi2);
    }
}

/// A checkpoint that goes no further than a reader's snapshot overwrites no page in the database file
/// that the reader takes from there: each page that it copies is one that the reader finds
/// in the log, in the copied frame or in a later one.
pub proof fn law_checkpoint_spares_readers(
    reader: WalFile,
    s: SharedView,
    work: Seq<(u64, u64)>,
    min: u64,
    max: u64,
    i: int,
)
    requires
        ascending(s.frames),
        is_work_list(work, s.frames, min, max),
        reader.min_frame <= min,
        max <= reader.max_frame,
        !reader.ignores_log(),
        0 <= i < work.len(),
    ensures
        reader.found_frame(s, work[i].0, None) matches Some(f) && work[i].1 <= f
            <= reader.max_frame,
{
    let (page, frame) = work[i];
    assert(page_frame(s.frames, work[i].0, min, max) == Some(work[i].1));
    lemma_wider_range(s.frames[page], min, max, reader.min_frame, reader.max_frame);
    law_find_gives_the_latest(s.frames, page, min, max);
    law_find_gives_the_latest(s.frames, page, reader.min_frame, reader.max_frame);
    assert(s.frames[page].contains(frame));
}

/// While somebody reads from the database file alone, nothing is copied to it: no checkpoint gets
/// its locks.
pub proof fn law_file_readers_hold_off_checkpoints(s: SharedView, mode: CheckpointMode)
    requires
        s.slots[0].readers > 0,
    ensures
        !CheckpointLocks::needed(mode).available(s),
{
}

} // verus!
