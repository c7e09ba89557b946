//! How far a checkpoint gets, and what it counts.

use vstd::prelude::*;
use crate::checkpoint_state::{first_error, last_read_error, unfinished, waiting, CheckpointLocks,
    CheckpointMode, InflightWriteBatch, OngoingView, ReadView};
use crate::error::LimboError;
use crate::frame_index::{ascending, law_find_gives_the_latest, page_frame};
use crate::page_cache::CacheView;
use crate::wal::WalFile;
use crate::wal_checkpoint::{flushed, flushes, is_io_list, law_readers_hold_checkpoint_back, CheckpointIo,
    CheckpointStep};
use crate::wal_shared::{SharedView, READ_SLOTS};
use crate::write_batch::{pages_of, Pages, CKPT_BATCH_PAGES};

verus! {

/// A checkpoint that begins goes on from the frames that are in the database file, not beyond the
/// log's end nor beyond what a reader's mark allows, and lists every page that has a frame
/// there, with the last of them.
pub proof fn law_checkpoint_lists_every_page(
    before: &WalFile,
    s: SharedView,
    mode: CheckpointMode,
    after: &WalFile,
    t: SharedView,
    r: Result<CheckpointStep, LimboError>,
    page: u64,
    frame: u64,
    slot: int,
)
    requires
        WalFile::start_post(before, s, mode, after, t, r),
        r matches Ok(CheckpointStep::Continue),
        s.wf(),
        ascending(s.frames),
        s.nbackfills < u64::MAX,
        s.max_frame <= u32::MAX,
        before.checkpoint_guard is None,
    ensures
        ({
            let oc = after.ongoing_checkpoint@;
            &&& oc.min_frame == s.nbackfills + 1
            &&& oc.max_frame <= s.max_frame
            &&& 1 <= slot < READ_SLOTS && s.slots[slot].readers > 0 ==> oc.max_frame
                <= s.slots[slot].value
            &&& mode matches CheckpointMode::Passive { upper_bound_inclusive: Some(bound) }
                ==> oc.max_frame <= bound
            &&& s.frames.contains_key(page) && s.frames[page].contains(frame) && s.nbackfills
                < frame <= oc.max_frame ==> exists|i: int|
                0 <= i < oc.work.len() && (#[trigger] oc.work[i]).0 == page && frame
                    <= oc.work[i].1 <= oc.max_frame
            &&& t.max_frame == s.max_frame && t.nbackfills == s.nbackfills && t.frames == s.frames
        }),
{
    let oc = after.ongoing_checkpoint@;
    let needed = crate::checkpoint_state::CheckpointLocks::needed(mode);
    let locked = needed.taken(s);
    law_readers_hold_checkpoint_back(locked.slots, s.max_frame);
    if 1 <= slot < READ_SLOTS {
        assert(locked.slots[slot] == s.slots[slot]);
    }
    law_find_gives_the_latest(s.frames, page, oc.min_frame, oc.max_frame);
    if s.frames.contains_key(page) && s.frames[page].contains(frame) && s.nbackfills < frame
        <= oc.max_frame {
        let f = page_frame(s.frames, page, oc.min_frame, oc.max_frame)->0;
        assert(oc.work.contains((page, f)));
        let i = choose|i: int| 0 <= i < oc.work.len() && oc.work[i] == (page, f);
        assert(oc.work[i].0 == page);
    }
}

/// A checkpoint goes on to count what it copied only when it has been through its whole list, and
/// everything that it read or gathered was written.
pub proof fn law_checkpoint_counts_only_what_is_written(
    before: &WalFile,
    s: SharedView,
    c: CacheView,
    after: &WalFile,
    r: Result<CheckpointStep, LimboError>,
)
    requires
        WalFile::process_post(before, s, c, after, r),
        r matches Ok(CheckpointStep::Continue),
    ensures
        ({
            let oc = after.ongoing_checkpoint@;
            &&& oc.current_page >= oc.work.len()
            &&& oc.reads.len() == 0
            &&& oc.pending.dom().len() == 0
            &&& oc.writes.len() == 0
        }),
{
}

/// A checkpoint that went well counts as copied just the frames up to the last one that it copied,
/// and tells how long the log is, how much of it is copied, and how much it copied itself.
pub proof fn law_checkpoint_counts_what_it_copied(
    before: &WalFile,
    s: SharedView,
    mode: CheckpointMode,
    salt_2: u32,
    after: &WalFile,
    t: SharedView,
    r: Result<CheckpointStep, LimboError>,
    last: &WalFile,
    u: SharedView,
    q: Result<CheckpointStep, LimboError>,
)
    requires
        WalFile::determine_post(before, s, mode, salt_2, after, t, r),
        r is Ok,
        WalFile::finalize_post(after, t, mode, last, u, q),
        1 <= before.ongoing_checkpoint@.min_frame,
    ensures
        ({
            let oc = before.ongoing_checkpoint@;
            let result = q->Ok_0->Done_0;
            &&& q matches Ok(CheckpointStep::Done(_))
            &&& result.wal_max_frame == s.max_frame
            &&& result.wal_total_backfilled == oc.max_frame
            &&& oc.max_frame >= oc.min_frame - 1 ==> result.wal_checkpoint_backfilled
                == oc.max_frame - oc.min_frame + 1
            &&& mode is Passive || mode is Full ==> u.nbackfills == oc.max_frame && u.max_frame
                == s.max_frame && u.frames == s.frames
            &&& !(mode is Passive) ==> oc.max_frame == s.max_frame
            &&& last.checkpoint_guard is None
        }),
{
}

/// A checkpoint reads the pages that it wants where they are in the log's file, 24 bytes behind the
/// start of their frames, and writes what it has gathered and nothing else.
pub proof fn law_checkpoint_reads_frames_where_they_are(
    list: Seq<CheckpointIo>,
    reads: Seq<ReadView>,
    from: int,
    write: Option<Pages>,
    page_size: int,
    i: int,
)
    requires
        is_io_list(list, reads, from, write, page_size),
        0 <= from <= reads.len(),
        0 <= i < list.len(),
    ensures
        match list[i] {
            CheckpointIo::ReadFrame { page_id, frame_id, offset } => {
                &&& i < reads.len() - from
                &&& page_id == reads[from + i].page_id
                &&& frame_id == reads[from + i].frame_id
                &&& offset == 32 + (frame_id - 1) * (page_size + 24) + 24
            },
            CheckpointIo::WritePages { pages } => write == Some(pages_of(pages@)),
        },
{
    if i < reads.len() - from {
        assert(list[i] is ReadFrame);
    } else {
        assert(list[i] == list.last());
    }
}

/// A write that is not over is waited for, a read that is not over too, and no error is passed over.
pub proof fn law_checkpoint_waits_for_its_requests(oc: OngoingView, i: int)
    ensures
        0 <= i < oc.writes.len() && !oc.writes[i].done ==> oc.collected().writes.contains(
            oc.writes[i],
        ),
        0 <= i < oc.reads.len() && oc.reads[i].outcome is None ==> oc.collected().reads.contains(
            oc.reads[i],
        ),
        0 <= i < oc.writes.len() && oc.writes[i].err is Some ==> first_error(oc.writes) is Some,
        0 <= i < oc.reads.len() && (oc.reads[i].outcome matches Some(Err(_))) ==> last_read_error(
            oc.reads,
        ) is Some,
{
    lemma_unfinished(oc.writes, i);
    lemma_waiting(oc.reads, i);
}

proof fn lemma_unfinished(writes: Seq<InflightWriteBatch>, i: int)
    ensures
        0 <= i < writes.len() && !writes[i].done ==> unfinished(writes).contains(writes[i]),
        0 <= i < writes.len() && writes[i].err is Some ==> first_error(writes) is Some,
    decreases writes.len(),
{
    if 0 <= i < writes.len() {
        let rest = writes.drop_last();
        lemma_unfinished(rest, i);
        if i < rest.len() {
            assert(rest[i] == writes[i]);
            if !writes[i].done {
                let k = choose|k: int|
                    0 <= k < unfinished(rest).len() && unfinished(rest)[k] == writes[i];
                assert(unfinished(writes)[k] == writes[i]);
            }
        } else if !writes[i].done {
            assert(unfinished(writes)[unfinished(rest).len() as int] == writes[i]);
        }
    }
}

proof fn lemma_waiting(reads: Seq<ReadView>, i: int)
    ensures
        0 <= i < reads.len() && reads[i].outcome is None ==> waiting(reads).contains(reads[i]),
        0 <= i < reads.len() && (reads[i].outcome matches Some(Err(_))) ==> last_read_error(reads)
            is Some,
    decreases reads.len(),
{
    if 0 <= i < reads.len() {
        let rest = reads.drop_last();
        lemma_waiting(rest, i);
        if i < rest.len() {
            assert(rest[i] == reads[i]);
            if reads[i].outcome is None {
                let k = choose|k: int|
                    0 <= k < waiting(rest).len() && waiting(rest)[k] == reads[i];
                assert(waiting(reads)[k] == reads[i]);
            }
        } else if reads[i].outcome is None {
            assert(waiting(reads)[waiting(rest).len() as int] == reads[i]);
        }
    }
}

/// Pages that the cache had from frames before a checkpoint ended are not taken for those of frames
/// that come after it.
pub proof fn law_checkpoint_ends_an_epoch(
    before: &WalFile,
    s: SharedView,
    mode: CheckpointMode,
    after: &WalFile,
    t: SharedView,
    r: Result<CheckpointStep, LimboError>,
)
    requires
        WalFile::finalize_post(before, s, mode, after, t, r),
    ensures
        t.epoch == (s.epoch + 1) % 0x1_0000_0000,
        after.ongoing_checkpoint@.pending.dom() == Set::<usize>::empty(),
        after.ongoing_checkpoint@.work.len() == 0,
        after.ongoing_checkpoint@.state is Start,
{
    assert(after.ongoing_checkpoint@.pending.dom() =~= Set::<usize>::empty());
}

/// A checkpoint that cuts the log down, and was given a bound, goes on only if the log's last frame
/// is at the bound: no frame that came later is lost.
pub proof fn law_bounded_cut_loses_no_frame(
    before: &WalFile,
    s: SharedView,
    bound: u64,
    after: &WalFile,
    t: SharedView,
    r: Result<CheckpointStep, LimboError>,
)
    requires
        WalFile::start_post(
            before,
            s,
            CheckpointMode::Truncate { upper_bound_inclusive: Some(bound) },
            after,
            t,
            r,
        ),
        r is Ok,
    ensures
        s.max_frame == bound,
{
}

/// While files may have to be cut down after a checkpoint, its locks stay with its result; otherwise
/// they are given up at once.
pub proof fn law_locks_stay_while_files_are_cut(
    before: &WalFile,
    s: SharedView,
    mode: CheckpointMode,
    after: &WalFile,
    t: SharedView,
    r: Result<CheckpointStep, LimboError>,
    locks: CheckpointLocks,
)
    requires
        WalFile::finalize_post(before, s, mode, after, t, r),
        before.checkpoint_guard == Some(locks),
        s.wf(),
        locks.held(s),
    ensures
        ({
            let result = r->Ok_0->Done_0;
            &&& r matches Ok(CheckpointStep::Done(_))
            &&& result.wal_max_frame == result.wal_total_backfilled && result.wal_max_frame > 0 ==> {
                &&& result.maybe_guard == Some(locks)
                &&& t.checkpoint_lock.writer
                &&& t.slots[0].writer
                &&& locks is Writer ==> t.write_lock.writer
            }
            &&& result.wal_max_frame != result.wal_total_backfilled || result.wal_max_frame == 0 ==> {
                &&& !t.checkpoint_lock.writer
                &&& !t.slots[0].writer
                &&& locks is Writer ==> !t.write_lock.writer
            }
        }),
{
}

/// Only a passive checkpoint can run beside a writer, none beside another checkpoint or beside a
/// reader of the database file alone.
pub proof fn law_checkpoints_exclude(s: SharedView, mode: CheckpointMode)
    requires
        s.wf(),
        CheckpointLocks::needed(mode).available(s),
    ensures
        !s.checkpoint_lock.writer,
        !s.slots[0].writer && s.slots[0].readers == 0,
        !(mode is Passive) ==> !s.write_lock.writer,
        ({
            let t = CheckpointLocks::needed(mode).taken(s);
            &&& t.checkpoint_lock.writer
            &&& t.slots[0].writer
            &&& !(mode is Passive) ==> t.write_lock.writer
            &&& mode is Passive ==> t.write_lock == s.write_lock
            &&& t.max_frame == s.max_frame && t.nbackfills == s.nbackfills && t.frames == s.frames
        }),
{
}

/// The pages that go out to be written are not gathered any more, and one more write is waited for.
/// They go out when there are enough of them, or when no more will come.
pub proof fn law_gathered_pages_go_out_once(oc: OngoingView)
    ensures
        flushes(oc) ==> {
            let after = flushed(oc);
            &&& after.pending.dom() == Set::<usize>::empty()
            &&& after.writes.len() == oc.writes.len() + 1
            &&& !after.writes.last().done
            &&& after.reads == oc.reads && after.work == oc.work && after.current_page
                == oc.current_page
        },
        !flushes(oc) ==> flushed(oc) == oc,
        oc.writes.len() == 0 && oc.current_page >= oc.work.len() && oc.reads.len() == 0
            && oc.pending.dom().len() > 0 ==> flushes(oc),
        flushes(oc) && oc.pending.dom().len() < CKPT_BATCH_PAGES ==> oc.current_page
            >= oc.work.len() && oc.reads.len() == 0,
{
    if flushes(oc) {
        assert(flushed(oc).pending.dom() =~= Set::<usize>::empty());
    }
}

} // verus!
