//! What a commit and a rollback leave behind.

use vstd::prelude::*;
use crate::commit::{all_committed, are_batches, batch_committed, batch_count, batch_pages,
    batch_start, CommitMode, CommitStep};
use crate::error::LimboError;
use crate::frame_index::{ascending, frames_up_to, law_appended_frame_is_found,
    lemma_nothing_to_roll_back, page_frame, rolled_back, trimmed, with_frame, Frames};
use crate::page_cache::PageMap;
use crate::pager::PagerView;
use crate::pager_state::{CommitState, IOResult, IoOutcome, IoRequest, LogStart, SyncMode};
use crate::wal::{Snapshot, WalFile};
use crate::wal_append::{batch_checksum, size_in_frame, with_batches, with_frames, FrameInput,
    FrameMeta, PreparedFrames, IOV_MAX};
use crate::wal_format::{frame_bytes, frame_checksum, ints, law_frame_header_round_trip,
    WalFrameHeader, WAL_FRAME_HEADER_SIZE};
use crate::wal_shared::SharedView;

verus! {

/// The frames of several batches, one after the other.
pub open spec fn all_frames(batches: Seq<PreparedFrames>) -> Seq<FrameMeta>
    decreases batches.len(),
{
    if batches.len() == 0 {
        Seq::empty()
    } else {
        all_frames(batches.drop_last()) + batches.last().metadata@
    }
}

/// Adding frames in two goes is adding them in one.
proof fn lemma_frames_join(frames: Frames, a: Seq<FrameMeta>, b: Seq<FrameMeta>)
    ensures
        with_frames(with_frames(frames, a), b) == with_frames(frames, a + b),
    decreases b.len(),
{
    if b.len() == 0 {
        assert(a + b =~= a);
    } else {
        lemma_frames_join(frames, a, b.drop_last());
        assert((a + b).drop_last() =~= a + b.drop_last());
        assert((a + b).last() == b.last());
    }
}

proof fn lemma_batches_are_frames(frames: Frames, batches: Seq<PreparedFrames>)
    ensures
        with_batches(frames, batches) == with_frames(frames, all_frames(batches)),
    decreases batches.len(),
{
    if batches.len() > 0 {
        lemma_batches_are_frames(frames, batches.drop_last());
        lemma_frames_join(frames, all_frames(batches.drop_last()), batches.last().metadata@);
    }
}

/// The frames have the numbers after `max`, and no two are of one page.
pub open spec fn fresh_frames(list: Seq<FrameMeta>, max: u64) -> bool {
    &&& max + list.len() <= u64::MAX
    &&& forall|k: int|
        #![trigger list[k]]
        0 <= k < list.len() ==> list[k].frame_id == max + 1 + k
    &&& forall|j: int, k: int|
        0 <= j < k < list.len() ==> (#[trigger] list[j]).page_id != (#[trigger] list[k]).page_id
}

pub proof fn lemma_frames_found(frames: Frames, list: Seq<FrameMeta>, max: u64)
    requires
        fresh_frames(list, max),
    ensures
        forall|k: int, lo: u64, hi: u64|
            0 <= k < list.len() && lo <= list[k].frame_id <= hi ==> #[trigger] page_frame(
                with_frames(frames, list),
                list[k].page_id as u64,
                lo,
                hi,
            ) == Some(list[k].frame_id),
        forall|p: u64|
            (forall|k: int| 0 <= k < list.len() ==> (#[trigger] list[k]).page_id != p) ==> {
                &&& #[trigger] with_frames(frames, list).contains_key(p) == frames.contains_key(p)
                &&& with_frames(frames, list)[p] == frames[p]
            },
    decreases list.len(),
{
    if list.len() > 0 {
        let rest = list.drop_last();
        lemma_frames_found(frames, rest, max);
        let before = with_frames(frames, rest);
        let last = list.last();
        let after = with_frame(before, last.page_id as u64, last.frame_id);
        assert(with_frames(frames, list) == after);
        assert forall|k: int, lo: u64, hi: u64|
            0 <= k < list.len() && lo <= list[k].frame_id <= hi implies #[trigger] page_frame(
            after,
            list[k].page_id as u64,
            lo,
            hi,
        ) == Some(list[k].frame_id) by {
            if k == list.len() - 1 {
                let l = after[last.page_id as u64];
                assert(l.last() == last.frame_id);
            } else {
                assert(rest[k] == list[k]);
                assert(list[k].page_id != list[list.len() - 1].page_id);
                assert(after[list[k].page_id as u64] == before[list[k].page_id as u64]);
                assert(page_frame(before, rest[k].page_id as u64, lo, hi) == Some(
                    list[k].frame_id,
                ));
            }
        }
        assert forall|p: u64|
            (forall|k: int| 0 <= k < list.len() ==> (#[trigger] list[k]).page_id != p) implies {
            &&& #[trigger] with_frames(frames, list).contains_key(p) == frames.contains_key(p)
            &&& with_frames(frames, list)[p] == frames[p]
        } by {
            assert(list[list.len() - 1].page_id != p);
            assert forall|k: int| 0 <= k < rest.len() implies (#[trigger] rest[k]).page_id != p by {
                assert(rest[k] == list[k]);
            }
            assert(before.contains_key(p) == frames.contains_key(p));
        }
    }
}

/// All batches but the last are batches too.
pub proof fn lemma_batches_before(
    batches: Seq<PreparedFrames>,
    n: int,
    s: SharedView,
    pages: Seq<(u32, Seq<u8>)>,
    db_size: u32,
    wal: WalFile,
)
    requires
        are_batches(batches, n, s, pages, db_size, wal),
        n > 0,
    ensures
        are_batches(batches.drop_last(), n - 1, s, pages, db_size, wal),
        batch_start(batches.drop_last(), n - 1, wal) == batch_start(batches, n - 1, wal),
{
    let rest = batches.drop_last();
    assert forall|i: int|
        #![trigger rest[i]]
        0 <= i < n - 1 implies {
        let (checksum, frame) = batch_start(rest, i, wal);
        rest[i].is_batch_of(
            s,
            batch_pages(pages, i),
            if i + 1 == batch_count(pages.len() as int) {
                db_size
            } else {
                0
            },
            checksum,
            frame + 1,
        )
    } by {
        assert(rest[i] == batches[i]);
        if i > 0 {
            assert(rest[i - 1] == batches[i - 1]);
        }
    }
    if n > 1 {
        assert(rest[n - 2] == batches[n - 2]);
    }
}

/// The frames of the last batch.
proof fn lemma_last_batch(
    batches: Seq<PreparedFrames>,
    n: int,
    s: SharedView,
    pages: Seq<(u32, Seq<u8>)>,
    db_size: u32,
    wal: WalFile,
)
    requires
        are_batches(batches, n, s, pages, db_size, wal),
        n > 0,
    ensures
        ({
            let batch = batches.last();
            let part = batch_pages(pages, n - 1);
            let (_, start) = batch_start(batches, n - 1, wal);
            let (_, end) = batch_start(batches, n, wal);
            &&& batch.metadata@.len() == part.len()
            &&& end == start + part.len()
            &&& forall|j: int|
                #![trigger batch.metadata@[j]]
                0 <= j < part.len() ==> batch.metadata@[j].page_id == part[j].0
                    && batch.metadata@[j].frame_id == start + 1 + j
        }),
{
    assert(batches.last() == batches[n - 1]);
}

/// The frames of all batches are those of the pages, in order.
#[verifier::spinoff_prover]
pub proof fn lemma_batches_in_order(
    batches: Seq<PreparedFrames>,
    n: int,
    s: SharedView,
    pages: Seq<(u32, Seq<u8>)>,
    db_size: u32,
    wal: WalFile,
)
    requires
        are_batches(batches, n, s, pages, db_size, wal),
        0 <= n <= batch_count(pages.len() as int),
    ensures
        ({
            let list = all_frames(batches);
            let done = if n * IOV_MAX < pages.len() {
                n * IOV_MAX
            } else {
                pages.len() as int
            };
            let (_, last) = batch_start(batches, n, wal);
            &&& list.len() == done
            &&& last == wal.max_frame + done
            &&& forall|k: int|
                #![trigger list[k]]
                0 <= k < done ==> list[k].page_id == pages[k].0 && list[k].frame_id
                    == wal.max_frame + 1 + k
        }),
    decreases n,
{
    if n > 0 {
        let rest = batches.drop_last();
        lemma_batches_before(batches, n, s, pages, db_size, wal);
        lemma_batches_in_order(rest, n - 1, s, pages, db_size, wal);
        lemma_last_batch(batches, n, s, pages, db_size, wal);
        let metadata = batches.last().metadata@;
        lemma_joined(all_frames(rest), metadata, all_frames(batches), pages, n, wal.max_frame);
    }
}

/// The frames of one more batch behind those of the batches before it.
proof fn lemma_joined(
    before: Seq<FrameMeta>,
    metadata: Seq<FrameMeta>,
    list: Seq<FrameMeta>,
    pages: Seq<(u32, Seq<u8>)>,
    n: int,
    max_frame: u64,
)
    requires
        list == before + metadata,
        0 < n <= batch_count(pages.len() as int),
        before.len() == (n - 1) * IOV_MAX,
        metadata.len() == batch_pages(pages, n - 1).len(),
        forall|k: int|
            #![trigger before[k]]
            0 <= k < before.len() ==> before[k].page_id == pages[k].0 && before[k].frame_id
                == max_frame + 1 + k,
        forall|j: int|
            #![trigger metadata[j]]
            0 <= j < metadata.len() ==> metadata[j].page_id == batch_pages(pages, n - 1)[j].0
                && metadata[j].frame_id == max_frame + before.len() + 1 + j,
    ensures
        list.len() == (if n * IOV_MAX < pages.len() {
            n * IOV_MAX
        } else {
            pages.len() as int
        }),
        forall|k: int|
            #![trigger list[k]]
            0 <= k < list.len() ==> list[k].page_id == pages[k].0 && list[k].frame_id == max_frame
                + 1 + k,
{
    let part = batch_pages(pages, n - 1);
    assert forall|k: int| #![trigger list[k]] 0 <= k < list.len() implies list[k].page_id
        == pages[k].0 && list[k].frame_id == max_frame + 1 + k by {
        if k < before.len() {
            assert(list[k] == before[k]);
        } else {
            let j = k - before.len();
            assert(list[k] == metadata[j]);
            assert(part[j] == pages[k]);
        }
    }
}

/// The next reader after a commit finds each page that was committed in the frame that the commit
/// gave it, and that frame holds the page's bytes behind its header.
pub proof fn law_next_reader_finds_committed_pages(
    v: PagerView,
    s: SharedView,
    mode: CommitMode,
    pages: Seq<(u32, Seq<u8>)>,
    db_size: u32,
    w: PagerView,
    t: SharedView,
    r: Result<CommitStep, LimboError>,
    reader: WalFile,
    slot: usize,
    k: int,
)
    requires
        v.frames_visible(s, mode, w, t, r),
        are_batches(
            v.commit_info.prepared_frames@,
            batch_count(pages.len() as int),
            s,
            pages,
            db_size,
            v.wal->0,
        ),
        s.nbackfills <= v.wal->0.max_frame,
        v.wal->0.max_frame + pages.len() < u64::MAX,
        forall|i: int, j: int|
            0 <= i < j < pages.len() ==> (#[trigger] pages[i]).0 != (#[trigger] pages[j]).0,
        0 <= k < pages.len(),
    ensures
        ({
            let frame = (v.wal->0.max_frame + 1 + k) as u64;
            let batch = v.commit_info.prepared_frames@[k / (IOV_MAX as int)];
            let buf = batch.bufs@[k % (IOV_MAX as int)]@;
            &&& reader.reading(Snapshot::of(t), slot).found_frame(t, pages[k].0 as u64, None)
                == Some(frame)
            &&& batch.metadata@[k % (IOV_MAX as int)].frame_id == frame
            &&& buf.subrange(WAL_FRAME_HEADER_SIZE as int, buf.len() as int) == pages[k].1
        }),
{
    let wal = v.wal->0;
    let batches = v.commit_info.prepared_frames@;
    let n = batch_count(pages.len() as int);
    lemma_batches_in_order(batches, n, s, pages, db_size, wal);
    lemma_batches_are_frames(s.frames, batches);
    let list = all_frames(batches);
    assert(list.len() == pages.len());
    assert forall|i: int, j: int| 0 <= i < j < list.len() implies (#[trigger] list[i]).page_id != (
    #[trigger] list[j]).page_id by {
        assert(pages[i].0 != pages[j].0);
    }
    lemma_frames_found(s.frames, list, wal.max_frame);
    let frame = (wal.max_frame + 1 + k) as u64;
    assert(list[k].frame_id == frame);
    assert(list[k].page_id == pages[k].0);
    let rd = reader.reading(Snapshot::of(t), slot);
    assert(t.max_frame == wal.max_frame + pages.len());
    assert(page_frame(t.frames, list[k].page_id as u64, rd.min_frame, rd.max_frame) == Some(frame));
    let i = k / (IOV_MAX as int);
    let j = k % (IOV_MAX as int);
    assert(0 <= i < n);
    let batch = batches[i];
    let part = batch_pages(pages, i);
    assert(part[j] == pages[k]);
    lemma_batch_start(batches, i, s, pages, db_size, wal);
    let (checksum, start) = batch_start(batches, i, wal);
    let last = if i + 1 == n {
        db_size
    } else {
        0
    };
    assert(batch.is_batch_of(s, part, last, checksum, start + 1));
    let buf = batch.bufs@[j]@;
    let previous = batch_checksum(s.header, part, last, ints(checksum), j as nat);
    assert(buf == frame_bytes(
        s.header,
        previous,
        part[j].0,
        size_in_frame(part.len(), j, last),
        part[j].1,
    ));
    lemma_frame_holds_page(
        s,
        previous,
        part[j].0,
        size_in_frame(part.len(), j, last),
        part[j].1,
    );
    assert(batch.metadata@[j].frame_id == start + 1 + j);
}

/// Where a batch goes on from.
proof fn lemma_batch_start(
    batches: Seq<PreparedFrames>,
    i: int,
    s: SharedView,
    pages: Seq<(u32, Seq<u8>)>,
    db_size: u32,
    wal: WalFile,
)
    requires
        are_batches(batches, batch_count(pages.len() as int), s, pages, db_size, wal),
        0 <= i < batches.len(),
    ensures
        ({
            let (_, start) = batch_start(batches, i, wal);
            start == wal.max_frame + i * IOV_MAX
        }),
    decreases i,
{
    if i > 0 {
        lemma_batch_start(batches, i - 1, s, pages, db_size, wal);
        assert(batch_pages(pages, i - 1).len() == IOV_MAX);
        let (checksum, start) = batch_start(batches, i - 1, wal);
        assert(batches[i - 1].is_batch_of(s, batch_pages(pages, i - 1), 0, checksum, start + 1));
    }
}

/// A frame holds its page behind its header.
proof fn lemma_frame_holds_page(
    s: SharedView,
    previous: (int, int),
    page: u32,
    db_size: u32,
    data: Seq<u8>,
)
    ensures
        ({
            let buf = frame_bytes(s.header, previous, page, db_size, data);
            buf.subrange(WAL_FRAME_HEADER_SIZE as int, buf.len() as int) == data
        }),
{
    let buf = frame_bytes(s.header, previous, page, db_size, data);
    let (c1, c2) = frame_checksum(s.header, previous, page, db_size, data);
    law_frame_header_round_trip(
        WalFrameHeader {
            page_number: page,
            db_size,
            salt_1: s.header.salt_1,
            salt_2: s.header.salt_2,
            checksum_1: c1 as u32,
            checksum_2: c2 as u32,
        },
        data,
    );
    assert(buf.subrange(WAL_FRAME_HEADER_SIZE as int, buf.len() as int) =~= data);
}

/// Frames that were appended but not committed, as those of a spill, are gone after a rollback: the
/// index is what it was at the last commit.
pub proof fn law_rollback_drops_uncommitted_frames(
    frames: Frames,
    list: Seq<FrameMeta>,
    max: u64,
)
    requires
        ascending(frames),
        frames_up_to(frames, max),
        forall|k: int| 0 <= k < list.len() ==> (#[trigger] list[k]).frame_id > max,
    ensures
        rolled_back(with_frames(frames, list), max) == frames,
    decreases list.len(),
{
    if list.len() == 0 {
        lemma_nothing_to_roll_back(frames, max);
    } else {
        let rest = list.drop_last();
        assert forall|k: int| 0 <= k < rest.len() implies (#[trigger] rest[k]).frame_id > max by {
            assert(rest[k] == list[k]);
        }
        law_rollback_drops_uncommitted_frames(frames, rest, max);
        let before = with_frames(frames, rest);
        let m = list.last();
        assert(list[list.len() - 1].frame_id > max);
        lemma_rollback_ignores_new_frame(before, m.page_id as u64, m.frame_id, max);
    }
}

proof fn lemma_rollback_ignores_new_frame(frames: Frames, page: u64, frame: u64, max: u64)
    requires
        frame > max,
    ensures
        rolled_back(with_frame(frames, page, frame), max) == rolled_back(frames, max),
{
    let after = with_frame(frames, page, frame);
    if frames.contains_key(page) {
        let list = frames[page];
        assert(list.push(frame).drop_last() =~= list);
        assert(trimmed(after[page], max) == trimmed(list, max));
    } else {
        assert(seq![frame].drop_last() =~= Seq::<u64>::empty());
        reveal_with_fuel(trimmed, 3);
        assert(trimmed(after[page], max).len() == 0);
    }
    assert(rolled_back(after, max) =~= rolled_back(frames, max));
}

/// A commit outdates every snapshot of the log before it: a connection whose read transaction is
/// older can no longer begin a write transaction.
pub proof fn law_commit_outdates_snapshots(
    reader: WalFile,
    v: PagerView,
    s: SharedView,
    mode: CommitMode,
    w: PagerView,
    t: SharedView,
    r: Result<CommitStep, LimboError>,
)
    requires
        !reader.sees_change(s),
        v.wal matches Some(wal) && wal.transaction_count == s.transaction_count
            && wal.transaction_count < u64::MAX,
        v.frames_visible(s, mode, w, t, r),
    ensures
        reader.sees_change(t),
{
}

proof fn lemma_batch_cleans(pages: PageMap, list: Seq<FrameMeta>, epoch: u32)
    requires
        forall|j: int, k: int|
            0 <= j < k < list.len() ==> (#[trigger] list[j]).page_id != (#[trigger] list[k]).page_id,
    ensures
        batch_committed(pages, list, epoch).dom() == pages.dom(),
        forall|k: int|
            #![trigger list[k]]
            0 <= k < list.len() && pages.contains_key(list[k].page_id as usize) ==> batch_committed(
                pages,
                list,
                epoch,
            )[list[k].page_id as usize] == pages[list[k].page_id as usize].cleaned().tagged(
                list[k].frame_id,
                epoch,
            ),
        forall|p: usize|
            (forall|k: int| 0 <= k < list.len() ==> (#[trigger] list[k]).page_id as usize != p)
                ==> #[trigger] batch_committed(pages, list, epoch)[p] == pages[p],
    decreases list.len(),
{
    if list.len() > 0 {
        let rest = list.drop_last();
        assert forall|j: int, k: int| 0 <= j < k < rest.len() implies (#[trigger] rest[j]).page_id
            != (#[trigger] rest[k]).page_id by {
            assert(list[j].page_id != list[k].page_id);
        }
        lemma_batch_cleans(pages, rest, epoch);
        let before = batch_committed(pages, rest, epoch);
        let last = list[list.len() - 1];
        let id = last.page_id as usize;
        let after = batch_committed(pages, list, epoch);
        assert(after.dom() =~= pages.dom());
        assert(before[id] == pages[id]) by {
            assert forall|k: int| 0 <= k < rest.len() implies (#[trigger] rest[k]).page_id as usize
                != id by {
                assert(rest[k] == list[k]);
                assert(list[k].page_id != list[list.len() - 1].page_id);
            }
        }
        assert forall|k: int|
            #![trigger list[k]]
            0 <= k < list.len() && pages.contains_key(list[k].page_id as usize) implies after[list[k].page_id as usize]
            == pages[list[k].page_id as usize].cleaned().tagged(list[k].frame_id, epoch) by {
            if k < rest.len() {
                assert(rest[k] == list[k]);
                assert(list[k].page_id != list[list.len() - 1].page_id);
            }
        }
        assert forall|p: usize|
            (forall|k: int| 0 <= k < list.len() ==> (#[trigger] list[k]).page_id as usize
                != p) implies #[trigger] after[p] == pages[p] by {
            assert(list[list.len() - 1].page_id as usize != p);
            assert forall|k: int| 0 <= k < rest.len() implies (#[trigger] rest[k]).page_id as usize
                != p by {
                assert(rest[k] == list[k]);
            }
            assert(before[p] == pages[p]);
        }
    }
}

proof fn lemma_cleans_join(pages: PageMap, a: Seq<FrameMeta>, b: Seq<FrameMeta>, epoch: u32)
    ensures
        batch_committed(batch_committed(pages, a, epoch), b, epoch) == batch_committed(
            pages,
            a + b,
            epoch,
        ),
    decreases b.len(),
{
    if b.len() == 0 {
        assert(a + b =~= a);
    } else {
        lemma_cleans_join(pages, a, b.drop_last(), epoch);
        assert((a + b).drop_last() =~= a + b.drop_last());
        assert((a + b).last() == b.last());
    }
}

proof fn lemma_cleans_are_one(pages: PageMap, batches: Seq<PreparedFrames>, epoch: u32)
    requires
        forall|i: int| 0 <= i < batches.len() ==> (#[trigger] batches[i]).epoch == epoch,
    ensures
        all_committed(pages, batches) == batch_committed(pages, all_frames(batches), epoch),
    decreases batches.len(),
{
    if batches.len() > 0 {
        let rest = batches.drop_last();
        assert forall|i: int| 0 <= i < rest.len() implies (#[trigger] rest[i]).epoch == epoch by {
            assert(rest[i] == batches[i]);
        }
        lemma_cleans_are_one(pages, rest, epoch);
        assert(batches[batches.len() - 1].epoch == epoch);
        lemma_cleans_join(pages, all_frames(rest), batches.last().metadata@, epoch);
    }
}

/// After a commit no page is on record as dirty. Each page that it wrote, if it is in the cache, is
/// clean and known to be in its frame; the other pages are untouched.
pub proof fn law_committed_pages_are_clean(
    v: PagerView,
    s: SharedView,
    mode: CommitMode,
    pages: Seq<(u32, Seq<u8>)>,
    db_size: u32,
    w: PagerView,
    t: SharedView,
    r: Result<CommitStep, LimboError>,
    id: usize,
)
    requires
        v.frames_visible(s, mode, w, t, r),
        are_batches(
            v.commit_info.prepared_frames@,
            batch_count(pages.len() as int),
            s,
            pages,
            db_size,
            v.wal->0,
        ),
        forall|i: int, j: int|
            0 <= i < j < pages.len() ==> (#[trigger] pages[i]).0 != (#[trigger] pages[j]).0,
        v.wal->0.max_frame + pages.len() < u64::MAX,
        v.cache.pages.contains_key(id),
    ensures
        w.dirty == Set::<u32>::empty(),
        w.cache.pages.contains_key(id),
        forall|k: int|
            0 <= k < pages.len() && (#[trigger] pages[k]).0 == id ==> w.page(id) == v.page(
                id,
            ).cleaned().tagged((v.wal->0.max_frame + 1 + k) as u64, s.epoch) && !w.page(id).dirty
                && w.page(id).buffer == v.page(id).buffer,
        (forall|k: int| 0 <= k < pages.len() ==> (#[trigger] pages[k]).0 != id) ==> w.page(id)
            == v.page(id),
{
    let wal = v.wal->0;
    let batches = v.commit_info.prepared_frames@;
    lemma_batches_in_order(
        batches,
        batch_count(pages.len() as int),
        s,
        pages,
        db_size,
        wal,
    );
    let list = all_frames(batches);
    assert(list.len() == pages.len());
    assert forall|i: int| 0 <= i < batches.len() implies (#[trigger] batches[i]).epoch
        == s.epoch by {}
    lemma_cleans_are_one(v.cache.pages, batches, s.epoch);
    assert forall|i: int, j: int| 0 <= i < j < list.len() implies (#[trigger] list[i]).page_id != (
    #[trigger] list[j]).page_id by {
        assert(pages[i].0 != pages[j].0);
    }
    lemma_batch_cleans(v.cache.pages, list, s.epoch);
    let after = batch_committed(v.cache.pages, list, s.epoch);
    assert(w.cache.pages == after);
    assert(after.dom().contains(id));
    assert forall|k: int| 0 <= k < pages.len() && (#[trigger] pages[k]).0 == id implies w.page(id)
        == v.page(id).cleaned().tagged((wal.max_frame + 1 + k) as u64, s.epoch) by {
        assert(list[k].page_id == pages[k].0);
    }
    if forall|k: int| 0 <= k < pages.len() ==> (#[trigger] pages[k]).0 != id {
        assert forall|k: int| 0 <= k < list.len() implies (#[trigger] list[k]).page_id as usize
            != id by {
            assert(pages[k].0 != id);
        }
        assert(after[id] == v.cache.pages[id]);
    }
}

proof fn lemma_frames_ascend(frames: Frames, list: Seq<FrameMeta>, max: u64)
    requires
        ascending(frames),
        frames_up_to(frames, max),
        max + list.len() <= u64::MAX,
        forall|k: int|
            #![trigger list[k]]
            0 <= k < list.len() ==> list[k].frame_id == max + 1 + k,
    ensures
        ascending(with_frames(frames, list)),
        frames_up_to(with_frames(frames, list), (max + list.len()) as u64),
    decreases list.len(),
{
    if list.len() > 0 {
        let rest = list.drop_last();
        assert forall|k: int|
            #![trigger rest[k]]
            0 <= k < rest.len() implies rest[k].frame_id == max + 1 + k by {
            assert(rest[k] == list[k]);
        }
        lemma_frames_ascend(frames, rest, max);
        let last = list[list.len() - 1];
        law_appended_frame_is_found(
            with_frames(frames, rest),
            last.page_id as u64,
            last.frame_id,
            (max + rest.len()) as u64,
            0,
        );
    }
}

/// A commit keeps the index of the log sound: each page's frames ascend, and none is beyond the last
/// committed one.
pub proof fn law_commit_keeps_index_sound(
    v: PagerView,
    s: SharedView,
    mode: CommitMode,
    pages: Seq<(u32, Seq<u8>)>,
    db_size: u32,
    w: PagerView,
    t: SharedView,
    r: Result<CommitStep, LimboError>,
)
    requires
        v.frames_visible(s, mode, w, t, r),
        are_batches(
            v.commit_info.prepared_frames@,
            batch_count(pages.len() as int),
            s,
            pages,
            db_size,
            v.wal->0,
        ),
        v.wal->0.max_frame + pages.len() < u64::MAX,
        ascending(s.frames),
        frames_up_to(s.frames, v.wal->0.max_frame),
    ensures
        ascending(t.frames),
        frames_up_to(t.frames, t.max_frame),
        t.max_frame == v.wal->0.max_frame + pages.len(),
{
    let wal = v.wal->0;
    let batches = v.commit_info.prepared_frames@;
    lemma_batches_in_order(batches, batch_count(pages.len() as int), s, pages, db_size, wal);
    lemma_batches_are_frames(s.frames, batches);
    lemma_frames_ascend(s.frames, all_frames(batches), wal.max_frame);
}

/// Frames become visible only in the last step of a commit, and a commit comes to that step only
/// when its frames were written and, if syncs are in full force, synced after that.
pub proof fn law_frames_are_durable_before_visible(
    v: PagerView,
    s: SharedView,
    mode: CommitMode,
    encoded: Seq<FrameInput>,
    outcome: IoOutcome,
    w: PagerView,
    t: SharedView,
    r: Result<CommitStep, LimboError>,
)
    requires
        v.wal is Some,
        v.commit_called(s, mode, encoded, outcome, w, t, r),
    ensures
        v.commit_info.state != CommitState::WalCommitDone ==> t.max_frame == s.max_frame
            && t.transaction_count == s.transaction_count,
        w.commit_info.state == CommitState::WalCommitDone && v.commit_info.state
            != CommitState::WalCommitDone ==> outcome == IoOutcome::Succeeded && (
        v.commit_info.state == CommitState::WaitSync || v.commit_info.state
            == CommitState::WaitWrites && mode.sync_mode != SyncMode::Full),
        w.commit_info.state == CommitState::WaitSync && v.commit_info.state
            != CommitState::WaitSync ==> outcome == IoOutcome::Succeeded && v.commit_info.state
            == CommitState::WaitWrites && r == Ok::<CommitStep, LimboError>(
            CommitStep::Io(IoRequest::SyncWal),
        ),
{
}

/// What was prepared is what becomes visible: while the frames of a commit are written and synced,
/// they stay as they are, and so does the place in the log that they go on from.
pub proof fn law_prepared_frames_stay(
    v: PagerView,
    s: SharedView,
    mode: CommitMode,
    encoded: Seq<FrameInput>,
    outcome: IoOutcome,
    w: PagerView,
    t: SharedView,
    r: Result<CommitStep, LimboError>,
)
    requires
        v.wal is Some,
        v.spill_state is Idle,
        v.commit_info.state == CommitState::WaitWrites || v.commit_info.state
            == CommitState::WaitSync,
        v.commit_called(s, mode, encoded, outcome, w, t, r),
        r is Ok,
    ensures
        t == s,
        w.commit_info.prepared_frames == v.commit_info.prepared_frames,
        w.wal matches Some(wal) && wal.max_frame == v.wal->0.max_frame && wal.last_checksum
            == v.wal->0.last_checksum,
        w.cache == v.cache,
        w.dirty == v.dirty,
{
}

/// A commit that fails leaves the log as it was, but for the note that its header is on disk.
pub proof fn law_failed_commit_is_invisible(
    v: PagerView,
    s: SharedView,
    mode: CommitMode,
    encoded: Seq<FrameInput>,
    outcome: IoOutcome,
    w: PagerView,
    t: SharedView,
    r: Result<CommitStep, LimboError>,
)
    requires
        v.commit_called(s, mode, encoded, outcome, w, t, r),
        r is Err,
    ensures
        t == s || t == (SharedView { initialized: true, ..s }),
{
}

/// The frames of a spill are no part of the log for anybody else: its last committed frame and its
/// count of transactions stay.
pub proof fn law_spilled_frames_are_not_committed(
    v: PagerView,
    s: SharedView,
    start: LogStart,
    encoded: Seq<FrameInput>,
    outcome: IoOutcome,
    w: PagerView,
    t: SharedView,
    r: Result<IOResult<bool>, LimboError>,
)
    requires
        v.spill_step(s, start, encoded, outcome, w, t, r),
    ensures
        t.max_frame == s.max_frame,
        t.transaction_count == s.transaction_count,
        t.nbackfills == s.nbackfills,
        w.dirty == v.dirty,
{
}

} // verus!
