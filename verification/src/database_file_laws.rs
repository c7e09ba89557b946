//! What the database file gives back of what was written to it.

use vstd::prelude::*;
use crate::checkpoint_laws::{cache_agrees, law_checkpoint_writes_what_frames_hold, true_to_frames};
use crate::checkpoint_state::OngoingView;
use crate::error::CompletionError;
use crate::frame_index::{is_work_list, page_frame, Frames};
use crate::log_file_laws::after_write;
use crate::page::{law_tag_round_trip, EPOCH_MAX, FRAME_MAX, TAG_UNSET};
use crate::page_cache::CacheView;
use crate::pager::PagerView;
use crate::read::ReadPlan;
use crate::wal_shared::SharedView;

verus! {

/// Where a page starts in the database file: page 1 is at its start, and the others follow.
pub open spec fn page_place(page: int, page_size: int) -> int {
    (page - 1) * page_size
}

/// The database file after pages were written to it, in this order.
pub open spec fn database_after(
    file: Seq<u8>,
    written: Seq<(usize, Seq<u8>)>,
    page_size: int,
) -> Seq<u8>
    decreases written.len(),
{
    if written.len() == 0 {
        file
    } else {
        let (page, bytes) = written.last();
        after_write(
            database_after(file, written.drop_last(), page_size),
            page_place(page as int, page_size),
            bytes,
        )
    }
}

/// Page `page` as the database file has it.
pub open spec fn page_in_file(file: Seq<u8>, page: int, page_size: int) -> Seq<u8> {
    file.subrange(page_place(page, page_size), page_place(page, page_size) + page_size)
}

/// Whether page `page` is wholly in the database file.
pub open spec fn in_file(file: Seq<u8>, page: int, page_size: int) -> bool {
    page_place(page, page_size) + page_size <= file.len()
}

/// The pages are whole, and none is written twice.
pub open spec fn whole_distinct_pages(written: Seq<(usize, Seq<u8>)>, page_size: int) -> bool {
    &&& forall|i: int|
        #![trigger written[i]]
        0 <= i < written.len() ==> written[i].0 >= 1 && written[i].1.len() == page_size
    &&& forall|i: int, j: int|
        0 <= i < j < written.len() ==> (#[trigger] written[i]).0 != (#[trigger] written[j]).0
}

/// A page that is written is there afterwards, and no other page changes.
proof fn lemma_page_written(file: Seq<u8>, page: int, bytes: Seq<u8>, other: int, page_size: int)
    requires
        1 <= page,
        1 <= other,
        bytes.len() == page_size,
    ensures
        ({
            let after = after_write(file, page_place(page, page_size), bytes);
            &&& in_file(after, page, page_size)
            &&& page_in_file(after, page, page_size) == bytes
            &&& other != page && in_file(file, other, page_size) ==> in_file(
                after,
                other,
                page_size,
            ) && page_in_file(after, other, page_size) == page_in_file(file, other, page_size)
        }),
{
    let at = page_place(page, page_size);
    let there = page_place(other, page_size);
    let after = after_write(file, at, bytes);
    assert(0 <= at) by (nonlinear_arith)
        requires
            1 <= page,
            0 <= page_size,
            at == (page - 1) * page_size,
    ;
    assert(0 <= there) by (nonlinear_arith)
        requires
            1 <= other,
            0 <= page_size,
            there == (other - 1) * page_size,
    ;
    assert(page_in_file(after, page, page_size) =~= bytes);
    if other != page && in_file(file, other, page_size) {
        if other < page {
            assert(there + page_size <= at) by (nonlinear_arith)
                requires
                    other < page,
                    0 <= page_size,
                    there == (other - 1) * page_size,
                    at == (page - 1) * page_size,
            ;
        } else {
            assert(at + page_size <= there) by (nonlinear_arith)
                requires
                    page < other,
                    0 <= page_size,
                    there == (other - 1) * page_size,
                    at == (page - 1) * page_size,
            ;
        }
        assert(page_in_file(after, other, page_size) =~= page_in_file(file, other, page_size));
    }
}

/// A page that is not among those written to the database file stays as it is.
pub proof fn law_unwritten_page_stays(
    file: Seq<u8>,
    written: Seq<(usize, Seq<u8>)>,
    page_size: int,
    other: usize,
)
    requires
        whole_distinct_pages(written, page_size),
        0 <= page_size,
        1 <= other,
        in_file(file, other as int, page_size),
        forall|i: int| 0 <= i < written.len() ==> (#[trigger] written[i]).0 != other,
    ensures
        ({
            let after = database_after(file, written, page_size);
            &&& in_file(after, other as int, page_size)
            &&& page_in_file(after, other as int, page_size) == page_in_file(
                file,
                other as int,
                page_size,
            )
        }),
    decreases written.len(),
{
    if written.len() > 0 {
        let rest = written.drop_last();
        let (page, bytes) = written.last();
        assert(written[written.len() - 1] == written.last());
        assert forall|i: int| #![trigger rest[i]] 0 <= i < rest.len() implies rest[i] == written[i]
            && rest[i].0 >= 1 && rest[i].1.len() == page_size by {
            assert(rest[i] == written[i]);
        }
        law_unwritten_page_stays(file, rest, page_size, other);
        let before = database_after(file, rest, page_size);
        lemma_page_written(before, page as int, bytes, other as int, page_size);
    }
}

/// Pages that are written to the database file are there afterwards, each with its own bytes.
pub proof fn law_written_page_is_in_file(
    file: Seq<u8>,
    written: Seq<(usize, Seq<u8>)>,
    page_size: int,
    k: int,
)
    requires
        whole_distinct_pages(written, page_size),
        0 <= k < written.len(),
    ensures
        ({
            let after = database_after(file, written, page_size);
            &&& in_file(after, written[k].0 as int, page_size)
            &&& page_in_file(after, written[k].0 as int, page_size) == written[k].1
        }),
    decreases written.len(),
{
    let rest = written.drop_last();
    let (page, bytes) = written.last();
    assert(written[written.len() - 1] == written.last());
    assert forall|i: int| #![trigger rest[i]] 0 <= i < rest.len() implies rest[i] == written[i]
        && rest[i].0 >= 1 && rest[i].1.len() == page_size by {
        assert(rest[i] == written[i]);
    }
    let before = database_after(file, rest, page_size);
    if k < rest.len() {
        law_written_page_is_in_file(file, rest, page_size, k);
        assert(rest[k] == written[k]);
        assert(written[k].0 != written[written.len() - 1].0);
        lemma_page_written(before, page as int, bytes, written[k].0 as int, page_size);
    } else {
        lemma_page_written(before, page as int, bytes, page as int, page_size);
    }
}

/// What was read becomes the page's contents, byte for byte, wherever it was read from; nothing else
/// of the page but its being loaded, its lock and its frame changes. A page that was read from the
/// database file is in no frame, and one that was read from a frame is known to be in it. A read that
/// fails leaves the contents as they are.
pub proof fn law_read_bytes_are_the_pages_contents(
    v: PagerView,
    s: SharedView,
    id: usize,
    plan: ReadPlan,
    res: Result<(Seq<u8>, usize), CompletionError>,
)
    ensures
        ({
            let (page, r) = v.page_read(s, id, plan, res);
            let before = v.page(id);
            &&& !page.locked
            &&& page.id == before.id && page.dirty == before.dirty && page.pin_count
                == before.pin_count
            &&& r is Ok ==> {
                &&& res is Ok
                &&& page.loaded
                &&& page.buffer == Some(res->Ok_0.0)
            }
            &&& r is Err ==> page.buffer == before.buffer && page.loaded == before.loaded
            &&& r is Ok <==> res is Ok && (plan is Database || res->Ok_0.1 == res->Ok_0.0.len())
            &&& plan is Database && r is Ok ==> page.wal_tag == TAG_UNSET
            &&& plan matches ReadPlan::Frame { frame_id, .. } ==> {
                &&& r is Ok && frame_id <= FRAME_MAX && s.epoch <= EPOCH_MAX && !before.dirty
                    ==> page.valid_for_checkpoint(frame_id, s.epoch)
                &&& r is Err ==> page.wal_tag == TAG_UNSET
            }
        }),
{
    if let ReadPlan::Frame { frame_id, .. } = plan {
        law_tag_round_trip(frame_id, s.epoch);
    }
}

/// What was written to the database file for a page is what a later read of that page from the file
/// makes its contents.
pub proof fn law_written_page_is_read_back(
    v: PagerView,
    s: SharedView,
    file: Seq<u8>,
    written: Seq<(usize, Seq<u8>)>,
    page_size: int,
    k: int,
    n: usize,
)
    requires
        whole_distinct_pages(written, page_size),
        0 <= k < written.len(),
    ensures
        ({
            let id = written[k].0;
            let bytes = page_in_file(
                database_after(file, written, page_size),
                id as int,
                page_size,
            );
            let (page, r) = v.page_read(s, id, ReadPlan::Database, Ok((bytes, n)));
            &&& r is Ok
            &&& page.loaded
            &&& page.buffer == Some(written[k].1)
        }),
{
    law_written_page_is_in_file(file, written, page_size, k);
}

/// A checkpoint does not change what a page is read as. Let `held` say what each frame holds. Once
/// the pages that a checkpoint gathered were written to the database file, reading one of them from
/// the file gives it the bytes that its last frame holds, which are those that reading it from
/// that frame gives.
pub proof fn law_checkpointed_page_is_read_back(
    oc: OngoingView,
    c: CacheView,
    frames: Frames,
    held: spec_fn(u64) -> Seq<u8>,
    v: PagerView,
    s: SharedView,
    file: Seq<u8>,
    written: Seq<(usize, Seq<u8>)>,
    page_size: int,
    k: int,
    n: usize,
)
    requires
        true_to_frames(oc, held),
        cache_agrees(c, oc.work, s.epoch, held),
        is_work_list(oc.work, frames, oc.min_frame, oc.max_frame),
        forall|i: int| 0 <= i < oc.work.len() ==> (#[trigger] oc.work[i]).0 <= usize::MAX,
        whole_distinct_pages(written, page_size),
        0 <= k < written.len(),
        oc.pending.contains_key(written[k].0),
        oc.pending[written[k].0] == written[k].1,
    ensures
        ({
            let id = written[k].0;
            let bytes = page_in_file(
                database_after(file, written, page_size),
                id as int,
                page_size,
            );
            let frame = page_frame(frames, id as u64, oc.min_frame, oc.max_frame);
            let (from_file, _) = v.page_read(s, id, ReadPlan::Database, Ok((bytes, n)));
            &&& frame is Some
            &&& from_file.buffer == Some(held(frame->0))
            &&& forall|offset: u64, m: usize|
                m == held(frame->0).len() ==> #[trigger] v.page_read(
                    s,
                    id,
                    ReadPlan::Frame { frame_id: frame->0, offset },
                    Ok((held(frame->0), m)),
                ).0.buffer == from_file.buffer
        }),
{
    law_checkpoint_writes_what_frames_hold(oc, c, s.epoch, frames, held, written[k].0);
    law_written_page_is_in_file(file, written, page_size, k);
}

} // verus!
