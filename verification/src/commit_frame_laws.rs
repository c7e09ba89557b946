//! What the frames of a commit say.

use vstd::prelude::*;
use crate::bitmap::is_listing;
use crate::bytes::be32;
use crate::commit::{any_evicted, are_batches, batch_count, batch_pages, batch_start, sources_of,
    CommitMode, CommitStep};
use crate::db_header::law_header_fields_are_in_place;
use crate::error::LimboError;
use crate::pager::PagerView;
use crate::pager_state::{CommitState, IoOutcome, IoRequest, PageSource};
use crate::read::ReadPlan;
use crate::transaction_laws::law_log_header_layout;
use crate::wal::WalFile;
use crate::wal_append::{batch_checksum, inputs, size_in_frame, FrameInput, PreparedFrames};
use crate::wal_format::{ints, law_frame_layout};
use crate::wal_shared::SharedView;

verus! {

/// A call that takes a step of a commit.
pub struct CommitCall {
    pub before: PagerView,
    pub log: SharedView,
    pub mode: CommitMode,
    pub encoded: Seq<FrameInput>,
    pub outcome: IoOutcome,
    pub after: PagerView,
    pub log_after: SharedView,
    pub r: Result<CommitStep, LimboError>,
}

impl CommitCall {
    /// The call took a step, and it went well.
    pub open spec fn went_well(self) -> bool {
        &&& self.before.wal is Some
        &&& self.before.spill_state is Idle
        &&& self.before.commit_called(
            self.log,
            self.mode,
            self.encoded,
            self.outcome,
            self.after,
            self.log_after,
            self.r,
        )
        &&& self.r is Ok
    }

    /// This call goes on from where another one left the commit. In between, pages can have been
    /// read.
    pub open spec fn follows(self, last: CommitCall) -> bool {
        let then = last.after.commit_info;
        let now = self.before.commit_info;
        &&& now.state == then.state
        &&& now.page_sources@.len() == then.page_sources@.len()
        &&& forall|i: int|
            #![trigger now.page_sources@[i]]
            0 <= i < now.page_sources@.len() ==> now.page_sources@[i].page()
                == then.page_sources@[i].page()
    }

    pub open spec fn state(self) -> CommitState {
        self.before.commit_info.state
    }
}

/// Calls that take a commit from the moment it finds out the database's size, with page 1 at hand,
/// to the moment it builds its frames.
pub open spec fn commit_run(calls: Seq<CommitCall>) -> bool {
    &&& calls.len() > 1
    &&& forall|i: int| 0 <= i < calls.len() ==> (#[trigger] calls[i]).went_well()
    &&& forall|i: int|
        #![trigger calls[i]]
        1 <= i < calls.len() ==> calls[i].follows(calls[i - 1])
    &&& calls[0].state() == CommitState::GetDbSize
    &&& calls[0].before.page1() is Some
    &&& calls[0].before.page1()->0.data().len() >= 100
    &&& calls.last().state() is PrepareFrames
    &&& forall|i: int|
        1 <= i < calls.len() - 1 ==> !((#[trigger] calls[i]).state() is PrepareFrames)
}

/// The size that a commit has in mind in this state.
pub open spec fn size_in_mind(state: CommitState) -> Option<u32> {
    match state {
        CommitState::ScanAndIssueReads { db_size } => Some(db_size),
        CommitState::WaitBatchedReads { db_size } => Some(db_size),
        CommitState::PrepareFrames { db_size } => Some(db_size),
        _ => None,
    }
}

/// The step that finds out the size takes it from page 1.
proof fn lemma_size_is_found(call: CommitCall)
    requires
        call.went_well(),
        call.state() == CommitState::GetDbSize,
        call.before.page1() is Some,
        call.before.page1()->0.data().len() >= 100,
    ensures
        size_in_mind(call.after.commit_info.state) matches Some(n) && n == be32(
            call.before.page1()->0.data(),
            28,
        ),
        call.after.commit_info.state is ScanAndIssueReads,
{
    law_header_fields_are_in_place(call.before.page1()->0.data());
}

/// Until the frames are built, a step keeps the size in mind.
proof fn lemma_step_keeps_size(call: CommitCall)
    requires
        call.went_well(),
        call.state() is ScanAndIssueReads || call.state() is WaitBatchedReads,
    ensures
        size_in_mind(call.after.commit_info.state) == size_in_mind(call.state()),
{
}

/// From its second call on, a run has the size in mind that page 1 had.
proof fn lemma_size_stays(calls: Seq<CommitCall>, i: int)
    requires
        commit_run(calls),
        1 <= i < calls.len(),
    ensures
        size_in_mind(calls[i].state()) matches Some(n) && n == be32(
            calls[0].before.page1()->0.data(),
            28,
        ),
    decreases i,
{
    let last = calls[i - 1];
    assert(last.went_well());
    assert(calls[i].follows(last));
    if i > 1 {
        lemma_size_stays(calls, i - 1);
        assert(!(last.state() is PrepareFrames));
        lemma_step_keeps_size(last);
    } else {
        lemma_size_is_found(last);
    }
}

/// What frame `k` of batch `i` says.
pub open spec fn frame_says(
    frame: Seq<u8>,
    page: (u32, Seq<u8>),
    db_size: int,
    log: SharedView,
) -> bool {
    &&& frame.len() == 24 + page.1.len()
    &&& be32(frame, 0) == page.0
    &&& be32(frame, 4) == db_size
    &&& be32(frame, 8) == log.header.salt_1
    &&& be32(frame, 12) == log.header.salt_2
    &&& frame.subrange(24, frame.len() as int) == page.1
}

/// What frame `k` of a batch says.
pub proof fn lemma_batch_says(
    batch: PreparedFrames,
    s: SharedView,
    pages: Seq<(u32, Seq<u8>)>,
    last: u32,
    c: (u32, u32),
    first: int,
    k: int,
)
    requires
        batch.is_batch_of(s, pages, last, c, first),
        0 <= k < batch.bufs@.len(),
    ensures
        batch.bufs@.len() == pages.len(),
        frame_says(
            batch.bufs@[k]@,
            pages[k],
            if k + 1 == pages.len() {
                last as int
            } else {
                0
            },
            s,
        ),
{
    law_frame_layout(
        s.header,
        batch_checksum(s.header, pages, last, ints(c), k as nat),
        pages[k].0,
        size_in_frame(pages.len(), k, last),
        pages[k].1,
    );
}

/// The pages of batch `i` are those from 1024 times `i` on.
proof fn lemma_part(pages: Seq<(u32, Seq<u8>)>, i: int, k: int)
    requires
        0 <= i < batch_count(pages.len() as int),
    ensures
        ({
            let part = batch_pages(pages, i);
            &&& part.len() > 0
            &&& i * 1024 + part.len() <= pages.len()
            &&& i + 1 == batch_count(pages.len() as int) <==> i * 1024 + part.len() == pages.len()
            &&& 0 <= k < part.len() ==> part[k] == pages[i * 1024 + k]
        }),
{
}

/// Each frame of the batches says of what page it is, and only the very last one says how many pages
/// the database has.
proof fn lemma_batches_say(
    batches: Seq<PreparedFrames>,
    s: SharedView,
    pages: Seq<(u32, Seq<u8>)>,
    db_size: u32,
    wal: WalFile,
    i: int,
    k: int,
)
    requires
        are_batches(batches, batch_count(pages.len() as int), s, pages, db_size, wal),
        0 <= i < batches.len(),
        0 <= k < batches[i].bufs@.len(),
    ensures
        i * 1024 + k < pages.len(),
        i + 1 == batches.len() && k + 1 == batches[i].bufs@.len() <==> i * 1024 + k + 1
            == pages.len(),
        frame_says(
            batches[i].bufs@[k]@,
            pages[i * 1024 + k],
            if i * 1024 + k + 1 == pages.len() {
                db_size as int
            } else {
                0
            },
            s,
        ),
{
    let part = batch_pages(pages, i);
    let last = if i + 1 == batch_count(pages.len() as int) {
        db_size
    } else {
        0u32
    };
    let (checksum, frame) = batch_start(batches, i, wal);
    lemma_part(pages, i, k);
    lemma_batch_says(batches[i], s, part, last, checksum, frame + 1, k);
}

/// The last frame of a commit carries the size that the database has according to page 1, whatever
/// else its header says, and no other frame carries a size. Each frame carries the number and the
/// bytes of its page, in the order of the pages, and the salts of the log.
pub proof fn law_last_frame_carries_the_size(calls: Seq<CommitCall>, i: int, k: int)
    requires
        commit_run(calls),
        0 <= i < calls.last().after.commit_info.prepared_frames@.len(),
        0 <= k < calls.last().after.commit_info.prepared_frames@[i].bufs@.len(),
    ensures
        ({
            let page1 = calls[0].before.page1()->0.data();
            let call = calls.last();
            let batches = call.after.commit_info.prepared_frames@;
            let frame = batches[i].bufs@[k]@;
            let at = i * 1024 + k;
            &&& call.r == Ok::<CommitStep, LimboError>(
                CommitStep::Io(IoRequest::WriteCommitFrames),
            )
            &&& at < call.encoded.len()
            &&& i + 1 == batches.len() && k + 1 == batches[i].bufs@.len() <==> at + 1
                == call.encoded.len()
            &&& be32(frame, 0) == call.encoded[at].page_id
            &&& be32(frame, 4) == (if at + 1 == call.encoded.len() {
                be32(page1, 28)
            } else {
                0
            })
            &&& be32(frame, 8) == call.log.header.salt_1
            &&& be32(frame, 12) == call.log.header.salt_2
            &&& frame.subrange(24, frame.len() as int) == call.encoded[at].data@
        }),
{
    let call = calls.last();
    let n = calls.len() - 1;
    assert(calls[n] == call);
    assert(call.went_well());
    lemma_size_stays(calls, n);
    let pages = inputs(call.encoded);
    lemma_batches_say(
        call.after.commit_info.prepared_frames@,
        call.log,
        pages,
        size_in_mind(call.state())->0,
        call.before.wal->0,
        i,
        k,
    );
    assert(pages[i * 1024 + k] == call.encoded[i * 1024 + k]@);
}

/// The size in the last frame of a commit is the one in the page 1 that the commit writes, if it
/// writes page 1 as it was when the size was found out: whoever reads the log finds the same size in
/// both.
pub proof fn law_size_agrees_with_committed_page1(calls: Seq<CommitCall>, j: int)
    requires
        commit_run(calls),
        0 <= j < calls.last().encoded.len(),
        calls.last().encoded[j].page_id == 1,
        calls.last().encoded[j].data@ == calls[0].before.page1()->0.data(),
        calls.last().after.commit_info.prepared_frames@.len() > 0,
        calls.last().after.commit_info.prepared_frames@.last().bufs@.len() > 0,
    ensures
        be32(calls.last().after.commit_info.prepared_frames@.last().bufs@.last()@, 4) == be32(
            calls.last().encoded[j].data@,
            28,
        ),
{
    let batches = calls.last().after.commit_info.prepared_frames@;
    let i = batches.len() - 1;
    assert(batches.last() == batches[i]);
    let k = batches[i].bufs@.len() - 1;
    law_last_frame_carries_the_size(calls, i, k);
}

/// While pages are read, a step keeps the list of pages.
proof fn lemma_step_keeps_sources(call: CommitCall)
    requires
        call.went_well(),
        call.state() is WaitBatchedReads,
    ensures
        call.after.commit_info.page_sources == call.before.commit_info.page_sources,
        !(call.after.commit_info.state is ScanAndIssueReads),
{
}

/// Once pages are listed, the list is not made again.
proof fn lemma_listed_once(call: CommitCall)
    requires
        call.went_well(),
        call.state() is ScanAndIssueReads,
        !call.before.dirty.is_empty(),
    ensures
        !(call.after.commit_info.state is ScanAndIssueReads),
{
}

/// The pages to be committed stay those that were listed.
proof fn lemma_sources_stay(calls: Seq<CommitCall>, i: int, k: int)
    requires
        commit_run(calls),
        !calls[1].before.dirty.is_empty(),
        2 <= i < calls.len(),
    ensures
        ({
            let then = calls[1].after.commit_info.page_sources@;
            let now = calls[i].before.commit_info.page_sources@;
            &&& !(calls[i].state() is ScanAndIssueReads)
            &&& now.len() == then.len()
            &&& 0 <= k < now.len() ==> now[k].page() == then[k].page()
        }),
    decreases i,
{
    let last = calls[i - 1];
    assert(last.went_well());
    assert(calls[i].follows(last));
    if i > 2 {
        lemma_sources_stay(calls, i - 1, k);
        lemma_size_stays(calls, i - 1);
        assert(!(last.state() is PrepareFrames));
        lemma_step_keeps_sources(last);
    } else {
        lemma_starts_with_scan(calls);
        lemma_listed_once(last);
    }
}

proof fn lemma_starts_with_scan(calls: Seq<CommitCall>)
    requires
        commit_run(calls),
    ensures
        calls[1].state() is ScanAndIssueReads,
{
    assert(calls[0].went_well());
    assert(calls[1].follows(calls[0]));
    lemma_size_is_found(calls[0]);
}

/// A commit writes a frame for every dirty page and for no other page, one for each, in the order of
/// their numbers.
pub proof fn law_commit_takes_every_dirty_page(calls: Seq<CommitCall>, id: u32)
    requires
        commit_run(calls),
        !calls[1].before.dirty.is_empty(),
        calls.last().before.can_prepare(calls.last().log, calls.last().encoded),
    ensures
        ({
            let encoded = calls.last().encoded;
            &&& calls[1].before.dirty.contains(id) <==> exists|k: int|
                0 <= k < encoded.len() && (#[trigger] encoded[k]).page_id == id
            &&& forall|j: int, k: int|
                0 <= j < k < encoded.len() ==> (#[trigger] encoded[j]).page_id < (
                #[trigger] encoded[k]).page_id
        }),
{
    let scan = calls[1];
    let call = calls.last();
    let n = calls.len() - 1;
    let encoded = call.encoded;
    assert(calls[n] == call);
    assert(scan.went_well());
    lemma_starts_with_scan(calls);
    assert(n >= 2);
    let then = scan.after.commit_info.page_sources@;
    let list = choose|list: Seq<u32>| #[trigger]
        is_listing(list, scan.before.dirty) && sources_of(then, list, scan.before, scan.log);
    assert forall|k: int| 0 <= k < encoded.len() implies (#[trigger] encoded[k]).page_id == list[k] by {
        lemma_sources_stay(calls, n, k);
        assert(then[k].page() == list[k] as usize);
        assert(call.before.commit_info.page_sources@[k].page() == then[k].page());
    }
    lemma_sources_stay(calls, n, 0);
    assert(encoded.len() == list.len());
    if scan.before.dirty.contains(id) {
        assert(list.contains(id));
        let k = choose|k: int| 0 <= k < list.len() && list[k] == id;
        assert(encoded[k].page_id == id);
    }
    if exists|k: int| 0 <= k < encoded.len() && (#[trigger] encoded[k]).page_id == id {
        let k = choose|k: int| 0 <= k < encoded.len() && (#[trigger] encoded[k]).page_id == id;
        assert(list[k] == id);
        assert(list.contains(id));
    }
}

/// After a commit, a checkpoint is due just if the log has more frames that are not copied than the
/// connection's threshold, and checkpoints after commits are not switched off.
pub proof fn law_checkpoint_is_due_when_the_log_is_long(
    v: PagerView,
    s: SharedView,
    mode: CommitMode,
    w: PagerView,
    t: SharedView,
    r: Result<CommitStep, LimboError>,
)
    requires
        v.wal is Some,
        v.frames_visible(s, mode, w, t, r),
        v.commit_info.state == CommitState::WalCommitDone,
    ensures
        w.commit_info.state == CommitState::AutoCheckpoint <==> !mode.auto_checkpoint_disabled
            && t.max_frame - t.nbackfills > v.wal->0.checkpoint_threshold,
        t.nbackfills == s.nbackfills,
        t.transaction_count == v.wal->0.transaction_count + 1 || v.wal->0.transaction_count
            == u64::MAX,
        w.wal is Some && w.wal->0.max_frame == t.max_frame && w.wal->0.last_checksum
            == t.last_checksum && w.wal->0.transaction_count == t.transaction_count,
        w.dirty == Set::<u32>::empty(),
{
}

/// The log's header is on disk, and synced, before a commit builds its first frame: a commit that
/// finds it missing writes it, with the log's page size and salts and a checksum that seals it,
/// has it synced, and only then goes on. The log is empty then.
pub proof fn law_log_header_comes_first(
    v: PagerView,
    s: SharedView,
    mode: CommitMode,
    encoded: Seq<FrameInput>,
    outcome: IoOutcome,
    w: PagerView,
    t: SharedView,
    r: Result<CommitStep, LimboError>,
)
    requires
        v.wal is Some,
        v.spill_state is Idle,
        v.commit_step(s, mode, encoded, outcome, w, t, r),
        r is Ok,
    ensures
        w.commit_info.state == CommitState::GetDbSize && v.commit_info.state
            != CommitState::GetDbSize ==> t.initialized && (v.commit_info.state
            == CommitState::PrepareWal && s.initialized || v.commit_info.state
            == CommitState::WaitWalSync && outcome == IoOutcome::Succeeded),
        w.commit_info.state == CommitState::WaitWalSync && v.commit_info.state
            == CommitState::PrepareWalSync ==> outcome == IoOutcome::Succeeded && r == Ok::<
            CommitStep,
            LimboError,
        >(CommitStep::Io(IoRequest::SyncWal)),
        v.commit_info.state == CommitState::PrepareWal && !s.initialized ==> {
            &&& r matches Ok(CommitStep::Io(IoRequest::WriteWalHeader { bytes })) && {
                &&& bytes@.len() == 32
                &&& be32(bytes@, 8) == t.header.page_size
                &&& be32(bytes@, 12) == t.header.checkpoint_seq
                &&& be32(bytes@, 16) == t.header.salt_1
                &&& be32(bytes@, 20) == t.header.salt_2
                &&& be32(bytes@, 24) == t.last_checksum.0
                &&& be32(bytes@, 28) == t.last_checksum.1
            }
            &&& w.wal is Some && w.wal->0.max_frame == 0 && w.wal->0.last_checksum
                == t.last_checksum
        },
{
    if v.commit_info.state == CommitState::PrepareWal && !s.initialized {
        law_log_header_layout(t.header);
    }
}

/// A dirty page that has left the cache, as a spilled one may, is read again from the frame in which
/// the writer finds it, and from the database file only if it is in no frame. One that is in the
/// cache is taken from there.
pub proof fn law_evicted_pages_are_read_where_they_are(
    v: PagerView,
    s: SharedView,
    mode: CommitMode,
    encoded: Seq<FrameInput>,
    outcome: IoOutcome,
    w: PagerView,
    t: SharedView,
    r: Result<CommitStep, LimboError>,
    k: int,
)
    requires
        v.wal is Some,
        v.spill_state is Idle,
        v.commit_info.state is ScanAndIssueReads,
        v.commit_step(s, mode, encoded, outcome, w, t, r),
        !v.dirty.is_empty(),
        0 <= k < w.commit_info.page_sources@.len(),
        v.can_read(s, w.commit_info.page_sources@[k].page() as int, None),
    ensures
        ({
            let source = w.commit_info.page_sources@[k];
            let id = source.page();
            let frame = v.wal->0.found_frame(s, id as u64, None);
            &&& v.dirty.contains(id as u32)
            &&& (source is Cached) == v.cache.pages.contains_key(id)
            &&& source matches PageSource::Evicted { plan, data, .. } ==> {
                &&& data is None
                &&& (plan is Database) == (frame is None)
                &&& frame matches Some(f) ==> plan == (ReadPlan::Frame {
                    frame_id: f,
                    offset: (32 + (f - 1) * (s.header.page_size + 24) + 24) as u64,
                })
            }
        }),
{
    let sources = w.commit_info.page_sources@;
    let list = choose|list: Seq<u32>| #[trigger]
        is_listing(list, v.dirty) && sources_of(sources, list, v, s);
    assert(sources[k].page() == list[k] as usize);
    assert(list.contains(list[k]));
}

/// A commit is over only when its frames are visible, or at once if nothing is dirty.
pub proof fn law_commit_ends_when_all_is_visible(
    v: PagerView,
    s: SharedView,
    mode: CommitMode,
    encoded: Seq<FrameInput>,
    outcome: IoOutcome,
    w: PagerView,
    t: SharedView,
    r: Result<CommitStep, LimboError>,
)
    requires
        v.wal is Some,
        v.spill_state is Idle,
        v.commit_step(s, mode, encoded, outcome, w, t, r),
    ensures
        r == Ok::<CommitStep, LimboError>(CommitStep::Done) ==> {
            ||| v.commit_info.state == CommitState::WalCommitDone
            ||| v.commit_info.state is ScanAndIssueReads && v.dirty.is_empty() && w == v && t == s
        },
        v.commit_info.state is ScanAndIssueReads && v.dirty.is_empty() ==> r == Ok::<
            CommitStep,
            LimboError,
        >(CommitStep::Done),
        v.commit_info.state == CommitState::WalCommitDone ==> r == Ok::<CommitStep, LimboError>(
            CommitStep::Done,
        ) && w.dirty.is_empty(),
{
}

/// Frames are built only once every page that has left the cache was read again, and well.
pub proof fn law_frames_wait_for_reads(
    v: PagerView,
    s: SharedView,
    mode: CommitMode,
    encoded: Seq<FrameInput>,
    outcome: IoOutcome,
    w: PagerView,
    t: SharedView,
    r: Result<CommitStep, LimboError>,
    i: int,
)
    requires
        v.wal is Some,
        v.spill_state is Idle,
        v.commit_step(s, mode, encoded, outcome, w, t, r),
        r is Ok,
        w.commit_info.state is PrepareFrames,
        0 <= i < w.commit_info.page_sources@.len(),
    ensures
        ({
            let source = w.commit_info.page_sources@[i];
            ||| source is Cached
            ||| source matches PageSource::Evicted { data: Some(Ok(_)), .. }
        }),
{
    let source = w.commit_info.page_sources@[i];
    assert(v.commit_info.state is ScanAndIssueReads || v.commit_info.state is WaitBatchedReads);
    if v.commit_info.state is ScanAndIssueReads && !v.dirty.is_empty() {
        assert(!any_evicted(w.commit_info.page_sources@));
        assert(!(source is Evicted));
    } else if v.commit_info.state is WaitBatchedReads {
        assert(v.commit_info.page_sources@[i] == source);
    }
}

} // verus!
