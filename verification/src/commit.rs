//! Committing the dirty pages.
//!
//! The frames of a commit are built first, then written, then synced if need be, and only then made
//! visible. A failure before that leaves the log as it was.

use vstd::prelude::*;
use crate::bitmap::is_listing;
use crate::bytes::copy_range;
use crate::error::{CompletionError, InternalFault, LimboError};
use crate::flush::all_pending;
use crate::ondisk::{is_page_size, PageSize};
use crate::page_cache::PageMap;
use crate::pager::{Pager, PagerView};
use crate::pager_state::{CommitInfo, CommitState, IOResult, IoOutcome, IoRequest, LogStart,
    PageSource, SpillState, SyncMode};
use crate::read::ReadPlan;
use crate::wal::WalFile;
use crate::wal_append::{inputs, lemma_earlier_frame, with_batches, FrameInput, FrameMeta, PreparedFrames, IOV_MAX};
use crate::wal_format::frame_position;
use crate::wal_shared::{SharedView, WalFileShared};

verus! {

/// Where a step leaves a commit.
#[derive(Debug)]
pub enum CommitStep {
    /// The next step can follow at once.
    Continue,
    /// Something has to be done outside first.
    Io(IoRequest),
    /// The pages are committed, or there were none.
    Done,
}

/// How a commit is made.
#[derive(Debug, Clone, Copy, PartialEq, Eq, Structural)]
pub struct CommitMode {
    /// Whether the log is never copied on a commit, however long it is.
    pub auto_checkpoint_disabled: bool,
    pub sync_mode: SyncMode,
    /// Whether a failed sync is an error; otherwise nothing goes on after it.
    pub data_sync_retry: bool,
    pub start: LogStart,
}

/// How many batches `n` pages take.
pub open spec fn batch_count(n: int) -> int {
    (n + IOV_MAX - 1) / (IOV_MAX as int)
}

/// The pages of batch `i`.
pub open spec fn batch_pages(pages: Seq<(u32, Seq<u8>)>, i: int) -> Seq<(u32, Seq<u8>)> {
    let end = if (i + 1) * IOV_MAX < pages.len() {
        (i + 1) * IOV_MAX
    } else {
        pages.len() as int
    };
    pages.subrange(i * IOV_MAX, end)
}

/// The checksum and the frame that batch `i` goes on from.
pub open spec fn batch_start(batches: Seq<PreparedFrames>, i: int, wal: WalFile) -> (
    (u32, u32),
    u64,
) {
    if i == 0 {
        (wal.last_checksum, wal.max_frame)
    } else {
        (batches[i - 1].final_checksum, batches[i - 1].final_max_frame)
    }
}

/// The first `n` batches hold the pages' frames in order, each one chained from the one before; the
/// last frame of all carries the database's size.
pub open spec fn are_batches(
    batches: Seq<PreparedFrames>,
    n: int,
    s: SharedView,
    pages: Seq<(u32, Seq<u8>)>,
    db_size: u32,
    wal: WalFile,
) -> bool {
    &&& batches.len() == n
    &&& forall|i: int|
        #![trigger batches[i]]
        0 <= i < n ==> {
            let (checksum, frame) = batch_start(batches, i, wal);
            batches[i].is_batch_of(
                s,
                batch_pages(pages, i),
                if i + 1 == batch_count(pages.len() as int) {
                    db_size
                } else {
                    0
                },
                checksum,
                frame + 1,
            )
        }
}

/// The pages after the frames of a batch were committed.
pub open spec fn batch_committed(pages: PageMap, frames: Seq<FrameMeta>, epoch: u32) -> PageMap
    decreases frames.len(),
{
    if frames.len() == 0 {
        pages
    } else {
        let before = batch_committed(pages, frames.drop_last(), epoch);
        let id = frames.last().page_id as usize;
        if before.contains_key(id) {
            before.insert(id, before[id].cleaned().tagged(frames.last().frame_id, epoch))
        } else {
            before
        }
    }
}

/// The pages after several batches were committed.
pub open spec fn all_committed(pages: PageMap, batches: Seq<PreparedFrames>) -> PageMap
    decreases batches.len(),
{
    if batches.len() == 0 {
        pages
    } else {
        batch_committed(
            all_committed(pages, batches.drop_last()),
            batches.last().metadata@,
            batches.last().epoch,
        )
    }
}

/// The sources of the pages to be committed: the cache, or else a read.
pub open spec fn sources_of(
    sources: Seq<PageSource>,
    list: Seq<u32>,
    v: PagerView,
    s: SharedView,
) -> bool {
    &&& sources.len() == list.len()
    &&& forall|i: int|
        #![trigger sources[i]]
        0 <= i < list.len() ==> {
            let id = list[i] as usize;
            if v.cache.pages.contains_key(id) {
                sources[i] == PageSource::Cached(id)
            } else {
                sources[i] == (PageSource::Evicted {
                    page_id: id,
                    plan: v.plan_for(s, id as int, None),
                    data: None,
                })
            }
        }
}

/// Whether all reads are over.
pub open spec fn reads_over(sources: Seq<PageSource>) -> bool {
    forall|i: int|
        0 <= i < sources.len() ==> !((#[trigger] sources[i]) matches PageSource::Evicted {
            data: None,
            ..
        })
}

/// `e` is the first failure of a read.
pub open spec fn first_failure(sources: Seq<PageSource>, e: CompletionError) -> bool {
    exists|i: int|
        {
            &&& 0 <= i < sources.len()
            &&& #[trigger] sources[i] matches PageSource::Evicted { data: Some(Err(x)), .. }
                && x == e
            &&& forall|j: int| 0 <= j < i ==> !read_failed(#[trigger] sources[j])
        }
}

/// Whether a read failed.
pub open spec fn read_failed(source: PageSource) -> bool {
    source matches PageSource::Evicted { data: Some(Err(_)), .. }
}

/// Whether any page is read.
pub open spec fn any_evicted(sources: Seq<PageSource>) -> bool {
    exists|i: int| 0 <= i < sources.len() && (#[trigger] sources[i]) is Evicted
}

impl PagerView {
    /// The same with a commit elsewhere.
    pub open spec fn with_commit(self, info: CommitInfo) -> PagerView {
        PagerView { commit_info: info, ..self }
    }

    /// The same with a commit in another state.
    pub open spec fn with_commit_state(self, state: CommitState) -> PagerView {
        self.with_commit(CommitInfo { state, ..self.commit_info })
    }

    /// `v` is the same with no commit under way.
    pub open spec fn commit_dropped(self, v: PagerView) -> bool {
        &&& v.commit_info.idle()
        &&& v == self.with_commit(v.commit_info)
    }

    /// The pages' bytes fit the sources, and their frames fit the log.
    pub open spec fn can_prepare(self, s: SharedView, encoded: Seq<FrameInput>) -> bool {
        let wal = self.wal->0;
        let size = self.page_size as int;
        let sources = self.commit_info.page_sources@;
        &&& s.initialized
        &&& s.header.page_size == size
        &&& encoded.len() == sources.len()
        &&& forall|i: int|
            #![trigger encoded[i]]
            0 <= i < encoded.len() ==> {
                &&& encoded[i].page_id == sources[i].page()
                &&& encoded[i].data@.len() == size
                &&& sources[i] is Cached ==> self.has(sources[i].page())
            }
        &&& wal.max_frame + 1 + encoded.len() <= u64::MAX
        &&& frame_position(wal.max_frame + 1 + encoded.len(), size) <= u64::MAX
        &&& self.commit_info.prepared_frames@.len() == 0
    }

    /// What a step of a commit needs.
    pub open spec fn can_commit(
        self,
        s: SharedView,
        mode: CommitMode,
        encoded: Seq<FrameInput>,
        outcome: IoOutcome,
    ) -> bool {
        &&& self.wf()
        &&& if !(self.spill_state is Idle) {
            self.can_spill(s, encoded)
        } else {
            self.wal is Some ==> match self.commit_info.state {
                CommitState::PrepareWal => is_page_size(self.page_size as int),
                CommitState::GetDbSize => self.header_readable(),
                CommitState::ScanAndIssueReads { .. } => {
                    forall|id: u32| #[trigger]
                        self.dirty.contains(id) && !self.cache.pages.contains_key(id as usize)
                            ==> self.can_read(s, id as int, None)
                },
                CommitState::PrepareFrames { .. } => {
                    &&& is_page_size(self.page_size as int)
                    &&& self.can_prepare(s, encoded)
                    &&& encoded.len() > 0
                },
                CommitState::WaitSync => outcome is Failed ==> mode.data_sync_retry,
                CommitState::WalCommitDone => self.wal->0.transaction_count < u64::MAX,
                CommitState::AutoCheckpoint => false,
                _ => true,
            }
        }
    }

    /// The step that makes the frames visible.
    pub open spec fn frames_visible(
        self,
        s: SharedView,
        mode: CommitMode,
        v: PagerView,
        t: SharedView,
        r: Result<CommitStep, LimboError>,
    ) -> bool {
        let wal = self.wal->0;
        let batches = self.commit_info.prepared_frames@;
        let (checksum, frame) = if batches.len() == 0 {
            (wal.last_checksum, wal.max_frame)
        } else {
            (batches.last().final_checksum, batches.last().final_max_frame)
        };
        let count = (wal.transaction_count + 1) as u64;
        let due = !mode.auto_checkpoint_disabled && frame > wal.checkpoint_threshold + s.nbackfills;
        &&& r == Ok::<CommitStep, LimboError>(CommitStep::Done)
        &&& t == (SharedView {
            frames: with_batches(s.frames, batches),
            max_frame: frame,
            last_checksum: checksum,
            transaction_count: count,
            ..s
        })
        &&& v.commit_info.prepared_frames@.len() == 0
        &&& v == (PagerView {
            wal: Some(
                WalFile {
                    last_checksum: checksum,
                    max_frame: frame,
                    transaction_count: count,
                    ..wal
                },
            ),
            dirty: Set::empty(),
            commit_info: CommitInfo {
                state: if due {
                    CommitState::AutoCheckpoint
                } else {
                    self.commit_info.state
                },
                prepared_frames: v.commit_info.prepared_frames,
                ..self.commit_info
            },
            ..self.with_pages(all_committed(self.cache.pages, batches))
        })
    }

    /// A step of a commit, without a spill under way: from this pager and the log `s` to the
    /// pager `v` and the log `t`.
    pub open spec fn commit_inner(
        self,
        s: SharedView,
        mode: CommitMode,
        encoded: Seq<FrameInput>,
        outcome: IoOutcome,
        v: PagerView,
        t: SharedView,
        r: Result<CommitStep, LimboError>,
    ) -> bool {
        let wal = self.wal->0;
        match self.commit_info.state {
            CommitState::PrepareWal => if s.initialized {
                &&& r == Ok::<CommitStep, LimboError>(CommitStep::Continue)
                &&& v == self.with_commit_state(CommitState::GetDbSize)
                &&& t == s
            } else {
                let header = mode.start.header(s.header, PageSize::of(self.page_size as int));
                let sum = (header.checksum_1, header.checksum_2);
                &&& r matches Ok(CommitStep::Io(IoRequest::WriteWalHeader { bytes }))
                &&& bytes@ == header.encoded()
                &&& v == (PagerView {
                    wal: Some(WalFile { last_checksum: sum, max_frame: 0, ..wal }),
                    ..self.with_commit_state(CommitState::PrepareWalSync)
                })
                &&& t == (SharedView { header, last_checksum: sum, ..s })
            },
            CommitState::PrepareWalSync => {
                &&& t == s
                &&& match outcome {
                    IoOutcome::Pending => r == commit_waiting() && v == self,
                    IoOutcome::Failed(e) => r == commit_failed(e) && v == self,
                    IoOutcome::Succeeded => {
                        &&& r == Ok::<CommitStep, LimboError>(CommitStep::Io(IoRequest::SyncWal))
                        &&& v == self.with_commit_state(CommitState::WaitWalSync)
                    },
                }
            },
            CommitState::WaitWalSync => match outcome {
                IoOutcome::Pending => r == commit_waiting() && v == self && t == s,
                IoOutcome::Failed(e) => {
                    &&& r == commit_failed(e)
                    &&& v == self
                    &&& t == (SharedView { initialized: true, ..s })
                },
                IoOutcome::Succeeded => {
                    &&& r == Ok::<CommitStep, LimboError>(CommitStep::Continue)
                    &&& v == self.with_commit_state(CommitState::GetDbSize)
                    &&& t == (SharedView { initialized: true, ..s })
                },
            },
            CommitState::GetDbSize => {
                &&& t == s
                &&& if self.page1() is None {
                    &&& r == Ok::<CommitStep, LimboError>(
                        CommitStep::Io(IoRequest::ReadPage { page_no: 1 }),
                    )
                    &&& v == self
                } else {
                    &&& r == Ok::<CommitStep, LimboError>(CommitStep::Continue)
                    &&& v == self.with_cookie().with_commit_state(
                        CommitState::ScanAndIssueReads { db_size: self.header().database_size },
                    )
                }
            },
            CommitState::ScanAndIssueReads { db_size } => {
                &&& t == s
                &&& if self.dirty.is_empty() {
                    r == Ok::<CommitStep, LimboError>(CommitStep::Done) && v == self
                } else {
                    let sources = v.commit_info.page_sources;
                    &&& exists|list: Seq<u32>| #[trigger]
                        is_listing(list, self.dirty) && sources_of(sources@, list, self, s)
                    &&& if any_evicted(sources@) {
                        &&& r == Ok::<CommitStep, LimboError>(
                            CommitStep::Io(IoRequest::ReadEvicted),
                        )
                        &&& v == self.with_commit(
                            CommitInfo {
                                state: CommitState::WaitBatchedReads { db_size },
                                page_sources: sources,
                                ..self.commit_info
                            },
                        )
                    } else {
                        &&& r == Ok::<CommitStep, LimboError>(CommitStep::Continue)
                        &&& v == self.with_commit(
                            CommitInfo {
                                state: CommitState::PrepareFrames { db_size },
                                page_sources: sources,
                                ..self.commit_info
                            },
                        )
                    }
                }
            },
            CommitState::WaitBatchedReads { db_size } => {
                let sources = self.commit_info.page_sources@;
                &&& t == s
                &&& if !reads_over(sources) {
                    r == commit_waiting() && v == self
                } else if exists|i: int|
                    0 <= i < sources.len() && read_failed(#[trigger] sources[i]) {
                    &&& v == self
                    &&& r matches Err(LimboError::CompletionError(e)) && first_failure(sources, e)
                } else {
                    &&& r == Ok::<CommitStep, LimboError>(CommitStep::Continue)
                    &&& v == self.with_commit_state(CommitState::PrepareFrames { db_size })
                }
            },
            CommitState::PrepareFrames { db_size } => {
                &&& t == s
                &&& r == Ok::<CommitStep, LimboError>(CommitStep::Io(IoRequest::WriteCommitFrames))
                &&& are_batches(
                    v.commit_info.prepared_frames@,
                    batch_count(encoded.len() as int),
                    s,
                    inputs(encoded),
                    db_size,
                    wal,
                )
                &&& v == self.with_pages(
                    all_pending(self.cache.pages, inputs(encoded)),
                ).with_commit(
                    CommitInfo {
                        state: CommitState::WaitWrites,
                        prepared_frames: v.commit_info.prepared_frames,
                        ..self.commit_info
                    },
                )
            },
            CommitState::WaitWrites => {
                &&& t == s
                &&& match outcome {
                    IoOutcome::Pending => r == commit_waiting() && v == self,
                    IoOutcome::Failed(e) => r == commit_failed(e) && v == self,
                    IoOutcome::Succeeded => if mode.sync_mode == SyncMode::Full {
                        &&& r == Ok::<CommitStep, LimboError>(CommitStep::Io(IoRequest::SyncWal))
                        &&& v == (PagerView {
                            wal: Some(WalFile { syncing: true, ..wal }),
                            ..self.with_commit_state(CommitState::WaitSync)
                        })
                    } else {
                        &&& r == Ok::<CommitStep, LimboError>(CommitStep::Continue)
                        &&& v == self.with_commit_state(CommitState::WalCommitDone)
                    },
                }
            },
            CommitState::WaitSync => {
                &&& t == s
                &&& match outcome {
                    IoOutcome::Pending => r == commit_waiting() && v == self,
                    IoOutcome::Failed(e) => {
                        &&& r == commit_failed(e)
                        &&& v == (PagerView {
                            wal: Some(WalFile { syncing: false, ..wal }),
                            ..self
                        })
                    },
                    IoOutcome::Succeeded => {
                        &&& r == Ok::<CommitStep, LimboError>(CommitStep::Continue)
                        &&& v == (PagerView {
                            wal: Some(WalFile { syncing: false, ..wal }),
                            ..self.with_commit_state(CommitState::WalCommitDone)
                        })
                    },
                }
            },
            CommitState::WalCommitDone => self.frames_visible(s, mode, v, t, r),
            CommitState::AutoCheckpoint => false,
        }
    }

    /// A step of a commit, without a spill under way; an error drops the commit.
    pub open spec fn commit_step(
        self,
        s: SharedView,
        mode: CommitMode,
        encoded: Seq<FrameInput>,
        outcome: IoOutcome,
        v: PagerView,
        t: SharedView,
        r: Result<CommitStep, LimboError>,
    ) -> bool {
        if self.wal is None {
            &&& r == Err::<CommitStep, LimboError>(LimboError::InternalError(InternalFault::NoWal))
            &&& t == s
            &&& self.commit_dropped(v)
        } else if r is Err {
            exists|u: PagerView| #[trigger]
                self.commit_inner(s, mode, encoded, outcome, u, t, r) && u.commit_dropped(v)
        } else {
            self.commit_inner(s, mode, encoded, outcome, v, t, r)
        }
    }
}

/// Nothing can be done before the last request is over.
pub open spec fn commit_waiting() -> Result<CommitStep, LimboError> {
    Ok(CommitStep::Io(IoRequest::Yield))
}

/// The last request failed.
pub open spec fn commit_failed(e: CompletionError) -> Result<CommitStep, LimboError> {
    Err(LimboError::CompletionError(e))
}

impl PagerView {
    /// What a commit goes on from: at its very start, nothing is left of an earlier one.
    pub open spec fn commit_from(self, u: PagerView) -> bool {
        if self.commit_info.state == CommitState::PrepareWal {
            self.commit_dropped(u)
        } else {
            u == self
        }
    }
}

impl PagerView {
    /// A step of a commit, or of the spill that has to end before it goes on: from this pager and
    /// the log `s` to the pager `v` and the log `t`.
    pub open spec fn commit_called(
        self,
        s: SharedView,
        mode: CommitMode,
        encoded: Seq<FrameInput>,
        outcome: IoOutcome,
        v: PagerView,
        t: SharedView,
        r: Result<CommitStep, LimboError>,
    ) -> bool {
        exists|u: PagerView| #[trigger]
            self.commit_from(u) && if u.spill_state is Idle {
                u.commit_step(s, mode, encoded, outcome, v, t, r)
            } else {
                exists|q: Result<IOResult<bool>, LimboError>| #[trigger]
                    u.spill_step(s, mode.start, encoded, outcome, v, t, q) && match q {
                        Err(e) => r == Err::<CommitStep, LimboError>(e),
                        Ok(IOResult::IO(io)) => r == Ok::<CommitStep, LimboError>(
                            CommitStep::Io(io),
                        ),
                        Ok(IOResult::Done(_)) => r == Ok::<CommitStep, LimboError>(
                            CommitStep::Continue,
                        ),
                    }
            }
    }
}

/// The pages from `start` up to `end` again.
fn copied_range(encoded: &Vec<FrameInput>, start: usize, end: usize) -> (r: Vec<FrameInput>)
    requires
        start <= end <= encoded@.len(),
    ensures
        inputs(r@) == inputs(encoded@).subrange(start as int, end as int),
{
    let mut r: Vec<FrameInput> = Vec::new();
    let mut i: usize = start;
    let ghost all = inputs(encoded@);
    while i < end
        invariant
            start <= i <= end <= encoded@.len(),
            all == inputs(encoded@),
            inputs(r@) == all.subrange(start as int, i as int),
        decreases end - i,
    {
        let bytes = encoded[i].data.as_slice();
        let data = copy_range(bytes, 0, bytes.len());
        assert(data@ =~= encoded@[i as int].data@);
        let ghost so_far = r@;
        r.push(FrameInput { page_id: encoded[i].page_id, data });
        assert(inputs(r@) =~= inputs(so_far).push(encoded@[i as int]@));
        assert(all.subrange(start as int, i + 1) =~= all.subrange(start as int, i as int).push(
            all[i as int],
        ));
        i = i + 1;
    }
    r
}

/// Builds the frames of all pages, in batches.
fn prepare_batches(
    wal: &WalFile,
    shared: &WalFileShared,
    encoded: &Vec<FrameInput>,
    page_sz: PageSize,
    db_size: u32,
) -> (r: Vec<PreparedFrames>)
    requires
        shared@.initialized,
        page_sz.valid(),
        shared@.header.page_size == page_sz.bytes(),
        forall|i: int|
            0 <= i < encoded@.len() ==> (#[trigger] encoded@[i]).data@.len() == page_sz.bytes(),
        wal.max_frame + 1 + encoded@.len() <= u64::MAX,
        frame_position(wal.max_frame + 1 + encoded@.len(), page_sz.bytes()) <= u64::MAX,
    ensures
        are_batches(
            r@,
            batch_count(encoded@.len() as int),
            shared@,
            inputs(encoded@),
            db_size,
            *wal,
        ),
{
    let mut r: Vec<PreparedFrames> = Vec::new();
    let n: usize = encoded.len();
    let ghost all = inputs(encoded@);
    let mut done: usize = 0;
    let mut i: usize = 0;
    while done < n
        invariant
            n == encoded@.len(),
            all == inputs(encoded@),
            done == (if i * IOV_MAX < n {
                i * IOV_MAX
            } else {
                n as int
            }),
            i <= batch_count(n as int),
            done == n ==> i == batch_count(n as int),
            shared@.initialized,
            page_sz.valid(),
            shared@.header.page_size == page_sz.bytes(),
            forall|k: int|
                0 <= k < encoded@.len() ==> (#[trigger] encoded@[k]).data@.len() == page_sz.bytes(),
            wal.max_frame + 1 + n <= u64::MAX,
            frame_position(wal.max_frame + 1 + n, page_sz.bytes()) <= u64::MAX,
            are_batches(r@, i as int, shared@, all, db_size, *wal),
            ({
                let (_, frame) = batch_start(r@, i as int, *wal);
                frame == wal.max_frame + done
            }),
        decreases n - done,
    {
        let end: usize = if n - done > IOV_MAX {
            done + IOV_MAX
        } else {
            n
        };
        let pages = copied_range(encoded, done, end);
        assert(inputs(pages@) == batch_pages(all, i as int));
        assert forall|k: int| 0 <= k < pages@.len() implies (#[trigger] pages@[k]).data@.len()
            == page_sz.bytes() by {
            assert(inputs(pages@)[k] == all[done + k]);
            assert(encoded@[done + k].data@.len() == page_sz.bytes());
        }
        assert(pages@.len() == inputs(pages@).len());
        proof {
            lemma_earlier_frame(
                wal.max_frame + 1 + done,
                wal.max_frame + 1 + n,
                page_sz.bytes(),
            );
        }
        let commit_flag: Option<u32> = if end == n {
            Some(db_size)
        } else {
            None
        };
        let last: usize = r.len();
        let prev: Option<&PreparedFrames> = if last == 0 {
            None
        } else {
            Some(&r[last - 1])
        };
        let ghost so_far = r@;
        let batch = wal.prepare_frames(shared, &pages, page_sz, commit_flag, prev);
        r.push(batch);
        proof {
            assert(so_far.len() == i);
            assert forall|k: int|
                #![trigger r@[k]]
                0 <= k < i + 1 implies {
                let (checksum, frame) = batch_start(r@, k, *wal);
                r@[k].is_batch_of(
                    shared@,
                    batch_pages(all, k),
                    if k + 1 == batch_count(n as int) {
                        db_size
                    } else {
                        0
                    },
                    checksum,
                    frame + 1,
                )
            } by {
                if k < i {
                    assert(r@[k] == so_far[k]);
                    if k > 0 {
                        assert(r@[k - 1] == so_far[k - 1]);
                    }
                } else if i > 0 {
                    assert(r@[i - 1] == so_far[i - 1]);
                }
            }
        }
        done = end;
        i = i + 1;
    }
    r
}

impl Pager {
    /// The pages of the commit under way, in order, once all reads are over.
    pub fn commit_input(&self) -> (r: Vec<FrameInput>)
        requires
            self@.wf(),
            forall|i: int|
                #![trigger self@.commit_info.page_sources@[i]]
                0 <= i < self@.commit_info.page_sources@.len() ==> {
                    let source = self@.commit_info.page_sources@[i];
                    &&& source.page() <= u32::MAX
                    &&& source matches PageSource::Cached(id) ==> self@.has(id)
                },
        ensures
            r@.len() == self@.commit_info.page_sources@.len(),
            forall|i: int|
                #![trigger r@[i]]
                0 <= i < r@.len() ==> {
                    let source = self@.commit_info.page_sources@[i];
                    &&& r@[i].page_id == source.page()
                    &&& match source {
                        PageSource::Cached(id) => r@[i].data@ == self@.page(id).data(),
                        PageSource::Evicted { data: Some(Ok(bytes)), .. } => r@[i].data@ == bytes@,
                        PageSource::Evicted { .. } => r@[i].data@.len() == 0,
                    }
                },
    {
        let mut r: Vec<FrameInput> = Vec::new();
        let mut i: usize = 0;
        while i < self.commit_info.page_sources.len()
            invariant
                i <= self.commit_info.page_sources@.len(),
                self@.wf(),
                forall|i: int|
                    #![trigger self@.commit_info.page_sources@[i]]
                    0 <= i < self@.commit_info.page_sources@.len() ==> {
                        let source = self@.commit_info.page_sources@[i];
                        &&& source.page() <= u32::MAX
                        &&& source matches PageSource::Cached(id) ==> self@.has(id)
                    },
                r@.len() == i,
                forall|k: int|
                    #![trigger r@[k]]
                    0 <= k < i ==> {
                        let source = self@.commit_info.page_sources@[k];
                        &&& r@[k].page_id == source.page()
                        &&& match source {
                            PageSource::Cached(id) => r@[k].data@ == self@.page(id).data(),
                            PageSource::Evicted { data: Some(Ok(bytes)), .. } => r@[k].data@
                                == bytes@,
                            PageSource::Evicted { .. } => r@[k].data@.len() == 0,
                        }
                    },
            decreases self.commit_info.page_sources@.len() - i,
        {
            let ghost source = self@.commit_info.page_sources@[i as int];
            assert(source.page() <= u32::MAX);
            let input = match &self.commit_info.page_sources[i] {
                PageSource::Cached(id) => {
                    let page = self.page_cache.peek(*id).unwrap();
                    let bytes = page.inner.as_slice();
                    let data = copy_range(bytes, 0, bytes.len());
                    assert(data@ =~= self@.page(*id).data());
                    FrameInput { page_id: *id as u32, data }
                },
                PageSource::Evicted { page_id, data: Some(Ok(bytes)), .. } => {
                    let data = copy_range(bytes.as_slice(), 0, bytes.len());
                    assert(data@ =~= bytes@);
                    FrameInput { page_id: *page_id as u32, data }
                },
                PageSource::Evicted { page_id, .. } => {
                    FrameInput { page_id: *page_id as u32, data: Vec::new() }
                },
            };
            r.push(input);
            i = i + 1;
        }
        r
    }

    /// Reports what came of the read of a page of the commit under way.
    pub fn commit_read_done(&mut self, index: usize, res: Result<Vec<u8>, CompletionError>)
        requires
            index < old(self)@.commit_info.page_sources@.len(),
            old(self)@.commit_info.page_sources@[index as int] is Evicted,
        ensures
            ({
                let source = old(self)@.commit_info.page_sources@[index as int];
                let sources = final(self)@.commit_info.page_sources;
                &&& sources@ == old(self)@.commit_info.page_sources@.update(
                    index as int,
                    PageSource::Evicted {
                        page_id: source->page_id,
                        plan: source->plan,
                        data: Some(res),
                    },
                )
                &&& final(self)@ == old(self)@.with_commit(
                    CommitInfo { page_sources: sources, ..old(self)@.commit_info },
                )
            }),
    {
        let ghost before = self@;
        let (page_id, plan): (usize, ReadPlan) = match &self.commit_info.page_sources[index] {
            PageSource::Evicted { page_id, plan, .. } => (*page_id, *plan),
            PageSource::Cached(id) => (*id, ReadPlan::Database),
        };
        self.commit_info.page_sources[index] = PageSource::Evicted {
            page_id,
            plan,
            data: Some(res),
        };
        assert(self@.savepoints =~= before.savepoints);
    }

    /// Takes the next step of committing the dirty pages. `encoded` are the pages that
    /// `commit_input` gave, as they go to disk, or while a spill is under way those that
    /// `spill_input` gave; `outcome` is what came of the last request.
    pub fn commit_dirty_pages(
        &mut self,
        shared: &mut WalFileShared,
        mode: CommitMode,
        encoded: &Vec<FrameInput>,
        outcome: IoOutcome,
    ) -> (r: Result<CommitStep, LimboError>)
        requires
            old(self)@.can_commit(old(shared)@, mode, encoded@, outcome),
        ensures
            final(self)@.wf(),
            old(self)@.commit_called(
                old(shared)@,
                mode,
                encoded@,
                outcome,
                final(self)@,
                final(shared)@,
                r,
            ),
    {
        let ghost before = self@;
        if let CommitState::PrepareWal = self.commit_info.state {
            self.commit_info.reset();
        }
        let ghost u = self@;
        assert(before.commit_from(u));
        let spilling = match &self.spill_state {
            SpillState::Idle => false,
            _ => true,
        };
        if spilling {
            assert(u.can_spill(shared@, encoded@));
            let q = self.try_spill_dirty_pages(shared, mode.start, encoded, outcome);
            return match q {
                Err(e) => Err(e),
                Ok(IOResult::IO(io)) => Ok(CommitStep::Io(io)),
                Ok(IOResult::Done(_)) => Ok(CommitStep::Continue),
            };
        }
        if self.wal.is_none() {
            self.commit_info.reset();
            return Err(LimboError::InternalError(InternalFault::NoWal));
        }
        let r = self.commit_dirty_pages_inner(shared, mode, encoded, outcome);
        if r.is_err() {
            let ghost failed = self@;
            self.commit_info.reset();
            assert(failed.commit_dropped(self@));
        }
        r
    }

    /// Ends a commit, well or not.
    pub fn commit_dirty_pages_end(&mut self)
        requires
            old(self)@.wf(),
        ensures
            final(self)@.wf(),
            old(self)@.commit_dropped(final(self)@),
    {
        self.commit_info.reset();
    }

    fn commit_dirty_pages_inner(
        &mut self,
        shared: &mut WalFileShared,
        mode: CommitMode,
        encoded: &Vec<FrameInput>,
        outcome: IoOutcome,
    ) -> (r: Result<CommitStep, LimboError>)
        requires
            old(self)@.can_commit(old(shared)@, mode, encoded@, outcome),
            old(self)@.spill_state is Idle,
            old(self)@.wal is Some,
        ensures
            final(self)@.wf(),
            old(self)@.commit_inner(
                old(shared)@,
                mode,
                encoded@,
                outcome,
                final(self)@,
                final(shared)@,
                r,
            ),
    {
        let ghost before = self@;
        match self.commit_info.state {
            CommitState::PrepareWal => self.commit_prepare_wal(
                shared,
                mode,
                Ghost(encoded@),
                Ghost(outcome),
            ),
            CommitState::PrepareWalSync => match outcome {
                IoOutcome::Pending => Ok(CommitStep::Io(IoRequest::Yield)),
                IoOutcome::Failed(e) => Err(LimboError::CompletionError(e)),
                IoOutcome::Succeeded => {
                    self.commit_info.state = CommitState::WaitWalSync;
                    Ok(CommitStep::Io(IoRequest::SyncWal))
                },
            },
            CommitState::WaitWalSync => match outcome {
                IoOutcome::Pending => Ok(CommitStep::Io(IoRequest::Yield)),
                IoOutcome::Failed(e) => {
                    let ghost s = shared@;
                    shared.initialized = true;
                    assert(shared@.slots =~= s.slots);
                    Err(LimboError::CompletionError(e))
                },
                IoOutcome::Succeeded => {
                    let ghost s = shared@;
                    shared.initialized = true;
                    assert(shared@.slots =~= s.slots);
                    self.commit_info.state = CommitState::GetDbSize;
                    Ok(CommitStep::Continue)
                },
            },
            CommitState::GetDbSize => match self.with_header() {
                IOResult::IO(io) => Ok(CommitStep::Io(io)),
                IOResult::Done(header) => {
                    let db_size: u32 = header.database_size;
                    self.commit_info.state = CommitState::ScanAndIssueReads { db_size };
                    Ok(CommitStep::Continue)
                },
            },
            CommitState::ScanAndIssueReads { db_size } => self.commit_scan(
                shared,
                db_size,
                Ghost(mode),
                Ghost(encoded@),
                Ghost(outcome),
            ),
            CommitState::WaitBatchedReads { db_size } => self.commit_reads(
                db_size,
                Ghost(shared@),
                Ghost(mode),
                Ghost(encoded@),
                Ghost(outcome),
            ),
            CommitState::PrepareFrames { db_size } => {
                let page_sz = self.get_page_size_unchecked();
                self.set_write_pending(encoded);
                assert forall|i: int| 0 <= i < encoded@.len() implies (#[trigger] encoded@[i]).data@.len()
                    == page_sz.bytes() by {}
                let batches = match &self.wal {
                    Some(wal) => prepare_batches(wal, shared, encoded, page_sz, db_size),
                    None => Vec::new(),
                };
                self.commit_info.prepared_frames = batches;
                self.commit_info.state = CommitState::WaitWrites;
                assert(self@.savepoints =~= before.savepoints);
                Ok(CommitStep::Io(IoRequest::WriteCommitFrames))
            },
            CommitState::WaitWrites => match outcome {
                IoOutcome::Pending => Ok(CommitStep::Io(IoRequest::Yield)),
                IoOutcome::Failed(e) => Err(LimboError::CompletionError(e)),
                IoOutcome::Succeeded => {
                    match mode.sync_mode {
                        SyncMode::Full => {
                            let mut wal = self.wal.take().unwrap();
                            wal.sync();
                            self.wal = Some(wal);
                            self.commit_info.state = CommitState::WaitSync;
                            assert(self@.savepoints =~= before.savepoints);
                            Ok(CommitStep::Io(IoRequest::SyncWal))
                        },
                        _ => {
                            self.commit_info.state = CommitState::WalCommitDone;
                            Ok(CommitStep::Continue)
                        },
                    }
                },
            },
            CommitState::WaitSync => match outcome {
                IoOutcome::Pending => Ok(CommitStep::Io(IoRequest::Yield)),
                IoOutcome::Failed(e) => {
                    let mut wal = self.wal.take().unwrap();
                    wal.sync_finished();
                    self.wal = Some(wal);
                    assert(self@.savepoints =~= before.savepoints);
                    Err(LimboError::CompletionError(e))
                },
                IoOutcome::Succeeded => {
                    let mut wal = self.wal.take().unwrap();
                    wal.sync_finished();
                    self.wal = Some(wal);
                    self.commit_info.state = CommitState::WalCommitDone;
                    assert(self@.savepoints =~= before.savepoints);
                    Ok(CommitStep::Continue)
                },
            },
            CommitState::WalCommitDone => self.commit_publish(shared, mode),
            CommitState::AutoCheckpoint => Ok(CommitStep::Done),
        }
    }

    fn commit_prepare_wal(
        &mut self,
        shared: &mut WalFileShared,
        mode: CommitMode,
        Ghost(encoded): Ghost<Seq<FrameInput>>,
        Ghost(outcome): Ghost<IoOutcome>,
    ) -> (r: Result<CommitStep, LimboError>)
        requires
            old(self)@.wf(),
            old(self)@.wal is Some,
            old(self)@.commit_info.state == CommitState::PrepareWal,
            is_page_size(old(self)@.page_size as int),
        ensures
            final(self)@.wf(),
            old(self)@.commit_inner(
                old(shared)@,
                mode,
                encoded,
                outcome,
                final(self)@,
                final(shared)@,
                r,
            ),
    {
        let ghost before = self@;
        let page_sz = self.get_page_size_unchecked();
        assert(page_sz == PageSize::of(before.page_size as int));
        let mut wal = self.wal.take().unwrap();
        let header = wal.prepare_wal_start(
            shared,
            page_sz,
            mode.start.big_endian,
            (mode.start.salt_1, mode.start.salt_2),
        );
        self.wal = Some(wal);
        assert(self@.savepoints =~= before.savepoints);
        match header {
            None => {
                self.commit_info.state = CommitState::GetDbSize;
                Ok(CommitStep::Continue)
            },
            Some(bytes) => {
                self.commit_info.state = CommitState::PrepareWalSync;
                Ok(CommitStep::Io(IoRequest::WriteWalHeader { bytes }))
            },
        }
    }

    /// Lists the dirty pages and finds out which have left the cache.
    fn commit_scan(
        &mut self,
        shared: &WalFileShared,
        db_size: u32,
        Ghost(mode): Ghost<CommitMode>,
        Ghost(encoded): Ghost<Seq<FrameInput>>,
        Ghost(outcome): Ghost<IoOutcome>,
    ) -> (r: Result<CommitStep, LimboError>)
        requires
            old(self)@.wf(),
            old(self)@.wal is Some,
            old(self)@.commit_info.state == (CommitState::ScanAndIssueReads { db_size }),
            forall|id: u32| #[trigger]
                old(self)@.dirty.contains(id) && !old(self)@.cache.pages.contains_key(id as usize)
                    ==> old(self)@.can_read(shared@, id as int, None),
        ensures
            final(self)@.wf(),
            old(self)@.commit_inner(
                shared@,
                mode,
                encoded,
                outcome,
                final(self)@,
                shared@,
                r,
            ),
    {
        let ghost before = self@;
        if self.dirty_pages.is_empty() {
            return Ok(CommitStep::Done);
        }
        let list = self.dirty_pages.pages();
        let mut sources: Vec<PageSource> = Vec::new();
        let mut evicted = false;
        let mut i: usize = 0;
        while i < list.len()
            invariant
                i <= list@.len(),
                self@ == before,
                before.wf(),
                before.wal is Some,
                is_listing(list@, before.dirty),
                forall|id: u32| #[trigger]
                    before.dirty.contains(id) && !before.cache.pages.contains_key(id as usize)
                        ==> before.can_read(shared@, id as int, None),
                sources_of(sources@, list@.take(i as int), before, shared@),
                evicted == any_evicted(sources@),
            decreases list@.len() - i,
        {
            let page_id: u32 = list[i];
            let id: usize = page_id as usize;
            assert(list@.contains(page_id));
            assert(before.dirty.contains(page_id));
            let ghost so_far = sources@;
            if self.page_cache.contains_key(id) {
                sources.push(PageSource::Cached(id));
                proof {
                    if any_evicted(so_far) {
                        let k = choose|k: int| 0 <= k < so_far.len() && (#[trigger] so_far[k]) is Evicted;
                        assert(sources@[k] is Evicted);
                    }
                    if any_evicted(sources@) {
                        let k = choose|k: int|
                            0 <= k < sources@.len() && (#[trigger] sources@[k]) is Evicted;
                        assert(so_far[k] is Evicted);
                    }
                }
            } else {
                let (_page, plan) = self.read_page_no_cache(shared, page_id as i64, None);
                sources.push(PageSource::Evicted { page_id: id, plan, data: None });
                evicted = true;
                assert(sources@[i as int] is Evicted);
            }
            proof {
                let taken = list@.take(i + 1);
                assert forall|k: int|
                    #![trigger sources@[k]]
                    0 <= k < taken.len() implies {
                    let id = taken[k] as usize;
                    if before.cache.pages.contains_key(id) {
                        sources@[k] == PageSource::Cached(id)
                    } else {
                        sources@[k] == (PageSource::Evicted {
                            page_id: id,
                            plan: before.plan_for(shared@, id as int, None),
                            data: None,
                        })
                    }
                } by {
                    if k < i {
                        assert(sources@[k] == so_far[k]);
                        assert(list@.take(i as int)[k] == taken[k]);
                    }
                }
            }
            i = i + 1;
        }
        assert(list@.take(list@.len() as int) =~= list@);
        self.commit_info.page_sources = sources;
        if evicted {
            self.commit_info.state = CommitState::WaitBatchedReads { db_size };
            assert(self@.savepoints =~= before.savepoints);
            return Ok(CommitStep::Io(IoRequest::ReadEvicted));
        }
        self.commit_info.state = CommitState::PrepareFrames { db_size };
        assert(self@.savepoints =~= before.savepoints);
        Ok(CommitStep::Continue)
    }

    /// Waits for the reads to be over.
    fn commit_reads(
        &mut self,
        db_size: u32,
        Ghost(s): Ghost<SharedView>,
        Ghost(mode): Ghost<CommitMode>,
        Ghost(encoded): Ghost<Seq<FrameInput>>,
        Ghost(outcome): Ghost<IoOutcome>,
    ) -> (r: Result<CommitStep, LimboError>)
        requires
            old(self)@.wf(),
            old(self)@.wal is Some,
            old(self)@.commit_info.state == (CommitState::WaitBatchedReads { db_size }),
        ensures
            final(self)@.wf(),
            old(self)@.commit_inner(s, mode, encoded, outcome, final(self)@, s, r),
    {
        let ghost before = self@;
        let ghost sources = self.commit_info.page_sources@;
        let mut failed: Option<CompletionError> = None;
        let mut i: usize = 0;
        while i < self.commit_info.page_sources.len()
            invariant
                i <= self.commit_info.page_sources@.len(),
                before == old(self)@,
                self@ == before,
                sources == self.commit_info.page_sources@,
                before.wf(),
                before.commit_info.state == (CommitState::WaitBatchedReads { db_size }),
                forall|j: int|
                    0 <= j < i ==> !((#[trigger] sources[j]) matches PageSource::Evicted {
                        data: None,
                        ..
                    }),
                match failed {
                    None => forall|j: int| 0 <= j < i ==> !read_failed(#[trigger] sources[j]),
                    Some(e) => first_failure(sources, e),
                },
            decreases self.commit_info.page_sources@.len() - i,
        {
            assert(sources[i as int] == self.commit_info.page_sources@[i as int]);
            match &self.commit_info.page_sources[i] {
                PageSource::Evicted { data: None, .. } => {
                    return Ok(CommitStep::Io(IoRequest::Yield));
                },
                PageSource::Evicted { data: Some(Err(e)), .. } => {
                    if failed.is_none() {
                        failed = Some(*e);
                        assert(first_failure(sources, *e));
                    }
                },
                _ => {},
            }
            i = i + 1;
        }
        match failed {
            Some(e) => Err(LimboError::CompletionError(e)),
            None => {
                self.commit_info.state = CommitState::PrepareFrames { db_size };
                assert(self@.savepoints =~= before.savepoints);
                Ok(CommitStep::Continue)
            },
        }
    }

    /// Makes the frames, which are on disk, visible.
    fn commit_publish(&mut self, shared: &mut WalFileShared, mode: CommitMode) -> (r: Result<
        CommitStep,
        LimboError,
    >)
        requires
            old(self)@.wf(),
            old(self)@.wal is Some,
            old(self)@.wal->0.transaction_count < u64::MAX,
        ensures
            final(self)@.wf(),
            old(self)@.frames_visible(old(shared)@, mode, final(self)@, final(shared)@, r),
    {
        let ghost before = self@;
        let mut wal = self.wal.take().unwrap();
        let mut batches: Vec<PreparedFrames> = Vec::new();
        std::mem::swap(&mut batches, &mut self.commit_info.prepared_frames);
        wal.commit_prepared_frames(shared, &batches);
        self.finalize_committed_pages(&batches);
        wal.finish_append_frames_commit(shared);
        self.dirty_pages.clear();
        let need_checkpoint = !mode.auto_checkpoint_disabled && wal.should_checkpoint(shared);
        self.wal = Some(wal);
        if need_checkpoint {
            self.commit_info.state = CommitState::AutoCheckpoint;
        }
        assert(self@.savepoints =~= before.savepoints);
        Ok(CommitStep::Done)
    }

    /// Marks the pages of committed frames as clean, each with its frame.
    fn finalize_committed_pages(&mut self, prepared: &Vec<PreparedFrames>)
        requires
            old(self)@.wf(),
        ensures
            final(self)@.wf(),
            final(self)@ == old(self)@.with_pages(
                all_committed(old(self)@.cache.pages, prepared@),
            ),
    {
        let ghost before = self@;
        let mut i: usize = 0;
        assert(prepared@.take(0) =~= Seq::empty());
        assert(self@ =~= before.with_pages(before.cache.pages));
        while i < prepared.len()
            invariant
                i <= prepared@.len(),
                self@.wf(),
                self@ == before.with_pages(
                    all_committed(before.cache.pages, prepared@.take(i as int)),
                ),
            decreases prepared@.len() - i,
        {
            assert(prepared@.take(i + 1).drop_last() =~= prepared@.take(i as int));
            self.finalize_batch(&prepared[i].metadata, prepared[i].epoch);
            i = i + 1;
        }
        assert(prepared@.take(prepared@.len() as int) =~= prepared@);
    }

    fn finalize_batch(&mut self, frames: &Vec<FrameMeta>, epoch: u32)
        requires
            old(self)@.wf(),
        ensures
            final(self)@.wf(),
            final(self)@ == old(self)@.with_pages(
                batch_committed(old(self)@.cache.pages, frames@, epoch),
            ),
    {
        let ghost before = self@;
        let mut i: usize = 0;
        assert(frames@.take(0) =~= Seq::empty());
        assert(self@ =~= before.with_pages(before.cache.pages));
        while i < frames.len()
            invariant
                i <= frames@.len(),
                self@.wf(),
                self@ == before.with_pages(
                    batch_committed(before.cache.pages, frames@.take(i as int), epoch),
                ),
            decreases frames@.len() - i,
        {
            let m = frames[i];
            let id: usize = m.page_id as usize;
            let ghost pages = self@.cache.pages;
            assert(frames@.take(i + 1).drop_last() =~= frames@.take(i as int));
            if self.page_cache.contains_key(id) {
                let mut page = self.page_cache.take(id);
                page.clear_dirty();
                page.set_wal_tag(m.frame_id, epoch);
                self.page_cache.put(id, page);
                assert(self@.cache.pages =~= pages.insert(
                    id,
                    pages[id].cleaned().tagged(m.frame_id, epoch),
                ));
            }
            i = i + 1;
        }
        assert(frames@.take(frames@.len() as int) =~= frames@);
    }
}

} // verus!
