//! Committing transactions, and frames that were made elsewhere.

use vstd::prelude::*;
use crate::bytes::{copy_bytes, copy_range};
use crate::checkpoint_state::{CheckpointMode, OngoingView};
use crate::commit::{CommitMode, CommitStep};
use crate::error::{InternalFault, LimboError};
use crate::page::PageView;
use crate::page_cache::{obstacle, up_to, PageMap};
use crate::pager::{Pager, PagerView};
use crate::pager_checkpoint::{CheckpointArgs, PagerCheckpointStep, StepResult};
use crate::pager_state::{CommitState, IOResult, IoOutcome, IoRequest, PagerCheckpoint};
use crate::rwlock::NO_LOCK_HELD;
use crate::transaction::WalFrameInfo;
use crate::wal::WalFile;
use crate::wal_append::{FrameInput, RawFrameStep};
use crate::wal_format::{frame_position, parse_wal_frame_header, WalFrameHeader, WAL_FRAME_HEADER_SIZE};
use crate::wal_shared::{SharedView, WalFileShared};

verus! {

/// Where a step leaves the commit of a transaction.
#[derive(Debug)]
pub enum CommitTxStep {
    /// The next step can follow at once.
    Continue,
    /// Something has to be done outside first.
    Io(IoRequest),
    /// The transaction is committed and over, and a schema that it changed can be made known. Unless
    /// it is finished, a checkpoint follows.
    Committed { finished: bool },
    /// There is nothing more to do.
    Done,
}

/// What the steps of a commit of a transaction tell.
pub type TxResult = Result<CommitTxStep, LimboError>;

impl PagerView {
    /// The checkpoint that follows a commit: whatever can be copied without waiting, with the
    /// cache kept.
    pub open spec fn auto_checkpoint(mode: CommitMode, salt_2: u32, db_file_size: u64) -> CheckpointArgs {
        CheckpointArgs {
            mode: CheckpointMode::Passive { upper_bound_inclusive: None },
            sync_mode: mode.sync_mode,
            clear_page_cache: false,
            salt_2,
            db_file_size,
        }
    }

    /// The locks of a checkpoint are held, and they are with the connection while it copies frames,
    /// and with the result after that.
    pub open spec fn one_guard(self, s: SharedView) -> bool {
        &&& self.result_guard_held(s)
        &&& self.wal matches Some(wal) ==> {
            &&& wal.checkpoint_guard matches Some(g) ==> g.held(s)
            &&& self.checkpoint_state.phase is Finalize || self.result_guard() is Some
                ==> wal.checkpoint_guard is None
        }
        &&& self.checkpoint_state.phase is Checkpoint ==> self.result_guard() is None
    }

    /// A step of the checkpoint that follows a commit. Whether it works or not, the commit is over
    /// with it.
    pub open spec fn after_commit(
        self,
        s: SharedView,
        args: CheckpointArgs,
        v: PagerView,
        t: SharedView,
        r: TxResult,
    ) -> bool {
        exists|u: PagerView, p: SharedView, q: StepResult| #[trigger]
            self.checkpoint_step(s, args, u, p, q) && match q {
                Ok(PagerCheckpointStep::Continue) => {
                    r == Ok::<CommitTxStep, LimboError>(CommitTxStep::Continue) && v == u && t == p
                },
                Ok(PagerCheckpointStep::Io(io)) => {
                    r == Ok::<CommitTxStep, LimboError>(CommitTxStep::Io(io)) && v == u && t == p
                },
                Ok(PagerCheckpointStep::Done(_)) => {
                    &&& r == Ok::<CommitTxStep, LimboError>(CommitTxStep::Done)
                    &&& u.commit_dropped(v)
                    &&& t == p
                },
                Err(_) => {
                    &&& r == Ok::<CommitTxStep, LimboError>(CommitTxStep::Done)
                    &&& v.commit_info.idle()
                    &&& v.wal matches Some(w) && w == (WalFile {
                        checkpoint_guard: None,
                        max_frame_read_lock_index: NO_LOCK_HELD,
                        syncing: false,
                        ongoing_checkpoint: w.ongoing_checkpoint,
                        ..u.wal->0
                    }) && w.ongoing_checkpoint@ == OngoingView::idle()
                    &&& v == (PagerView {
                        wal: v.wal,
                        commit_info: v.commit_info,
                        checkpoint_state: PagerCheckpoint::none(),
                        ..u
                    })
                    &&& t == WalFile::unguarded(u.wal->0.checkpoint_guard, u.result_dropped(p))
                },
            }
    }

    /// The end of a transaction whose pages are committed: its locks are given up.
    pub open spec fn tx_ended(self, s: SharedView, v: PagerView, t: SharedView, r: TxResult) -> bool {
        let wal = self.wal->0;
        let ended = PagerView {
            wal: Some(
                WalFile {
                    write_lock_held: false,
                    max_frame_read_lock_index: NO_LOCK_HELD,
                    ..wal
                },
            ),
            ..self
        };
        &&& t == wal.reader_gone(SharedView { write_lock: s.write_lock.released(), ..s })
        &&& if self.commit_info.state == CommitState::AutoCheckpoint {
            &&& v == ended
            &&& r == Ok::<CommitTxStep, LimboError>(CommitTxStep::Committed { finished: false })
        } else {
            &&& ended.commit_dropped(v)
            &&& r == Ok::<CommitTxStep, LimboError>(CommitTxStep::Committed { finished: true })
        }
    }

    /// A step of committing the pages of a transaction, and its end.
    pub open spec fn tx_step(
        self,
        s: SharedView,
        mode: CommitMode,
        encoded: Seq<FrameInput>,
        outcome: IoOutcome,
        v: PagerView,
        t: SharedView,
        r: TxResult,
    ) -> bool {
        exists|u: PagerView, p: SharedView, q: Result<CommitStep, LimboError>| #[trigger]
            self.commit_called(s, mode, encoded, outcome, u, p, q) && match q {
                Err(e) => r == Err::<CommitTxStep, LimboError>(e) && v == u && t == p,
                Ok(CommitStep::Continue) => {
                    r == Ok::<CommitTxStep, LimboError>(CommitTxStep::Continue) && v == u && t == p
                },
                Ok(CommitStep::Io(io)) => {
                    r == Ok::<CommitTxStep, LimboError>(CommitTxStep::Io(io)) && v == u && t == p
                },
                Ok(CommitStep::Done) => u.tx_ended(p, v, t, r),
            }
    }
}

impl Pager {
    /// Takes the next step of committing a transaction, unless it belongs to another statement or
    /// the database has no log. A checkpoint that is due follows when the transaction is over, so
    /// that it can copy this transaction's frames too; that it fails is no error.
    pub fn commit_tx(
        &mut self,
        shared: &mut WalFileShared,
        nested: bool,
        mode: CommitMode,
        encoded: &Vec<FrameInput>,
        outcome: IoOutcome,
        salt_2: u32,
        db_file_size: u64,
    ) -> (r: TxResult)
        requires
            old(self)@.wf(),
            !nested && old(self)@.wal is Some ==> {
                let wal = old(self)@.wal->0;
                &&& old(shared)@.wf()
                &&& if old(self)@.commit_info.state == CommitState::AutoCheckpoint {
                    &&& old(self)@.can_checkpoint(old(shared)@)
                    &&& old(self)@.one_guard(old(shared)@)
                } else {
                    &&& old(self)@.can_commit(old(shared)@, mode, encoded@, outcome)
                    &&& wal.locks_held(old(shared)@)
                    &&& wal.write_lock_held
                    &&& wal.checkpoint_guard is None
                }
            },
        ensures
            final(self)@.wf(),
            if nested || old(self)@.wal is None {
                &&& r == Ok::<CommitTxStep, LimboError>(CommitTxStep::Done)
                &&& final(self)@ == old(self)@
                &&& final(shared)@ == old(shared)@
            } else if old(self)@.commit_info.state == CommitState::AutoCheckpoint {
                old(self)@.after_commit(
                    old(shared)@,
                    PagerView::auto_checkpoint(mode, salt_2, db_file_size),
                    final(self)@,
                    final(shared)@,
                    r,
                )
            } else {
                old(self)@.tx_step(
                    old(shared)@,
                    mode,
                    encoded@,
                    outcome,
                    final(self)@,
                    final(shared)@,
                    r,
                )
            },
    {
        if nested {
            return Ok(CommitTxStep::Done);
        }
        if self.wal.is_none() {
            return Ok(CommitTxStep::Done);
        }
        let ghost before = self@;
        let ghost s = shared@;
        if let CommitState::AutoCheckpoint = self.commit_info.state {
            let args = CheckpointArgs {
                mode: CheckpointMode::Passive { upper_bound_inclusive: None },
                sync_mode: mode.sync_mode,
                clear_page_cache: false,
                salt_2,
                db_file_size,
            };
            let q = self.checkpoint(shared, args);
            let ghost q0 = q;
            let ghost u = self@;
            let ghost p = shared@;
            assert(before.checkpoint_step(s, args, u, p, q0));
            return match q {
                Ok(PagerCheckpointStep::Continue) => Ok(CommitTxStep::Continue),
                Ok(PagerCheckpointStep::Io(io)) => Ok(CommitTxStep::Io(io)),
                Ok(PagerCheckpointStep::Done(_)) => {
                    self.commit_dirty_pages_end();
                    Ok(CommitTxStep::Done)
                },
                Err(_) => {
                    proof {
                        lemma_failed_checkpoint_keeps_guard(before, s, args, u, p, q0);
                    }
                    self.commit_dirty_pages_end();
                    self.cleanup_after_auto_checkpoint_failure(shared);
                    Ok(CommitTxStep::Done)
                },
            };
        }
        let q = self.commit_dirty_pages(shared, mode, encoded, outcome);
        let ghost q0 = q;
        let ghost u = self@;
        let ghost p = shared@;
        assert(before.commit_called(s, mode, encoded@, outcome, u, p, q0));
        match q {
            Err(e) => Err(e),
            Ok(CommitStep::Continue) => Ok(CommitTxStep::Continue),
            Ok(CommitStep::Io(io)) => Ok(CommitTxStep::Io(io)),
            Ok(CommitStep::Done) => {
                proof {
                    lemma_commit_keeps_locks(before, s, mode, encoded@, outcome, u, p, q0);
                }
                self.end_tx(shared)
            },
        }
    }

    /// Gives up the locks of a transaction whose pages are committed.
    fn end_tx(&mut self, shared: &mut WalFileShared) -> (r: TxResult)
        requires
            old(self)@.wf(),
            old(shared)@.wf(),
            old(self)@.wal matches Some(wal) && wal.locks_held(old(shared)@) && wal.write_lock_held
                && wal.checkpoint_guard is None,
        ensures
            final(self)@.wf(),
            old(self)@.tx_ended(old(shared)@, final(self)@, final(shared)@, r),
    {
        let ghost before = self@;
        let mut wal = self.wal.take().unwrap();
        wal.end_write_tx(shared);
        wal.end_read_tx(shared);
        let ghost w = wal;
        self.wal = Some(wal);
        assert(self@ =~= (PagerView { wal: Some(w), ..before }));
        match self.commit_info.state {
            CommitState::AutoCheckpoint => Ok(CommitTxStep::Committed { finished: false }),
            _ => {
                self.commit_dirty_pages_end();
                Ok(CommitTxStep::Committed { finished: true })
            },
        }
    }
}

/// A commit does not touch the locks.
proof fn lemma_commit_keeps_locks(
    v: PagerView,
    s: SharedView,
    mode: CommitMode,
    encoded: Seq<FrameInput>,
    outcome: IoOutcome,
    u: PagerView,
    p: SharedView,
    r: Result<CommitStep, LimboError>,
)
    requires
        v.wal is Some,
        v.commit_called(s, mode, encoded, outcome, u, p, r),
        r == Ok::<CommitStep, LimboError>(CommitStep::Done),
        s.wf(),
        v.wal->0.locks_held(s),
        v.wal->0.write_lock_held,
        v.wal->0.checkpoint_guard is None,
    ensures
        p.wf(),
        u.wal matches Some(w) && w.locks_held(p) && w.write_lock_held && w.checkpoint_guard is None,
{
    let x = choose|x: PagerView| #[trigger]
        v.commit_from(x) && if x.spill_state is Idle {
            x.commit_step(s, mode, encoded, outcome, u, p, r)
        } else {
            exists|q: Result<IOResult<bool>, LimboError>| #[trigger]
                x.spill_step(s, mode.start, encoded, outcome, u, p, q) && match q {
                    Err(e) => r == Err::<CommitStep, LimboError>(e),
                    Ok(IOResult::IO(io)) => r == Ok::<CommitStep, LimboError>(CommitStep::Io(io)),
                    Ok(IOResult::Done(_)) => r == Ok::<CommitStep, LimboError>(
                        CommitStep::Continue,
                    ),
                }
        };
    assert(x.wal == v.wal);
}

/// The locks that a connection has for a checkpoint are held after one that failed.
proof fn lemma_failed_checkpoint_keeps_guard(
    v: PagerView,
    s: SharedView,
    args: CheckpointArgs,
    u: PagerView,
    p: SharedView,
    r: StepResult,
)
    requires
        v.wal is Some,
        v.checkpoint_step(s, args, u, p, r),
        r is Err,
        s.wf(),
        p.wf(),
        v.can_checkpoint(s),
        v.one_guard(s),
    ensures
        u.wal is Some,
        u.result_guard_held(p),
        u.wal->0.checkpoint_guard matches Some(g) ==> g.held(u.result_dropped(p)),
{
}

/// Whether a page is loaded or being loaded.
pub open spec fn in_use(page: PageView) -> bool {
    page.loaded || page.locked
}

/// Whether page `k` is one of these.
pub open spec fn among(k: usize, set: Set<u32>) -> bool {
    k <= u32::MAX && set.contains(k as u32)
}

/// The pages after those of the set were marked as clean; those that will never be loaded are
/// dropped.
pub open spec fn all_cleaned(pages: PageMap, set: Set<u32>) -> PageMap {
    Map::new(
        |k: usize| pages.contains_key(k) && (among(k, set) ==> in_use(pages[k])),
        |k: usize|
            if among(k, set) {
                pages[k].cleaned()
            } else {
                pages[k]
            },
    )
}

impl PagerView {
    /// The pager after the page of a raw frame took the place of the one in the cache.
    pub open spec fn page_replaced(self, id: usize, data: Seq<u8>) -> PagerView {
        let asked = self.with_cache(self.cache.asked(id));
        if self.cache.usable(id) {
            asked.with_cached(id, self.page(id).with_data(data))
        } else {
            asked
        }
    }

    /// The pager after a frame committed what was dirty.
    pub open spec fn all_committed_elsewhere(self) -> PagerView {
        PagerView {
            dirty: Set::empty(),
            ..self.with_pages(all_cleaned(self.cache.pages, self.dirty))
        }
    }

    /// The end of the insertion of a raw frame.
    pub open spec fn frame_taken(self, header: WalFrameHeader) -> PagerView {
        if header.db_size > 0 {
            self.all_committed_elsewhere()
        } else {
            self
        }
    }

    /// What the insertion of a raw frame does to the pages: from this pager to `v`.
    pub open spec fn frame_inserted(
        self,
        header: WalFrameHeader,
        data: Seq<u8>,
        v: PagerView,
        r: Result<IOResult<WalFrameInfo>, LimboError>,
    ) -> bool {
        let info = WalFrameInfo { page_no: header.page_number, db_size: header.db_size };
        let done = Ok::<IOResult<WalFrameInfo>, LimboError>(IOResult::Done(info));
        let replaced = self.page_replaced(header.page_number as usize, data);
        if header.page_number != 1 {
            r == done && v == replaced.frame_taken(header)
        } else if replaced.page1() is None {
            &&& r == Ok::<IOResult<WalFrameInfo>, LimboError>(
                IOResult::IO(IoRequest::ReadPage { page_no: 1 }),
            )
            &&& v == replaced
        } else {
            let read = replaced.with_cookie();
            let pages = read.cache.pages;
            let size = read.header().database_size as usize;
            if forall|k: usize| #[trigger]
                pages.contains_key(k) && k > size ==> obstacle(pages[k], k) is None {
                &&& r == done
                &&& v == read.with_pages(up_to(pages, size)).frame_taken(header)
            } else {
                exists|b: usize| #[trigger]
                    pages.contains_key(b) && b > size && obstacle(pages[b], b) is Some && (forall|
                        k: usize,
                    | #[trigger]
                        pages.contains_key(k) && size < k < b ==> obstacle(pages[k], k) is None)
                        && r == Err::<IOResult<WalFrameInfo>, LimboError>(
                        LimboError::InternalError(
                            InternalFault::CacheTruncate { reason: obstacle(pages[b], b)->0 },
                        ),
                    ) && v == read.with_pages(
                        pages.restrict(Set::new(|k: usize| k <= size || k >= b)),
                    )
            }
        }
    }
}

impl Pager {
    /// Decides how a raw frame, which was made elsewhere, gets into the log.
    pub fn plan_insert_frame(&self, shared: &WalFileShared, frame_no: u64, frame: &Vec<u8>) -> (r:
        Result<RawFrameStep, LimboError>)
        requires
            frame@.len() >= WAL_FRAME_HEADER_SIZE,
            frame_no >= 1,
            self@.wal matches Some(wal) ==> wal.max_frame < u64::MAX && frame_position(
                wal.max_frame + 1,
                shared@.header.page_size as int,
            ) <= u64::MAX,
        ensures
            match self@.wal {
                None => r matches Err(e) && e == LimboError::InternalError(InternalFault::NoWal),
                Some(wal) => {
                    let header = WalFrameHeader::decoded(frame@);
                    wal.raw_frame_step(
                        shared@,
                        frame_no,
                        header.page_number,
                        header.db_size,
                        frame@.subrange(WAL_FRAME_HEADER_SIZE as int, frame@.len() as int),
                        r,
                    )
                },
            },
    {
        match &self.wal {
            None => Err(LimboError::InternalError(InternalFault::NoWal)),
            Some(wal) => {
                let header = parse_wal_frame_header(frame.as_slice());
                let raw_page = copy_range(frame.as_slice(), WAL_FRAME_HEADER_SIZE, frame.len());
                wal.write_frame_raw(
                    shared,
                    frame_no,
                    header.page_number,
                    header.db_size,
                    &raw_page,
                )
            },
        }
    }

    /// Ends the insertion of a raw frame, which is in the log now: its page takes the place of the
    /// one in the cache; if it is page 1, pages beyond the database's end are dropped; if it
    /// commits, nothing is dirty any more.
    pub fn wal_insert_frame(&mut self, frame: &Vec<u8>) -> (r: Result<
        IOResult<WalFrameInfo>,
        LimboError,
    >)
        requires
            old(self)@.wf(),
            frame@.len() >= WAL_FRAME_HEADER_SIZE,
            ({
                let id = WalFrameHeader::decoded(frame@).page_number as usize;
                old(self)@.cache.usable(id) ==> old(self)@.has(id) && old(self)@.page(
                    id,
                ).data().len() == frame@.len() - WAL_FRAME_HEADER_SIZE
            }),
            old(self)@.page_replaced(
                WalFrameHeader::decoded(frame@).page_number as usize,
                frame@.subrange(WAL_FRAME_HEADER_SIZE as int, frame@.len() as int),
            ).header_readable(),
        ensures
            final(self)@.wf(),
            if old(self)@.wal is None {
                &&& r == Err::<IOResult<WalFrameInfo>, LimboError>(
                    LimboError::InternalError(InternalFault::NoWal),
                )
                &&& final(self)@ == old(self)@
            } else {
                old(self)@.frame_inserted(
                    WalFrameHeader::decoded(frame@),
                    frame@.subrange(WAL_FRAME_HEADER_SIZE as int, frame@.len() as int),
                    final(self)@,
                    r,
                )
            },
    {
        let ghost before = self@;
        if self.wal.is_none() {
            return Err(LimboError::InternalError(InternalFault::NoWal));
        }
        let header = parse_wal_frame_header(frame.as_slice());
        let raw_page = copy_range(frame.as_slice(), WAL_FRAME_HEADER_SIZE, frame.len());
        let id: usize = header.page_number as usize;
        let cached = self.page_cache.get(id).is_some();
        if cached {
            let mut page = self.page_cache.take(id);
            {
                let buf = page.inner.as_ptr();
                copy_bytes(buf, 0, raw_page.as_slice());
            }
            assert(page@.data() =~= raw_page@);
            self.page_cache.put(id, page);
        }
        assert(self@ =~= before.page_replaced(id, raw_page@));
        let info = WalFrameInfo { page_no: header.page_number, db_size: header.db_size };
        if header.page_number == 1 {
            let db_size: u32 = match self.with_header() {
                IOResult::IO(io) => {
                    return Ok(IOResult::IO(io));
                },
                IOResult::Done(h) => h.database_size,
            };
            let ghost read = self@;
            match self.page_cache.truncate(db_size as usize) {
                Err(reason) => {
                    proof {
                        self.page_cache.lemma_finite();
                        let b = choose|b: usize| #[trigger]
                            read.cache.pages.contains_key(b) && b > db_size && obstacle(
                                read.cache.pages[b],
                                b,
                            ) == Some(reason) && (forall|k: usize| #[trigger]
                                read.cache.pages.contains_key(k) && db_size < k < b ==> obstacle(
                                    read.cache.pages[k],
                                    k,
                                ) is None) && self@.cache == read.cache.with_pages(
                                read.cache.pages.restrict(
                                    Set::new(|k: usize| k <= db_size || k >= b),
                                ),
                            );
                        assert(read.cache.pages.contains_key(b));
                        assert(self@ =~= read.with_pages(
                            read.cache.pages.restrict(
                                Set::new(|k: usize| k <= db_size as usize || k >= b),
                            ),
                        ));
                    }
                    return Err(LimboError::InternalError(InternalFault::CacheTruncate { reason }));
                },
                Ok(()) => {},
            }
            proof {
                self.page_cache.lemma_finite();
            }
            assert(self@ =~= read.with_pages(up_to(read.cache.pages, db_size as usize)));
        }
        if header.is_commit_frame() {
            self.clean_dirty_pages();
        }
        Ok(IOResult::Done(info))
    }

    /// Marks the dirty pages in the cache as clean.
    fn clean_dirty_pages(&mut self)
        requires
            old(self)@.wf(),
        ensures
            final(self)@.wf(),
            final(self)@ == old(self)@.all_committed_elsewhere(),
    {
        let ghost before = self@;
        let list = self.dirty_pages.pages();
        let ghost mut done: Set<u32> = Set::empty();
        let mut i: usize = 0;
        assert(self@.cache.pages =~= all_cleaned(before.cache.pages, done));
        assert(list@.take(0).to_set() =~= done);
        while i < list.len()
            invariant
                i <= list@.len(),
                crate::bitmap::is_listing(list@, before.dirty),
                self@.wf(),
                done == list@.take(i as int).to_set(),
                self@ == before.with_pages(all_cleaned(before.cache.pages, done)),
            decreases list@.len() - i,
        {
            let page_id: u32 = list[i];
            let id: usize = page_id as usize;
            let ghost pages = self@.cache.pages;
            proof {
                let more = list@.take(i + 1);
                assert(more =~= list@.take(i as int).push(page_id));
                assert forall|x: u32| more.to_set().contains(x) <==> done.insert(page_id).contains(
                    x,
                ) by {
                    if done.contains(x) {
                        let j = choose|j: int|
                            0 <= j < list@.take(i as int).len() && list@.take(i as int)[j] == x;
                        assert(more[j] == x);
                    }
                    if x == page_id {
                        assert(more[i as int] == x);
                    }
                    if more.contains(x) {
                        let j = choose|j: int| 0 <= j < more.len() && more[j] == x;
                        if j < i {
                            assert(list@.take(i as int)[j] == x);
                        }
                    }
                }
                assert(more.to_set() =~= done.insert(page_id));
                assert(!done.contains(page_id)) by {
                    if done.contains(page_id) {
                        let j = choose|j: int|
                            0 <= j < list@.take(i as int).len() && list@.take(i as int)[j]
                                == page_id;
                        assert(list@[j] == list@[i as int]);
                    }
                }
            }
            let cached = self.page_cache.get(id).is_some();
            if cached {
                let mut page = self.page_cache.take(id);
                page.clear_dirty();
                self.page_cache.put(id, page);
            }
            proof {
                done = done.insert(page_id);
                assert(self@.cache.pages =~= all_cleaned(before.cache.pages, done));
            }
            i = i + 1;
        }
        assert(list@.take(list@.len() as int) =~= list@);
        assert(done =~= before.dirty);
        self.dirty_pages.clear();
        assert(self@ =~= before.all_committed_elsewhere());
    }
}

} // verus!
