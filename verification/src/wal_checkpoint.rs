//! Checkpoints: copying frames from the log to the database file.

use std::collections::BTreeMap;
use vstd::prelude::*;
use crate::checkpoint_state::{drained, first_error, last_read_error, waiting, CheckpointLocks,
    CheckpointMode, CheckpointResult, CheckpointState, InflightRead, InflightWriteBatch,
    OngoingView, ReadView, MAX_INFLIGHT_WRITES};
use crate::error::{CompletionError, InternalFault, LimboError};
use crate::frame_index::is_work_list;
use crate::page_cache::{CacheView, PageCache, PageMap};
use crate::rwlock::{LockView, READMARK_NOT_USED};
use crate::wal::{first_busy, readers_unblocked, WalFile};
use crate::wal_format::{frame_position, WAL_FRAME_HEADER_SIZE};
use crate::wal_shared::{increment, low32, next32, to_mark, SharedView, WalFileShared, READ_SLOTS};
use crate::write_batch::{pages_of, Pages};

verus! {

/// The slots from `i` on and the last frame that may be copied, after each reader in
/// these slots was looked at: one that is in use holds the checkpoint back at its mark; a
/// free one that lags is moved up, if it is slot 1, and otherwise taken out of use.
pub open spec fn safe_scan(slots: Seq<LockView>, safe: u64, i: int) -> (Seq<LockView>, u64)
    decreases READ_SLOTS - i,
{
    if i >= READ_SLOTS {
        (slots, safe)
    } else if slots[i].value < low32(safe) {
        if slots[i].free() {
            let mark = if i == 1 {
                low32(safe)
            } else {
                READMARK_NOT_USED
            };
            safe_scan(slots.update(i, LockView { value: mark, ..slots[i] }), safe, i + 1)
        } else {
            safe_scan(slots, slots[i].value as u64, i + 1)
        }
    } else {
        safe_scan(slots, safe, i + 1)
    }
}

/// The last frame that may be copied is not beyond the log's end nor beyond the mark of
/// any reader, and no reader's mark is moved.
pub proof fn law_readers_hold_checkpoint_back(slots: Seq<LockView>, max: u64)
    requires
        slots.len() == READ_SLOTS,
        max <= u32::MAX,
    ensures
        ({
            let (after, safe) = safe_scan(slots, max, 1);
            &&& safe <= max
            &&& after.len() == READ_SLOTS
            &&& after[0] == slots[0]
            &&& forall|i: int|
                1 <= i < READ_SLOTS && !(#[trigger] slots[i]).free() ==> after[i] == slots[i] && safe
                    <= slots[i].value
            &&& forall|i: int|
                0 <= i < READ_SLOTS ==> (#[trigger] after[i]).readers == slots[i].readers
                    && after[i].writer == slots[i].writer
        }),
{
    lemma_safe_scan(slots, max, 1);
}

proof fn lemma_safe_scan(slots: Seq<LockView>, safe: u64, i: int)
    requires
        slots.len() == READ_SLOTS,
        safe <= u32::MAX,
        1 <= i <= READ_SLOTS,
    ensures
        ({
            let (after, end) = safe_scan(slots, safe, i);
            &&& end <= safe
            &&& after.len() == READ_SLOTS
            &&& forall|j: int| 0 <= j < i ==> #[trigger] after[j] == slots[j]
            &&& forall|j: int|
                i <= j < READ_SLOTS && !(#[trigger] slots[j]).free() ==> after[j] == slots[j] && end
                    <= slots[j].value
            &&& forall|j: int|
                0 <= j < READ_SLOTS ==> (#[trigger] after[j]).readers == slots[j].readers
                    && after[j].writer == slots[j].writer
        }),
    decreases READ_SLOTS - i,
{
    if i < READ_SLOTS {
        if slots[i].value < low32(safe) {
            if slots[i].free() {
                let mark = if i == 1 {
                    low32(safe)
                } else {
                    READMARK_NOT_USED
                };
                let next = slots.update(i, LockView { value: mark, ..slots[i] });
                lemma_safe_scan(next, safe, i + 1);
                let (after, end) = safe_scan(next, safe, i + 1);
                assert forall|j: int| 0 <= j < i implies #[trigger] after[j] == slots[j] by {
                    assert(after[j] == next[j]);
                }
                assert forall|j: int|
                    i <= j < READ_SLOTS && !(#[trigger] slots[j]).free() implies after[j]
                    == slots[j] && end <= slots[j].value by {
                    assert(next[j] == slots[j]);
                }
                assert(after[i] == next[i]);
            } else {
                lemma_safe_scan(slots, slots[i].value as u64, i + 1);
            }
        } else {
            lemma_safe_scan(slots, safe, i + 1);
        }
    }
}

proof fn lemma_safe_scan_len(slots: Seq<LockView>, safe: u64, i: int)
    requires
        slots.len() == READ_SLOTS,
        0 <= i <= READ_SLOTS,
    ensures
        safe_scan(slots, safe, i).0.len() == READ_SLOTS,
    decreases READ_SLOTS - i,
{
    if i < READ_SLOTS {
        let mark = if i == 1 {
            low32(safe)
        } else {
            READMARK_NOT_USED
        };
        lemma_safe_scan_len(slots.update(i, LockView { value: mark, ..slots[i] }), safe, i + 1);
        lemma_safe_scan_len(slots, slots[i].value as u64, i + 1);
        lemma_safe_scan_len(slots, safe, i + 1);
    }
}

/// What a checkpoint wants done.
#[derive(Debug)]
pub enum CheckpointIo {
    /// The page in a frame is to be read from this offset of the log.
    ReadFrame { page_id: usize, frame_id: u64, offset: u64 },
    /// These pages are to be written to the database file.
    WritePages { pages: BTreeMap<usize, Vec<u8>> },
}

/// Where a step leaves a checkpoint.
#[derive(Debug)]
pub enum CheckpointStep {
    /// The next step can follow at once.
    Continue,
    /// The next step follows when all of this is done.
    Io(Vec<CheckpointIo>),
    /// The checkpoint is over.
    Done(CheckpointResult),
}

/// Whether the cache has the page just as it is in the frame.
pub open spec fn cached_for_checkpoint(c: CacheView, page: usize, frame: u64, epoch: u32) -> bool {
    c.pages.contains_key(page) && c.pages[page].valid_for_checkpoint(frame, epoch)
}

/// Every loaded page has its bytes.
pub open spec fn loaded_have_bytes(pages: PageMap) -> bool {
    forall|k: usize| #[trigger]
        pages.contains_key(k) && pages[k].loaded ==> pages[k].buffer is Some
}

/// The checkpoint after it went on through its list as far as its limits let it: a page that
/// the cache has as it is in its frame is gathered at once, any other is read.
pub open spec fn issue(oc: OngoingView, c: CacheView, epoch: u32) -> OngoingView
    decreases oc.work.len() - oc.current_page,
{
    if !oc.may_read() {
        oc
    } else {
        let (page_id, frame_id) = oc.work[oc.current_page as int];
        let page = page_id as usize;
        let next = (oc.current_page + 1) as usize;
        if oc.current_page + 1 > usize::MAX {
            oc
        } else if cached_for_checkpoint(c, page, frame_id, epoch) {
            issue(
                OngoingView {
                    pending: oc.pending.insert(page, c.pages[page].data()),
                    current_page: next,
                    ..oc
                },
                c,
                epoch,
            )
        } else {
            issue(
                OngoingView {
                    reads: oc.reads.push(ReadView { page_id: page, frame_id, outcome: None }),
                    current_page: next,
                    ..oc
                },
                c,
                epoch,
            )
        }
    }
}

/// Whether the gathered pages are written now.
pub open spec fn flushes(oc: OngoingView) -> bool {
    oc.writes.len() < MAX_INFLIGHT_WRITES && oc.flush_due()
}

/// The checkpoint after the gathered pages went out to be written, if it is time.
pub open spec fn flushed(oc: OngoingView) -> OngoingView {
    if flushes(oc) {
        OngoingView {
            pending: Pages::empty(),
            writes: oc.writes.push(InflightWriteBatch { done: false, err: None }),
            ..oc
        }
    } else {
        oc
    }
}

/// What is to be done: the reads from `from` on, and then the write, if there is one.
pub open spec fn is_io_list(
    list: Seq<CheckpointIo>,
    reads: Seq<ReadView>,
    from: int,
    write: Option<Pages>,
    page_size: int,
) -> bool {
    &&& list.len() == reads.len() - from + (if write is Some {
        1int
    } else {
        0
    })
    &&& forall|i: int|
        #![trigger list[i]]
        0 <= i < reads.len() - from ==> (list[i] matches CheckpointIo::ReadFrame {
            page_id,
            frame_id,
            offset,
        } && page_id == reads[from + i].page_id && frame_id == reads[from + i].frame_id && offset
            == frame_position(frame_id as int, page_size) + WAL_FRAME_HEADER_SIZE)
    &&& write matches Some(w) ==> (list.last() matches CheckpointIo::WritePages { pages }
        && pages_of(pages@) == w)
}

/// Every frame of the list is at an offset that fits.
pub open spec fn offsets_fit(work: Seq<(u64, u64)>, page_size: int) -> bool {
    forall|i: int|
        #![trigger work[i]]
        0 <= i < work.len() ==> work[i].1 >= 1 && frame_position(work[i].1 as int, page_size)
            + WAL_FRAME_HEADER_SIZE <= u64::MAX
}

impl WalFile {
    /// Whether the locks that the connection holds will do for `mode`.
    pub open spec fn guard_suits(guard: Option<CheckpointLocks>, mode: CheckpointMode) -> bool {
        ||| guard == Some(CheckpointLocks::Read0) && mode is Passive
        ||| guard == Some(CheckpointLocks::Writer) && mode.restarts()
    }

    /// The log without the locks of `guard`.
    pub open spec fn unguarded(guard: Option<CheckpointLocks>, s: SharedView) -> SharedView {
        match guard {
            Some(g) => g.given_up(s),
            None => s,
        }
    }

    /// Makes sure that the connection holds the locks that `mode` needs. Locks that do not
    /// suit are given up first.
    pub fn acquire_proper_checkpoint_guard(
        &mut self,
        shared: &mut WalFileShared,
        mode: CheckpointMode,
    ) -> (r: Result<(), LimboError>)
        requires
            old(shared)@.wf(),
            old(self).checkpoint_guard matches Some(g) ==> g.held(old(shared)@),
        ensures
            final(shared)@.wf(),
            final(self).checkpoint_guard matches Some(g) ==> g.held(final(shared)@),
            ({
                let s = old(shared)@;
                let needed = CheckpointLocks::needed(mode);
                let open = WalFile::unguarded(old(self).checkpoint_guard, s);
                if WalFile::guard_suits(old(self).checkpoint_guard, mode) {
                    &&& r is Ok
                    &&& final(shared)@ == s
                    &&& *final(self) == *old(self)
                } else if needed.available(open) {
                    &&& r is Ok
                    &&& final(shared)@ == needed.taken(open)
                    &&& *final(self) == (WalFile { checkpoint_guard: Some(needed), ..*old(self) })
                } else {
                    &&& r == Err::<(), LimboError>(LimboError::Busy)
                    &&& final(shared)@ == open
                    &&& *final(self) == (WalFile { checkpoint_guard: None, ..*old(self) })
                }
            }),
    {
        let needs_new_guard = match (self.checkpoint_guard, mode) {
            (Some(CheckpointLocks::Read0), CheckpointMode::Passive { .. }) => false,
            (Some(CheckpointLocks::Writer), CheckpointMode::Restart) => false,
            (Some(CheckpointLocks::Writer), CheckpointMode::Truncate { .. }) => false,
            _ => true,
        };
        if needs_new_guard {
            if let Some(guard) = self.checkpoint_guard.take() {
                guard.release(shared);
            }
            match CheckpointLocks::new(shared, mode) {
                Ok(guard) => {
                    self.checkpoint_guard = Some(guard);
                },
                Err(e) => {
                    return Err(e);
                },
            }
        }
        Ok(())
    }

    /// The last frame that may be copied to the database file: no frame that a reader
    /// might need in its older version there. Free slots that lag are brought up to date.
    pub fn determine_max_safe_checkpoint_frame(&self, shared: &mut WalFileShared) -> (r: u64)
        requires
            old(shared)@.wf(),
        ensures
            final(shared)@.wf(),
            ({
                let (slots, safe) = safe_scan(old(shared)@.slots, old(shared)@.max_frame, 1);
                &&& r == safe
                &&& final(shared)@ == old(shared)@.with_slots(slots)
            }),
    {
        let ghost before = shared@;
        let mut max_safe_frame: u64 = shared.max_frame;
        let mut i: usize = 1;
        assert(shared@ =~= before.with_slots(before.slots));
        while i < READ_SLOTS
            invariant
                1 <= i <= READ_SLOTS,
                before == old(shared)@,
                shared@.wf(),
                shared@ == before.with_slots(shared@.slots),
                safe_scan(before.slots, before.max_frame, 1) == safe_scan(
                    shared@.slots,
                    max_safe_frame,
                    i as int,
                ),
            decreases READ_SLOTS - i,
        {
            let ghost slots = shared@.slots;
            let this_mark: u32 = shared.mark(i);
            if this_mark < to_mark(max_safe_frame) {
                if shared.lock_slot(i) {
                    let val: u32 = if i == 1 {
                        to_mark(max_safe_frame)
                    } else {
                        READMARK_NOT_USED
                    };
                    shared.set_mark(i, val);
                    shared.unlock_slot(i);
                    proof {
                        let want = slots.update(
                            i as int,
                            LockView { value: val, ..slots[i as int] },
                        );
                        assert(slots[i as int].free());
                        assert(shared@.slots =~= want);
                        assert(shared@ =~= before.with_slots(shared@.slots));
                    }
                } else {
                    max_safe_frame = this_mark as u64;
                }
            }
            i = i + 1;
        }
        max_safe_frame
    }

    /// What the first step does.
    pub open spec fn start_post(
        before: &WalFile,
        s: SharedView,
        mode: CheckpointMode,
        after: &WalFile,
        t: SharedView,
        r: Result<CheckpointStep, LimboError>,
    ) -> bool {
        let open = WalFile::unguarded(before.checkpoint_guard, s);
        let suits = WalFile::guard_suits(before.checkpoint_guard, mode);
        let needed = CheckpointLocks::needed(mode);
        let locked = if suits {
            s
        } else {
            needed.taken(open)
        };
        let guard = if suits {
            before.checkpoint_guard
        } else {
            Some(needed)
        };
        let (slots, safe) = safe_scan(locked.slots, s.max_frame, 1);
        let oc = before.ongoing_checkpoint@;
        if s.max_frame <= s.nbackfills && !mode.restarts() {
            &&& r matches Ok(CheckpointStep::Done(result)) && result == CheckpointResult::of(
                s.max_frame,
                s.nbackfills,
                0,
            )
            &&& t == s
            &&& *after == *before
        } else if !suits && !needed.available(open) {
            &&& r matches Err(LimboError::Busy)
            &&& t == open
            &&& *after == (WalFile { checkpoint_guard: None, ..*before })
        } else if mode matches CheckpointMode::Truncate { upper_bound_inclusive: Some(bound) }
            && s.max_frame != bound {
            &&& r matches Err(LimboError::Busy)
            &&& t == locked.with_slots(slots)
            &&& *after == (WalFile { checkpoint_guard: guard, ..*before })
        } else {
            let max = match mode {
                CheckpointMode::Passive { upper_bound_inclusive: Some(bound) } => if safe <= bound {
                    safe
                } else {
                    bound
                },
                _ => safe,
            };
            let min = (s.nbackfills + 1) as u64;
            &&& r matches Ok(CheckpointStep::Continue)
            &&& t == locked.with_slots(slots)
            &&& *after == (WalFile {
                checkpoint_guard: guard,
                ongoing_checkpoint: after.ongoing_checkpoint,
                ..*before
            })
            &&& after.ongoing_checkpoint@ == (OngoingView {
                min_frame: min,
                max_frame: max,
                current_page: 0,
                reads: Seq::empty(),
                writes: Seq::empty(),
                work: after.ongoing_checkpoint@.work,
                state: CheckpointState::Processing,
                ..oc
            })
            &&& is_work_list(after.ongoing_checkpoint@.work, s.frames, min, max)
        }
    }

    /// The first step of a checkpoint: takes the locks, finds the last frame that may be
    /// copied, and lists the pages with frames to copy.
    pub fn checkpoint_start(&mut self, shared: &mut WalFileShared, mode: CheckpointMode) -> (r:
        Result<CheckpointStep, LimboError>)
        requires
            old(self).wf(),
            old(shared)@.wf(),
            old(self).checkpoint_guard matches Some(g) ==> g.held(old(shared)@),
            old(shared)@.nbackfills < u64::MAX,
        ensures
            final(self).wf(),
            final(shared)@.wf(),
            final(self).checkpoint_guard matches Some(g) ==> g.held(final(shared)@),
            WalFile::start_post(old(self), old(shared)@, mode, final(self), final(shared)@, r),
    {
        let max_frame: u64 = shared.max_frame;
        let nbackfills: u64 = shared.nbackfills;
        if !(max_frame > nbackfills) && !mode.should_restart_log() {
            return Ok(CheckpointStep::Done(CheckpointResult::new(max_frame, nbackfills, 0)));
        }
        match self.acquire_proper_checkpoint_guard(shared, mode) {
            Err(e) => {
                return Err(e);
            },
            Ok(()) => {},
        }
        let ghost locked = shared@;
        proof {
            lemma_safe_scan_len(locked.slots, locked.max_frame, 1);
            lemma_scan_keeps_locks(locked.slots, locked.max_frame, 1);
        }
        let mut max_safe: u64 = self.determine_max_safe_checkpoint_frame(shared);
        if let CheckpointMode::Truncate { upper_bound_inclusive: Some(upper_bound) } = mode {
            if max_frame != upper_bound {
                return Err(LimboError::Busy);
            }
        }
        if let CheckpointMode::Passive { upper_bound_inclusive: Some(upper_bound) } = mode {
            if max_safe > upper_bound {
                max_safe = upper_bound;
            }
        }
        let min_frame: u64 = nbackfills + 1;
        let list = shared.frame_cache.work_list(min_frame, max_safe);
        let ghost oc = self.ongoing_checkpoint@;
        self.ongoing_checkpoint.max_frame = max_safe;
        self.ongoing_checkpoint.min_frame = min_frame;
        self.ongoing_checkpoint.pages_to_checkpoint = list;
        self.ongoing_checkpoint.current_page = 0;
        self.ongoing_checkpoint.inflight_writes = Vec::new();
        self.ongoing_checkpoint.inflight_reads = Vec::new();
        self.ongoing_checkpoint.state = CheckpointState::Processing;
        assert(self.ongoing_checkpoint@ =~= (OngoingView {
            min_frame,
            max_frame: max_safe,
            current_page: 0,
            reads: Seq::empty(),
            writes: Seq::empty(),
            work: list@,
            state: CheckpointState::Processing,
            ..oc
        }));
        Ok(CheckpointStep::Continue)
    }

    /// What a middle step does.
    pub open spec fn process_post(
        before: &WalFile,
        s: SharedView,
        c: CacheView,
        after: &WalFile,
        r: Result<CheckpointStep, LimboError>,
    ) -> bool {
        let oc = before.ongoing_checkpoint@;
        let got = oc.collected();
        &&& *after == (WalFile { ongoing_checkpoint: after.ongoing_checkpoint, ..*before })
        &&& match last_read_error(oc.reads) {
            Some(e) => {
                &&& r matches Err(LimboError::CompletionError(x)) && x == e
                &&& after.ongoing_checkpoint@ == got
            },
            None => match first_error(got.writes) {
                Some(e) => {
                    &&& r matches Err(LimboError::CompletionError(x)) && x == e
                    &&& after.ongoing_checkpoint@ == got
                },
                None => {
                    let issued = issue(got, c, s.epoch);
                    let write = if flushes(issued) {
                        Some(issued.pending)
                    } else {
                        None
                    };
                    if issued.reads.len() > got.reads.len() || write is Some {
                        &&& r matches Ok(CheckpointStep::Io(list)) && is_io_list(
                            list@,
                            issued.reads,
                            got.reads.len() as int,
                            write,
                            s.header.page_size as int,
                        )
                        &&& after.ongoing_checkpoint@ == flushed(issued)
                    } else if issued.all_done() {
                        &&& r matches Ok(CheckpointStep::Continue)
                        &&& after.ongoing_checkpoint@ == (OngoingView {
                            state: CheckpointState::DetermineResult,
                            ..issued
                        })
                    } else {
                        &&& r matches Err(LimboError::InternalError(InternalFault::CheckpointStuck))
                        &&& after.ongoing_checkpoint@ == issued
                    }
                },
            },
        }
    }

    /// A middle step of a checkpoint: takes in what was read and written since the last one,
    /// and goes on reading frames, in the order of their numbers, and writing pages, in the
    /// order of theirs, as far as the limits let it.
    pub fn checkpoint_process(&mut self, shared: &WalFileShared, cache: &PageCache) -> (r: Result<
        CheckpointStep,
        LimboError,
    >)
        requires
            old(self).wf(),
            old(self).ongoing_checkpoint@.current_page <= old(self).ongoing_checkpoint@.work.len(),
            offsets_fit(old(self).ongoing_checkpoint@.work, shared@.header.page_size as int),
            loaded_have_bytes(cache@.pages),
        ensures
            final(self).wf(),
            WalFile::process_post(old(self), shared@, cache@, final(self), r),
    {
        let ghost before = self.ongoing_checkpoint@;
        let ghost got = before.collected();
        let _ = self.ongoing_checkpoint.process_inflight_writes();
        match self.ongoing_checkpoint.process_pending_reads() {
            Err(e) => {
                assert(self.ongoing_checkpoint@ =~= got);
                return Err(e);
            },
            Ok(_) => {},
        }
        assert(self.ongoing_checkpoint@ =~= got);
        if let Some(e) = self.ongoing_checkpoint.first_write_error() {
            return Err(LimboError::CompletionError(e));
        }
        let epoch: u32 = shared.epoch;
        let mut io: Vec<CheckpointIo> = Vec::new();
        let _n: usize = self.ongoing_checkpoint.pages_to_checkpoint.len();
        while self.ongoing_checkpoint.should_issue_reads()
            invariant
                self.wf(),
                *self == (WalFile { ongoing_checkpoint: self.ongoing_checkpoint, ..*old(self) }),
                self.ongoing_checkpoint@.work == got.work,
                self.ongoing_checkpoint@.writes == got.writes,
                self.ongoing_checkpoint@.current_page <= got.work.len() <= usize::MAX,
                offsets_fit(got.work, shared@.header.page_size as int),
                loaded_have_bytes(cache@.pages),
                epoch == shared@.epoch,
                issue(self.ongoing_checkpoint@, cache@, epoch) == issue(got, cache@, epoch),
                got.reads.len() <= self.ongoing_checkpoint@.reads.len(),
                is_io_list(
                    io@,
                    self.ongoing_checkpoint@.reads,
                    got.reads.len() as int,
                    None,
                    shared@.header.page_size as int,
                ),
            decreases got.work.len() - self.ongoing_checkpoint@.current_page,
        {
            let ghost oc = self.ongoing_checkpoint@;
            let current: usize = self.ongoing_checkpoint.current_page;
            let (page_id, target_frame) = self.ongoing_checkpoint.pages_to_checkpoint[current];
            let page: usize = page_id as usize;
            let copied = cache_get_for_checkpoint(cache, page, target_frame, epoch);
            match copied {
                Some(buffer) => {
                    self.ongoing_checkpoint.pending_writes.insert(page, buffer);
                    self.ongoing_checkpoint.current_page = current + 1;
                    assert(self.ongoing_checkpoint@ =~= (OngoingView {
                        pending: oc.pending.insert(page, cache@.pages[page].data()),
                        current_page: (current + 1) as usize,
                        ..oc
                    }));
                },
                None => {
                    let inflight = InflightRead {
                        page_id: page,
                        frame_id: target_frame,
                        outcome: None,
                    };
                    assert(got.work[current as int] == (page_id, target_frame));
                    let offset: u64 = self.frame_offset(shared, target_frame)
                        + WAL_FRAME_HEADER_SIZE as u64;
                    io.push(
                        CheckpointIo::ReadFrame { page_id: page, frame_id: target_frame, offset },
                    );
                    self.ongoing_checkpoint.inflight_reads.push(inflight);
                    self.ongoing_checkpoint.current_page = current + 1;
                    assert(self.ongoing_checkpoint@ =~= (OngoingView {
                        reads: oc.reads.push(
                            ReadView { page_id: page, frame_id: target_frame, outcome: None },
                        ),
                        current_page: (current + 1) as usize,
                        ..oc
                    }));
                },
            }
        }
        let ghost issued = self.ongoing_checkpoint@;
        if self.ongoing_checkpoint.inflight_writes.len() < MAX_INFLIGHT_WRITES
            && self.ongoing_checkpoint.should_flush_batch() {
            let pages = self.ongoing_checkpoint.pending_writes.take();
            self.ongoing_checkpoint.inflight_writes.push(InflightWriteBatch::new());
            io.push(CheckpointIo::WritePages { pages });
            assert(self.ongoing_checkpoint@ =~= flushed(issued));
        }
        if io.len() > 0 {
            Ok(CheckpointStep::Io(io))
        } else if self.ongoing_checkpoint.complete() {
            self.ongoing_checkpoint.state = CheckpointState::DetermineResult;
            assert(self.ongoing_checkpoint@ =~= (OngoingView {
                state: CheckpointState::DetermineResult,
                ..issued
            }));
            Ok(CheckpointStep::Continue)
        } else {
            Err(LimboError::InternalError(InternalFault::CheckpointStuck))
        }
    }

    /// Notes what came of reading a frame for the checkpoint.
    pub fn checkpoint_read_done(
        &mut self,
        index: usize,
        res: Result<Vec<u8>, CompletionError>,
    )
        requires
            old(self).wf(),
            index < old(self).ongoing_checkpoint@.reads.len(),
        ensures
            final(self).wf(),
            *final(self) == (WalFile {
                ongoing_checkpoint: final(self).ongoing_checkpoint,
                ..*old(self)
            }),
            final(self).ongoing_checkpoint@ == (OngoingView {
                reads: old(self).ongoing_checkpoint@.reads.update(
                    index as int,
                    ReadView {
                        outcome: Some(
                            match res {
                                Ok(b) => Ok(b@),
                                Err(e) => Err(e),
                            },
                        ),
                        ..old(self).ongoing_checkpoint@.reads[index as int]
                    },
                ),
                ..old(self).ongoing_checkpoint@
            }),
    {
        let ghost before = self.ongoing_checkpoint@;
        self.ongoing_checkpoint.inflight_reads[index].outcome = Some(res);
        assert(self.ongoing_checkpoint@ =~= (OngoingView {
            reads: before.reads.update(
                index as int,
                ReadView {
                    outcome: Some(
                        match res {
                            Ok(b) => Ok(b@),
                            Err(e) => Err(e),
                        },
                    ),
                    ..before.reads[index as int]
                },
            ),
            ..before
        }));
    }

    /// Notes what came of writing a batch for the checkpoint.
    pub fn checkpoint_write_done(&mut self, index: usize, res: Result<(), CompletionError>)
        requires
            old(self).wf(),
            index < old(self).ongoing_checkpoint@.writes.len(),
        ensures
            final(self).wf(),
            *final(self) == (WalFile {
                ongoing_checkpoint: final(self).ongoing_checkpoint,
                ..*old(self)
            }),
            final(self).ongoing_checkpoint@ == (OngoingView {
                writes: old(self).ongoing_checkpoint@.writes.update(
                    index as int,
                    match res {
                        Ok(()) => (InflightWriteBatch {
                            done: true,
                            ..old(self).ongoing_checkpoint@.writes[index as int]
                        }),
                        Err(e) => (InflightWriteBatch {
                            err: Some(e),
                            ..old(self).ongoing_checkpoint@.writes[index as int]
                        }),
                    },
                ),
                ..old(self).ongoing_checkpoint@
            }),
    {
        let mut w = self.ongoing_checkpoint.inflight_writes[index];
        match res {
            Ok(()) => {
                w.done = true;
            },
            Err(e) => {
                w.err = Some(e);
            },
        }
        self.ongoing_checkpoint.inflight_writes.set(index, w);
    }

    /// The result of a checkpoint on the log `s`.
    pub open spec fn outcome(oc: OngoingView, s: SharedView) -> CheckpointResult {
        CheckpointResult::of(
            s.max_frame,
            oc.max_frame,
            if oc.max_frame > oc.min_frame - 1 {
                (oc.max_frame - (oc.min_frame - 1)) as u64
            } else {
                0
            },
        )
    }

    /// What the step after the last copy does.
    pub open spec fn determine_post(
        before: &WalFile,
        s: SharedView,
        mode: CheckpointMode,
        salt_2: u32,
        after: &WalFile,
        t: SharedView,
        r: Result<CheckpointStep, LimboError>,
    ) -> bool {
        let oc = before.ongoing_checkpoint@;
        let result = WalFile::outcome(oc, s);
        let counted = SharedView { nbackfills: oc.max_frame, ..s };
        if !(mode is Passive) && s.max_frame != oc.max_frame {
            &&& r matches Err(LimboError::Busy)
            &&& t == counted
            &&& *after == *before
        } else if mode.restarts() && first_busy(s.slots, 1) < READ_SLOTS {
            &&& r matches Err(LimboError::Busy)
            &&& t == WalFile::restart_attempt(counted, salt_2)
            &&& *after == *before
        } else {
            let restarted = if mode.restarts() {
                before.after_restart(counted)
            } else {
                *before
            };
            &&& r matches Ok(CheckpointStep::Continue)
            &&& t == (if mode.restarts() {
                WalFile::restart_attempt(counted, salt_2)
            } else {
                counted
            })
            &&& *after == (WalFile { ongoing_checkpoint: after.ongoing_checkpoint, ..restarted })
            &&& after.ongoing_checkpoint@ == (OngoingView {
                state: CheckpointState::Finalize { checkpoint_result: Some(result) },
                ..oc
            })
        }
    }

    /// The step after the last copy: counts the copied frames and, if the mode says so,
    /// starts the log over. Fails with `Busy` if a mode that must copy all frames could
    /// not, or if readers keep the log from being started over.
    pub fn checkpoint_determine_result(
        &mut self,
        shared: &mut WalFileShared,
        mode: CheckpointMode,
        salt_2: u32,
    ) -> (r: Result<CheckpointStep, LimboError>)
        requires
            old(self).wf(),
            old(shared)@.wf(),
            old(self).ongoing_checkpoint@.all_done(),
            old(self).ongoing_checkpoint@.min_frame >= 1,
            mode.restarts() ==> old(self).checkpoint_guard == Some(CheckpointLocks::Writer),
            old(self).checkpoint_guard matches Some(g) ==> g.held(old(shared)@),
        ensures
            final(self).wf(),
            final(shared)@.wf(),
            final(self).checkpoint_guard matches Some(g) ==> g.held(final(shared)@),
            WalFile::determine_post(
                old(self),
                old(shared)@,
                mode,
                salt_2,
                final(self),
                final(shared)@,
                r,
            ),
    {
        let ghost before = shared@;
        let ghost oc = self.ongoing_checkpoint@;
        let total: u64 = self.ongoing_checkpoint.max_frame;
        let first: u64 = self.ongoing_checkpoint.min_frame - 1;
        let copied: u64 = if total > first {
            total - first
        } else {
            0
        };
        let result = CheckpointResult::new(shared.max_frame, total, copied);
        shared.nbackfills = total;
        let ghost counted = SharedView { nbackfills: oc.max_frame, ..before };
        assert(shared@ =~= counted);
        if mode.require_all_backfilled() && !result.everything_backfilled() {
            return Err(LimboError::Busy);
        }
        if mode.should_restart_log() {
            match self.restart_log(shared, salt_2) {
                Err(e) => {
                    return Err(e);
                },
                Ok(()) => {},
            }
        }
        self.ongoing_checkpoint.state = CheckpointState::Finalize {
            checkpoint_result: Some(result),
        };
        assert(self.ongoing_checkpoint@ =~= (OngoingView {
            state: CheckpointState::Finalize { checkpoint_result: Some(result) },
            ..oc
        }));
        Ok(CheckpointStep::Continue)
    }

    /// What the last step does.
    pub open spec fn finalize_post(
        before: &WalFile,
        s: SharedView,
        mode: CheckpointMode,
        after: &WalFile,
        t: SharedView,
        r: Result<CheckpointStep, LimboError>,
    ) -> bool {
        let oc = before.ongoing_checkpoint@;
        let result = oc.state->checkpoint_result->0;
        let keeps = result.wal_max_frame == result.wal_total_backfilled && result.wal_max_frame > 0;
        let opened = SharedView {
            epoch: next32(s.epoch),
            ..if mode.restarts() {
                s.with_slots(readers_unblocked(s.slots))
            } else {
                s
            }
        };
        &&& r matches Ok(CheckpointStep::Done(done)) && done == (if keeps {
            (CheckpointResult { maybe_guard: before.checkpoint_guard, ..result })
        } else {
            result
        })
        &&& t == (if keeps {
            opened
        } else {
            WalFile::unguarded(before.checkpoint_guard, opened)
        })
        &&& *after == (WalFile {
            checkpoint_guard: None,
            ongoing_checkpoint: after.ongoing_checkpoint,
            ..*before
        })
        &&& after.ongoing_checkpoint@ == (OngoingView {
            writes: Seq::empty(),
            pending: Pages::empty(),
            work: Seq::empty(),
            current_page: 0,
            state: CheckpointState::Start,
            ..oc
        })
    }

    /// The last step of a checkpoint: lets readers in again, makes pages cached so far
    /// unfit for the next checkpoint, and gives up the locks. If the whole of a log that is
    /// not empty was copied, the result keeps them, for the database file may have to be
    /// truncated. Cutting the log's file down is left to the caller, once the database file
    /// is synced: cut down before that, a crash would lose what is in it.
    pub fn checkpoint_finalize(&mut self, shared: &mut WalFileShared, mode: CheckpointMode) -> (r:
        Result<CheckpointStep, LimboError>)
        requires
            old(self).wf(),
            old(shared)@.wf(),
            old(self).ongoing_checkpoint@.state matches CheckpointState::Finalize {
                checkpoint_result: Some(_),
            },
            old(self).checkpoint_guard matches Some(g) ==> g.held(old(shared)@),
            mode.restarts() ==> forall|i: int|
                1 <= i < READ_SLOTS ==> (#[trigger] old(shared)@.slots[i]).writer,
        ensures
            final(self).wf(),
            final(shared)@.wf(),
            WalFile::finalize_post(old(self), old(shared)@, mode, final(self), final(shared)@, r),
    {
        let ghost oc = self.ongoing_checkpoint@;
        if mode.should_restart_log() {
            WalFile::unlock_after_restart(shared);
        }
        let ghost slots = shared@.slots;
        shared.epoch = increment(shared.epoch);
        assert(shared@.slots =~= slots);
        let mut state = CheckpointState::Start;
        std::mem::swap(&mut self.ongoing_checkpoint.state, &mut state);
        let mut result = match state {
            CheckpointState::Finalize { checkpoint_result: Some(result) } => result,
            _ => CheckpointResult::new(0, 0, 0),
        };
        let guard = self.checkpoint_guard.take();
        if result.should_truncate() {
            result.maybe_guard = guard;
        } else {
            if let Some(g) = guard {
                g.release(shared);
            }
        }
        self.ongoing_checkpoint.inflight_writes.clear();
        self.ongoing_checkpoint.pending_writes.clear();
        self.ongoing_checkpoint.pages_to_checkpoint.clear();
        self.ongoing_checkpoint.current_page = 0;
        assert(self.ongoing_checkpoint@ =~= (OngoingView {
            writes: Seq::empty(),
            pending: Pages::empty(),
            work: Seq::empty(),
            current_page: 0,
            state: CheckpointState::Start,
            ..oc
        }));
        Ok(CheckpointStep::Done(result))
    }

    /// What the connection and the log must be like for the next step.
    pub open spec fn step_pre(&self, s: SharedView, c: CacheView, mode: CheckpointMode) -> bool {
        let oc = self.ongoing_checkpoint@;
        &&& self.wf()
        &&& s.wf()
        &&& s.nbackfills < u64::MAX
        &&& self.checkpoint_guard matches Some(g) ==> g.held(s)
        &&& match oc.state {
            CheckpointState::Start => true,
            CheckpointState::Processing => {
                &&& oc.current_page <= oc.work.len()
                &&& offsets_fit(oc.work, s.header.page_size as int)
                &&& loaded_have_bytes(c.pages)
            },
            CheckpointState::DetermineResult => {
                &&& oc.all_done()
                &&& oc.min_frame >= 1
                &&& mode.restarts() ==> self.checkpoint_guard == Some(CheckpointLocks::Writer)
            },
            CheckpointState::Finalize { checkpoint_result } => {
                &&& checkpoint_result is Some
                &&& mode.restarts() ==> forall|i: int|
                    1 <= i < READ_SLOTS ==> (#[trigger] s.slots[i]).writer
            },
        }
    }

    /// What a step does, by the state that the checkpoint is in.
    pub open spec fn step_post(
        before: &WalFile,
        s: SharedView,
        c: CacheView,
        mode: CheckpointMode,
        salt_2: u32,
        after: &WalFile,
        t: SharedView,
        r: Result<CheckpointStep, LimboError>,
    ) -> bool {
        match before.ongoing_checkpoint@.state {
            CheckpointState::Start => WalFile::start_post(before, s, mode, after, t, r),
            CheckpointState::Processing => WalFile::process_post(before, s, c, after, r) && t == s,
            CheckpointState::DetermineResult => WalFile::determine_post(
                before,
                s,
                mode,
                salt_2,
                after,
                t,
                r,
            ),
            CheckpointState::Finalize { .. } => WalFile::finalize_post(before, s, mode, after, t, r),
        }
    }

    /// Takes the next step of a checkpoint.
    pub fn checkpoint_inner(
        &mut self,
        shared: &mut WalFileShared,
        cache: &PageCache,
        mode: CheckpointMode,
        salt_2: u32,
    ) -> (r: Result<CheckpointStep, LimboError>)
        requires
            old(self).step_pre(old(shared)@, cache@, mode),
        ensures
            final(self).wf(),
            final(shared)@.wf(),
            final(self).checkpoint_guard matches Some(g) ==> g.held(final(shared)@),
            WalFile::step_post(
                old(self),
                old(shared)@,
                cache@,
                mode,
                salt_2,
                final(self),
                final(shared)@,
                r,
            ),
    {
        match self.ongoing_checkpoint.state {
            CheckpointState::Start => self.checkpoint_start(shared, mode),
            CheckpointState::Processing => self.checkpoint_process(shared, cache),
            CheckpointState::DetermineResult => self.checkpoint_determine_result(
                shared,
                mode,
                salt_2,
            ),
            CheckpointState::Finalize { .. } => self.checkpoint_finalize(shared, mode),
        }
    }

    /// What a step does, with what is cleaned up if it fails: the checkpoint's locks are given up
    /// and it is back at its start.
    pub open spec fn checkpoint_post(
        before: &WalFile,
        s: SharedView,
        c: CacheView,
        mode: CheckpointMode,
        salt_2: u32,
        after: &WalFile,
        t: SharedView,
        r: Result<CheckpointStep, LimboError>,
    ) -> bool {
        &&& r is Ok ==> WalFile::step_post(before, s, c, mode, salt_2, after, t, r)
        &&& r is Err ==> exists|mid: WalFile, u: SharedView|
            #![trigger mid.checkpoint_guard, WalFile::unguarded(mid.checkpoint_guard, u)]
            WalFile::step_post(before, s, c, mode, salt_2, &mid, u, r) && t == WalFile::unguarded(
                mid.checkpoint_guard,
                u,
            ) && *after == (WalFile {
                checkpoint_guard: None,
                ongoing_checkpoint: after.ongoing_checkpoint,
                ..mid
            }) && after.ongoing_checkpoint@ == (OngoingView {
                state: CheckpointState::Start,
                ..mid.ongoing_checkpoint@
            })
    }

    /// Takes the next step of a checkpoint. If it fails, the checkpoint's locks are given up
    /// and it is back at its start.
    pub fn checkpoint(
        &mut self,
        shared: &mut WalFileShared,
        cache: &PageCache,
        mode: CheckpointMode,
        salt_2: u32,
    ) -> (r: Result<CheckpointStep, LimboError>)
        requires
            old(self).step_pre(old(shared)@, cache@, mode),
        ensures
            final(self).wf(),
            final(shared)@.wf(),
            final(self).checkpoint_guard matches Some(g) ==> g.held(final(shared)@),
            WalFile::checkpoint_post(
                old(self),
                old(shared)@,
                cache@,
                mode,
                salt_2,
                final(self),
                final(shared)@,
                r,
            ),
    {
        let r = self.checkpoint_inner(shared, cache, mode, salt_2);
        if r.is_err() {
            let ghost mid = *self;
            let ghost s = shared@;
            if let Some(guard) = self.checkpoint_guard.take() {
                guard.release(shared);
            }
            self.ongoing_checkpoint.state = CheckpointState::Start;
            proof {
                assert(self.ongoing_checkpoint@ =~= (OngoingView {
                    state: CheckpointState::Start,
                    ..mid.ongoing_checkpoint@
                }));
                assert(shared@ == WalFile::unguarded(mid.checkpoint_guard, s));
            }
        }
        r
    }
}

/// The bytes of a page in the cache, if they are those of the target frame.
fn cache_get_for_checkpoint(
    cache: &PageCache,
    page_idx: usize,
    target_frame: u64,
    epoch: u32,
) -> (r: Option<Vec<u8>>)
    requires
        loaded_have_bytes(cache@.pages),
    ensures
        match r {
            Some(b) => cached_for_checkpoint(cache@, page_idx, target_frame, epoch) && b@
                == cache@.pages[page_idx].data(),
            None => !cached_for_checkpoint(cache@, page_idx, target_frame, epoch),
        },
{
    match cache.peek(page_idx) {
        None => None,
        Some(page) => {
            if page.is_valid_for_checkpoint(target_frame, epoch) {
                let bytes = page.inner.as_slice();
                Some(crate::bytes::copy_range(bytes, 0, bytes.len()))
            } else {
                None
            }
        },
    }
}

proof fn lemma_scan_keeps_locks(slots: Seq<LockView>, safe: u64, i: int)
    requires
        slots.len() == READ_SLOTS,
        1 <= i <= READ_SLOTS,
    ensures
        safe_scan(slots, safe, i).0.len() == READ_SLOTS,
        safe_scan(slots, safe, i).0[0] == slots[0],
    decreases READ_SLOTS - i,
{
    if i < READ_SLOTS {
        let mark = if i == 1 {
            low32(safe)
        } else {
            READMARK_NOT_USED
        };
        lemma_scan_keeps_locks(slots.update(i, LockView { value: mark, ..slots[i] }), safe, i + 1);
        lemma_scan_keeps_locks(slots, slots[i].value as u64, i + 1);
        lemma_scan_keeps_locks(slots, safe, i + 1);
    }
}

/// However far the log has grown since, a checkpoint does not copy a frame beyond the snapshot of a
/// reader that took a slot other than 0.
pub proof fn law_checkpoint_stops_at_readers(s: SharedView, later: u64)
    requires
        s.wf(),
        s.max_frame < READMARK_NOT_USED,
        later <= u32::MAX,
        WalFile::entry(s) matches Some((idx, Some(_), chosen)) && !chosen.slots[idx].writer,
    ensures
        ({
            let (idx, _, chosen) = WalFile::entry(s)->0;
            let slots = chosen.with_slot(idx, chosen.slots[idx].add_reader()).slots;
            let (_, safe) = safe_scan(slots, later, 1);
            safe <= s.max_frame
        }),
{
    crate::wal::law_reader_mark_is_within_snapshot(s);
    let (idx, _, chosen) = WalFile::entry(s)->0;
    let slots = chosen.with_slot(idx, chosen.slots[idx].add_reader()).slots;
    assert(slots.len() == READ_SLOTS);
    law_readers_hold_checkpoint_back(slots, later);
    assert(!slots[idx].free());
}

/// Whether a page is gathered or being read.
pub open spec fn under_way(pending: Pages, reads: Seq<ReadView>, page: usize) -> bool {
    ||| pending.contains_key(page)
    ||| exists|i: int| 0 <= i < reads.len() && (#[trigger] reads[i]).page_id == page
}

/// Whether a page is in the list from `from` on.
pub open spec fn to_come(work: Seq<(u64, u64)>, from: int, page: usize) -> bool {
    exists|i: int| from <= i < work.len() && (#[trigger] work[i]).0 as usize == page
}

/// The pages that a checkpoint still has to write: those gathered, those being read, and those not
/// looked at yet.
pub open spec fn outstanding(oc: OngoingView, page: usize) -> bool {
    under_way(oc.pending, oc.reads, page) || to_come(oc.work, oc.current_page as int, page)
}

/// A checkpoint loses no page: while it takes in what was read and goes on through its list, each
/// page that it still has to write stays one; those that go out to be written are all that
/// were gathered; and when it is done none is left.
pub proof fn law_checkpoint_loses_no_page(oc: OngoingView, c: CacheView, epoch: u32, page: usize)
    requires
        last_read_error(oc.reads) is None,
        oc.current_page <= oc.work.len() < usize::MAX,
    ensures
        outstanding(oc.collected(), page) == outstanding(oc, page),
        outstanding(issue(oc, c, epoch), page) == outstanding(oc, page),
        flushes(oc) ==> (outstanding(oc, page) <==> outstanding(flushed(oc), page)
            || oc.pending.contains_key(page)),
        oc.pending.dom().finite() && oc.all_done() ==> !outstanding(oc, page),
{
    lemma_collected_keeps(oc.pending, oc.reads, page);
    lemma_issue_keeps(oc, c, epoch, page);
    if oc.pending.dom().finite() && oc.all_done() {
        assert(!oc.pending.dom().contains(page));
    }
}

proof fn lemma_collected_keeps(pending: Pages, reads: Seq<ReadView>, page: usize)
    requires
        last_read_error(reads) is None,
    ensures
        under_way(drained(pending, reads), waiting(reads), page) == under_way(pending, reads, page),
    decreases reads.len(),
{
    if reads.len() > 0 {
        let rest = reads.drop_last();
        lemma_collected_keeps(pending, rest, page);
        let last = reads.last();
        assert(reads[reads.len() - 1] == last);
        if under_way(pending, rest, page) && !pending.contains_key(page) {
            let i = choose|i: int| 0 <= i < rest.len() && (#[trigger] rest[i]).page_id == page;
            assert(reads[i].page_id == page);
        }
        if under_way(pending, reads, page) && !pending.contains_key(page) {
            let i = choose|i: int| 0 <= i < reads.len() && (#[trigger] reads[i]).page_id == page;
            if i < rest.len() {
                assert(rest[i].page_id == page);
            }
        }
        let w = waiting(rest);
        if last.outcome is None {
            let after = w.push(last);
            assert(waiting(reads) == after);
            assert(after[w.len() as int] == last);
            if exists|i: int| 0 <= i < w.len() && (#[trigger] w[i]).page_id == page {
                let i = choose|i: int| 0 <= i < w.len() && (#[trigger] w[i]).page_id == page;
                assert(after[i].page_id == page);
            }
            if exists|i: int| 0 <= i < after.len() && (#[trigger] after[i]).page_id == page {
                let i = choose|i: int| 0 <= i < after.len() && (#[trigger] after[i]).page_id == page;
                if i < w.len() {
                    assert(w[i].page_id == page);
                }
            }
        }
    }
}

proof fn lemma_issue_keeps(oc: OngoingView, c: CacheView, epoch: u32, page: usize)
    requires
        oc.current_page <= oc.work.len() < usize::MAX,
    ensures
        outstanding(issue(oc, c, epoch), page) == outstanding(oc, page),
    decreases oc.work.len() - oc.current_page,
{
    if oc.may_read() {
        let cur = oc.current_page as int;
        let (page_id, frame_id) = oc.work[cur];
        let next = (oc.current_page + 1) as usize;
        let p = page_id as usize;
        let read = ReadView { page_id: p, frame_id, outcome: None };
        let after = if cached_for_checkpoint(c, p, frame_id, epoch) {
            OngoingView {
                pending: oc.pending.insert(p, c.pages[p].data()),
                current_page: next,
                ..oc
            }
        } else {
            OngoingView { reads: oc.reads.push(read), current_page: next, ..oc }
        };
        lemma_issue_keeps(after, c, epoch, page);
        assert(issue(oc, c, epoch) == issue(after, c, epoch));
        if to_come(oc.work, cur, page) {
            let i = choose|i: int|
                cur <= i < oc.work.len() && (#[trigger] oc.work[i]).0 as usize == page;
            if i != cur {
                assert(after.work[i].0 as usize == page);
            }
        }
        if to_come(after.work, cur + 1, page) {
            let i = choose|i: int|
                cur + 1 <= i < after.work.len() && (#[trigger] after.work[i]).0 as usize == page;
            assert(oc.work[i].0 as usize == page);
        }
        assert(page == p ==> to_come(oc.work, cur, page));
        if !cached_for_checkpoint(c, p, frame_id, epoch) {
            assert(after.reads[oc.reads.len() as int] == read);
            if exists|i: int| 0 <= i < oc.reads.len() && (#[trigger] oc.reads[i]).page_id == page {
                let i = choose|i: int|
                    0 <= i < oc.reads.len() && (#[trigger] oc.reads[i]).page_id == page;
                assert(after.reads[i].page_id == page);
            }
            if exists|i: int|
                0 <= i < after.reads.len() && (#[trigger] after.reads[i]).page_id == page {
                let i = choose|i: int|
                    0 <= i < after.reads.len() && (#[trigger] after.reads[i]).page_id == page;
                if i < oc.reads.len() {
                    assert(oc.reads[i].page_id == page);
                }
            }
        }
    }
}

} // verus!
