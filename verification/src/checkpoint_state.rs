//! The state of a checkpoint: its mode, its locks, its work and its result.

use vstd::prelude::*;
use crate::error::{CompletionError, LimboError};
use crate::wal_shared::{SharedView, WalFileShared};
use crate::write_batch::{Pages, WriteBatch, CKPT_BATCH_PAGES};

verus! {

/// A batch shorter than this is not flushed early.
pub const MIN_BATCH_LEN_FOR_FLUSH: usize = 512;
/// Runs that are this long on average are worth an early flush.
pub const MIN_AVG_RUN_FOR_FLUSH: usize = 32;
/// Batches that may be written at once.
pub const MAX_INFLIGHT_WRITES: usize = 64;
/// Frames that may be read at once.
pub const MAX_INFLIGHT_READS: usize = 512;

/// How a checkpoint goes about it.
#[derive(Debug, Clone, Copy, PartialEq, Eq, Structural)]
pub enum CheckpointMode {
    /// Copies as many frames as it can without waiting for anybody; no frame above
    /// the bound, if there is one.
    Passive { upper_bound_inclusive: Option<u64> },
    /// Copies all frames while no writer is active.
    Full,
    /// As `Full`, and makes the next writer start the log over.
    Restart,
    /// As `Restart`, and cuts the log down to nothing; but, if there is a bound, only if
    /// the log's last frame is that one, so that no frame is missed.
    Truncate { upper_bound_inclusive: Option<u64> },
}

impl CheckpointMode {
    /// Whether the log is to be started over.
    pub open spec fn restarts(self) -> bool {
        self is Truncate || self is Restart
    }

    /// Whether the log is to be started over.
    pub fn should_restart_log(&self) -> (r: bool)
        ensures
            r == self.restarts(),
    {
        match self {
            CheckpointMode::Truncate { .. } | CheckpointMode::Restart => true,
            CheckpointMode::Passive { .. } | CheckpointMode::Full => false,
        }
    }

    /// Whether the checkpoint fails unless all frames are copied.
    pub fn require_all_backfilled(&self) -> (r: bool)
        ensures
            r == !(*self is Passive),
    {
        match self {
            CheckpointMode::Passive { .. } => false,
            _ => true,
        }
    }
}

/// Which locks a checkpoint holds.
#[derive(Debug, Clone, Copy, PartialEq, Eq, Structural)]
pub enum CheckpointLocks {
    /// The checkpoint lock, slot 0 and the write lock.
    Writer,
    /// The checkpoint lock and slot 0.
    Read0,
}

impl CheckpointLocks {
    /// The locks that a checkpoint in `mode` needs.
    pub open spec fn needed(mode: CheckpointMode) -> CheckpointLocks {
        if mode is Passive {
            CheckpointLocks::Read0
        } else {
            CheckpointLocks::Writer
        }
    }

    /// Whether these locks are free.
    pub open spec fn available(self, s: SharedView) -> bool {
        &&& s.checkpoint_lock.free()
        &&& s.slots[0].free()
        &&& self is Writer ==> s.write_lock.free()
    }

    /// Whether these locks are held exclusively.
    pub open spec fn held(self, s: SharedView) -> bool {
        &&& s.checkpoint_lock.writer
        &&& s.slots[0].writer
        &&& self is Writer ==> s.write_lock.writer
    }

    /// The log with these locks taken.
    pub open spec fn taken(self, s: SharedView) -> SharedView {
        SharedView {
            checkpoint_lock: s.checkpoint_lock.add_writer(),
            slots: s.slots.update(0, s.slots[0].add_writer()),
            write_lock: if self is Writer {
                s.write_lock.add_writer()
            } else {
                s.write_lock
            },
            ..s
        }
    }

    /// The log with these locks given up.
    pub open spec fn given_up(self, s: SharedView) -> SharedView {
        SharedView {
            checkpoint_lock: s.checkpoint_lock.released(),
            slots: s.slots.update(0, s.slots[0].released()),
            write_lock: if self is Writer {
                s.write_lock.released()
            } else {
                s.write_lock
            },
            ..s
        }
    }

    /// Takes the locks that `mode` needs, all of them or, if one is not free, none.
    pub fn new(shared: &mut WalFileShared, mode: CheckpointMode) -> (r: Result<
        CheckpointLocks,
        LimboError,
    >)
        requires
            old(shared)@.wf(),
        ensures
            final(shared)@.wf(),
            if CheckpointLocks::needed(mode).available(old(shared)@) {
                &&& r == Ok::<CheckpointLocks, LimboError>(CheckpointLocks::needed(mode))
                &&& final(shared)@ == CheckpointLocks::needed(mode).taken(old(shared)@)
            } else {
                &&& r == Err::<CheckpointLocks, LimboError>(LimboError::Busy)
                &&& final(shared)@ == old(shared)@
            },
    {
        let ghost before = shared@;
        if !shared.checkpoint_lock.write() {
            assert(shared@ =~= before);
            return Err(LimboError::Busy);
        }
        assert(shared@.slots =~= before.slots);
        if !shared.lock_slot(0) {
            shared.checkpoint_lock.unlock();
            assert(shared@ =~= before);
            return Err(LimboError::Busy);
        }
        match mode {
            CheckpointMode::Passive { .. } => {
                assert(shared@ =~= CheckpointLocks::Read0.taken(before));
                Ok(CheckpointLocks::Read0)
            },
            CheckpointMode::Full | CheckpointMode::Restart | CheckpointMode::Truncate { .. } => {
                let ghost slots = shared@.slots;
                if !shared.write_lock.write() {
                    assert(shared@.slots =~= slots);
                    shared.unlock_slot(0);
                    shared.checkpoint_lock.unlock();
                    assert(shared@ =~= before);
                    return Err(LimboError::Busy);
                }
                assert(shared@ =~= CheckpointLocks::Writer.taken(before));
                Ok(CheckpointLocks::Writer)
            },
        }
    }

    /// Gives these locks up.
    pub fn release(self, shared: &mut WalFileShared)
        requires
            old(shared)@.wf(),
            self.held(old(shared)@),
        ensures
            final(shared)@.wf(),
            final(shared)@ == self.given_up(old(shared)@),
    {
        let ghost before = shared@;
        match self {
            CheckpointLocks::Writer => {
                shared.write_lock.unlock();
            },
            CheckpointLocks::Read0 => {},
        }
        assert(shared@.slots =~= before.slots);
        shared.unlock_slot(0);
        shared.checkpoint_lock.unlock();
        assert(shared@ =~= self.given_up(before));
    }
}

/// Giving up the locks of a checkpoint undoes taking them, and nothing but the
/// locks is touched.
pub proof fn law_checkpoint_locks_are_given_back(s: SharedView, mode: CheckpointMode)
    requires
        s.wf(),
        CheckpointLocks::needed(mode).available(s),
    ensures
        CheckpointLocks::needed(mode).taken(s).wf(),
        CheckpointLocks::needed(mode).held(CheckpointLocks::needed(mode).taken(s)),
        CheckpointLocks::needed(mode).given_up(CheckpointLocks::needed(mode).taken(s)) == s,
{
    let g = CheckpointLocks::needed(mode);
    assert(g.given_up(g.taken(s)) =~= s);
}

/// At most one checkpoint runs at a time: while one holds its locks, no mode can
/// take them, and no writer can start while one that needs the write lock runs.
pub proof fn law_one_checkpoint_at_a_time(s: SharedView, held: CheckpointLocks, mode: CheckpointMode)
    requires
        s.wf(),
        held.held(s),
    ensures
        !CheckpointLocks::needed(mode).available(s),
        held is Writer ==> !s.write_lock.free(),
{
}

/// What a checkpoint did.
#[derive(Debug)]
pub struct CheckpointResult {
    /// The last frame of the log after the checkpoint. Cutting the log down comes
    /// later and sets this to 0.
    pub wal_max_frame: u64,
    /// The frames of the log that are in the database file.
    pub wal_total_backfilled: u64,
    /// The frames that this checkpoint copied.
    pub wal_checkpoint_backfilled: u64,
    /// The locks that stay held until the database file is truncated.
    pub maybe_guard: Option<CheckpointLocks>,
    pub db_truncate_sent: bool,
    pub db_sync_sent: bool,
    /// Whether the log's truncation was requested.
    pub wal_truncate_sent: bool,
    /// Whether the log's sync after its truncation was requested.
    pub wal_sync_sent: bool,
}

impl CheckpointResult {
    /// The result with these numbers, no locks and nothing requested.
    pub open spec fn of(max: u64, total: u64, copied: u64) -> CheckpointResult {
        CheckpointResult {
            wal_max_frame: max,
            wal_total_backfilled: total,
            wal_checkpoint_backfilled: copied,
            maybe_guard: None,
            db_truncate_sent: false,
            db_sync_sent: false,
            wal_truncate_sent: false,
            wal_sync_sent: false,
        }
    }

    /// A result with these numbers.
    pub fn new(
        wal_max_frame: u64,
        wal_total_backfilled: u64,
        wal_checkpoint_backfilled: u64,
    ) -> (r: CheckpointResult)
        ensures
            r == CheckpointResult::of(
                wal_max_frame,
                wal_total_backfilled,
                wal_checkpoint_backfilled,
            ),
    {
        CheckpointResult {
            wal_max_frame,
            wal_total_backfilled,
            wal_checkpoint_backfilled,
            maybe_guard: None,
            db_sync_sent: false,
            db_truncate_sent: false,
            wal_truncate_sent: false,
            wal_sync_sent: false,
        }
    }

    /// Whether all of the log is in the database file.
    pub fn everything_backfilled(&self) -> (r: bool)
        ensures
            r == (self.wal_max_frame == self.wal_total_backfilled),
    {
        self.wal_max_frame == self.wal_total_backfilled
    }

    /// Whether the database file may have to be truncated.
    pub fn should_truncate(&self) -> (r: bool)
        ensures
            r == (self.wal_max_frame == self.wal_total_backfilled && self.wal_max_frame > 0),
    {
        self.everything_backfilled() && self.wal_max_frame > 0
    }

    /// Gives up the locks that the result still holds.
    pub fn release_guard(&mut self, shared: &mut WalFileShared)
        requires
            old(shared)@.wf(),
            old(self).maybe_guard matches Some(g) ==> g.held(old(shared)@),
        ensures
            final(shared)@.wf(),
            *final(self) == (CheckpointResult { maybe_guard: None, ..*old(self) }),
            final(shared)@ == (match old(self).maybe_guard {
                Some(g) => g.given_up(old(shared)@),
                None => old(shared)@,
            }),
    {
        if let Some(guard) = self.maybe_guard.take() {
            guard.release(shared);
        }
    }
}

impl Default for CheckpointResult {
    fn default() -> (r: CheckpointResult)
        ensures
            r == CheckpointResult::of(0, 0, 0),
    {
        CheckpointResult::new(0, 0, 0)
    }
}

/// Where a checkpoint is.
#[derive(Debug)]
pub enum CheckpointState {
    Start,
    /// Frames are read and pages are written.
    Processing,
    /// Everything was written: the counts are to be updated and, if the mode says
    /// so, the log started over.
    DetermineResult,
    /// The locks are to be given up and the result returned.
    Finalize { checkpoint_result: Option<CheckpointResult> },
}

/// A frame that is being read, with what came of it once it is there.
#[derive(Debug)]
pub struct InflightRead {
    pub page_id: usize,
    pub frame_id: u64,
    pub outcome: Option<Result<Vec<u8>, CompletionError>>,
}

/// A read as the checkpoint sees it.
pub struct ReadView {
    pub page_id: usize,
    pub frame_id: u64,
    pub outcome: Option<Result<Seq<u8>, CompletionError>>,
}

impl View for InflightRead {
    type V = ReadView;

    open spec fn view(&self) -> ReadView {
        ReadView {
            page_id: self.page_id,
            frame_id: self.frame_id,
            outcome: match self.outcome {
                None => None,
                Some(Ok(b)) => Some(Ok(b@)),
                Some(Err(e)) => Some(Err(e)),
            },
        }
    }
}

/// A batch that is being written.
#[derive(Debug, Clone, Copy, PartialEq, Eq, Structural)]
pub struct InflightWriteBatch {
    pub done: bool,
    pub err: Option<CompletionError>,
}

impl InflightWriteBatch {
    /// A batch whose write has begun.
    pub fn new() -> (r: InflightWriteBatch)
        ensures
            r == (InflightWriteBatch { done: false, err: None }),
    {
        InflightWriteBatch { done: false, err: None }
    }
}

/// The batches that are not done.
pub open spec fn unfinished(writes: Seq<InflightWriteBatch>) -> Seq<InflightWriteBatch>
    decreases writes.len(),
{
    if writes.len() == 0 {
        writes
    } else if writes.last().done {
        unfinished(writes.drop_last())
    } else {
        unfinished(writes.drop_last()).push(writes.last())
    }
}

/// The first error among the batches.
pub open spec fn first_error(writes: Seq<InflightWriteBatch>) -> Option<CompletionError>
    decreases writes.len(),
{
    if writes.len() == 0 {
        None
    } else {
        match first_error(writes.drop_last()) {
            Some(e) => Some(e),
            None => writes.last().err,
        }
    }
}

/// The reads that are still under way.
pub open spec fn waiting(reads: Seq<ReadView>) -> Seq<ReadView>
    decreases reads.len(),
{
    if reads.len() == 0 {
        reads
    } else if reads.last().outcome is None {
        waiting(reads.drop_last()).push(reads.last())
    } else {
        waiting(reads.drop_last())
    }
}

/// The batch with the pages of the reads that are there added.
pub open spec fn drained(pending: Pages, reads: Seq<ReadView>) -> Pages
    decreases reads.len(),
{
    if reads.len() == 0 {
        pending
    } else {
        let rest = drained(pending, reads.drop_last());
        match reads.last().outcome {
            Some(Ok(data)) => rest.insert(reads.last().page_id, data),
            _ => rest,
        }
    }
}

/// The last error among the reads.
pub open spec fn last_read_error(reads: Seq<ReadView>) -> Option<CompletionError>
    decreases reads.len(),
{
    if reads.len() == 0 {
        None
    } else {
        match reads.last().outcome {
            Some(Err(e)) => Some(e),
            _ => last_read_error(reads.drop_last()),
        }
    }
}

/// Whether some read brought a page.
pub open spec fn some_read(reads: Seq<ReadView>) -> bool {
    exists|i: int| 0 <= i < reads.len() && (#[trigger] reads[i]).outcome matches Some(Ok(_))
}

/// A checkpoint under way.
#[derive(Debug)]
pub struct OngoingCheckpoint {
    /// The first frame that it copies.
    pub min_frame: u64,
    /// The last frame that it copies.
    pub max_frame: u64,
    /// How far into its list of pages it has come.
    pub current_page: usize,
    pub state: CheckpointState,
    /// Pages that are to be written next.
    pub pending_writes: WriteBatch,
    /// Frames that are being read.
    pub inflight_reads: Vec<InflightRead>,
    /// Batches that are being written.
    pub inflight_writes: Vec<InflightWriteBatch>,
    /// The pages to copy, each with its frame.
    pub pages_to_checkpoint: Vec<(u64, u64)>,
}

/// A checkpoint under way.
#[verifier::ext_equal]
pub struct OngoingView {
    pub min_frame: u64,
    pub max_frame: u64,
    pub current_page: usize,
    pub state: CheckpointState,
    pub pending: Pages,
    pub reads: Seq<ReadView>,
    pub writes: Seq<InflightWriteBatch>,
    pub work: Seq<(u64, u64)>,
}

impl View for OngoingCheckpoint {
    type V = OngoingView;

    open spec fn view(&self) -> OngoingView {
        OngoingView {
            min_frame: self.min_frame,
            max_frame: self.max_frame,
            current_page: self.current_page,
            state: self.state,
            pending: self.pending_writes@,
            reads: Seq::new(self.inflight_reads@.len(), |i: int| self.inflight_reads@[i]@),
            writes: self.inflight_writes@,
            work: self.pages_to_checkpoint@,
        }
    }
}

impl OngoingView {
    /// No checkpoint is under way.
    pub open spec fn idle() -> OngoingView {
        OngoingView {
            min_frame: 0,
            max_frame: 0,
            current_page: 0,
            state: CheckpointState::Start,
            pending: Pages::empty(),
            reads: Seq::empty(),
            writes: Seq::empty(),
            work: Seq::empty(),
        }
    }

    /// Whether a page's frame may be read next.
    pub open spec fn may_read(self) -> bool {
        &&& self.current_page < self.work.len()
        &&& self.pending.dom().len() < CKPT_BATCH_PAGES
        &&& self.reads.len() < MAX_INFLIGHT_READS
    }

    /// Whether everything was read and written.
    pub open spec fn all_done(self) -> bool {
        &&& self.current_page >= self.work.len()
        &&& self.reads.len() == 0
        &&& self.pending.dom().len() == 0
        &&& self.writes.len() == 0
    }

    /// Whether the gathered pages are to be written now: there are enough of them,
    /// or no more will come.
    pub open spec fn flush_due(self) -> bool {
        ||| self.pending.dom().len() >= CKPT_BATCH_PAGES
        ||| self.current_page >= self.work.len() && self.reads.len() == 0
            && self.pending.dom().len() > 0
    }

    /// The state with the outcomes of its reads and writes taken in.
    pub open spec fn collected(self) -> OngoingView {
        OngoingView {
            writes: unfinished(self.writes),
            reads: waiting(self.reads),
            pending: drained(self.pending, self.reads),
            ..self
        }
    }
}

impl OngoingCheckpoint {
    /// The gathered pages are counted right.
    pub open spec fn wf(&self) -> bool {
        self.pending_writes.wf()
    }

    /// No checkpoint under way.
    pub fn new() -> (r: OngoingCheckpoint)
        ensures
            r@ == OngoingView::idle(),
            r.wf(),
    {
        let r = OngoingCheckpoint {
            min_frame: 0,
            max_frame: 0,
            current_page: 0,
            state: CheckpointState::Start,
            pending_writes: WriteBatch::new(),
            inflight_reads: Vec::new(),
            inflight_writes: Vec::new(),
            pages_to_checkpoint: Vec::new(),
        };
        assert(r@ =~= OngoingView::idle());
        r
    }

    /// Drops everything and goes back to the start.
    pub fn reset(&mut self)
        ensures
            final(self)@ == OngoingView::idle(),
            final(self).wf(),
    {
        self.min_frame = 0;
        self.max_frame = 0;
        self.current_page = 0;
        self.pages_to_checkpoint.clear();
        self.pending_writes.clear();
        self.inflight_reads.clear();
        self.inflight_writes.clear();
        self.state = CheckpointState::Start;
        assert(self@ =~= OngoingView::idle());
    }

    /// Whether a page's frame may be read next.
    pub fn should_issue_reads(&self) -> (r: bool)
        ensures
            r == self@.may_read(),
    {
        self.current_page < self.pages_to_checkpoint.len() && !self.pending_writes.is_full()
            && self.inflight_reads.len() < MAX_INFLIGHT_READS
    }

    /// Whether everything was read and written.
    pub fn complete(&self) -> (r: bool)
        ensures
            r == self@.all_done(),
    {
        self.current_page >= self.pages_to_checkpoint.len() && self.inflight_reads.len() == 0
            && self.pending_writes.is_empty() && self.inflight_writes.len() == 0
    }

    /// Whether the gathered pages are to be written now.
    pub fn should_flush_batch(&self) -> (r: bool)
        ensures
            r == self@.flush_due(),
    {
        self.pending_writes.is_full() || (self.pending_writes.len() >= MIN_BATCH_LEN_FOR_FLUSH
            && self.pending_writes.avg_run_len_at_least(MIN_AVG_RUN_FOR_FLUSH)) || (
        self.current_page >= self.pages_to_checkpoint.len() && self.inflight_reads.len() == 0
            && !self.pending_writes.is_empty())
    }

    /// Drops the batches that are done, and says whether there were any.
    pub fn process_inflight_writes(&mut self) -> (r: bool)
        requires
            old(self).wf(),
        ensures
            final(self)@ == (OngoingView { writes: unfinished(old(self)@.writes), ..old(self)@ }),
            final(self).wf(),
            r == (unfinished(old(self)@.writes).len() < old(self)@.writes.len()),
    {
        let before_len: usize = self.inflight_writes.len();
        let mut kept: Vec<InflightWriteBatch> = Vec::new();
        let mut i: usize = 0;
        let ghost all = self.inflight_writes@;
        assert(all.take(0) =~= Seq::empty());
        while i < self.inflight_writes.len()
            invariant
                i <= self.inflight_writes@.len(),
                all == self.inflight_writes@,
                *self == *old(self),
                kept@ == unfinished(all.take(i as int)),
                kept@.len() <= i,
            decreases self.inflight_writes@.len() - i,
        {
            let w = self.inflight_writes[i];
            assert(all.take(i + 1).drop_last() =~= all.take(i as int));
            if !w.done {
                kept.push(w);
            }
            i = i + 1;
        }
        assert(all.take(all.len() as int) =~= all);
        self.inflight_writes = kept;
        assert(self@ =~= (OngoingView { writes: unfinished(old(self)@.writes), ..old(self)@ }));
        before_len > self.inflight_writes.len()
    }

    /// Moves the pages of the reads that are there into the batch, and says whether
    /// there were any. A failed read is dropped and its error returned.
    pub fn process_pending_reads(&mut self) -> (r: Result<bool, LimboError>)
        requires
            old(self).wf(),
        ensures
            final(self)@ == (OngoingView {
                reads: waiting(old(self)@.reads),
                pending: drained(old(self)@.pending, old(self)@.reads),
                ..old(self)@
            }),
            final(self).wf(),
            match last_read_error(old(self)@.reads) {
                Some(e) => r == Err::<bool, LimboError>(LimboError::CompletionError(e)),
                None => r == Ok::<bool, LimboError>(some_read(old(self)@.reads)),
            },
    {
        let ghost before = self@;
        let mut reads: Vec<InflightRead> = Vec::new();
        std::mem::swap(&mut self.inflight_reads, &mut reads);
        let ghost all = before.reads;
        let mut kept: Vec<InflightRead> = Vec::new();
        let mut moved = false;
        let mut err: Option<CompletionError> = None;
        let ghost total = reads@.len();
        let ghost mut done: int = 0;
        assert(all.take(0) =~= Seq::empty());
        while reads.len() > 0
            invariant
                0 <= done <= total,
                total == all.len(),
                reads@.len() == total - done,
                forall|j: int| 0 <= j < reads@.len() ==> (#[trigger] reads@[j])@ == all[done + j],
                Seq::new(kept@.len(), |j: int| kept@[j]@) == waiting(all.take(done)),
                self.wf(),
                self@ == (OngoingView {
                    reads: Seq::empty(),
                    pending: drained(before.pending, all.take(done)),
                    ..before
                }),
                err == last_read_error(all.take(done)),
                moved == some_read(all.take(done)),
            decreases reads@.len(),
        {
            let ghost taken = all.take(done);
            let ghost next = all.take(done + 1);
            let ghost kept_view = Seq::new(kept@.len(), |j: int| kept@[j]@);
            assert(next.drop_last() =~= taken);
            assert(reads@[0]@ == all[done]);
            assert(next.last() == all[done]);
            let slot = reads.remove(0);
            proof {
                assert(slot@ == all[done]);
                assert(some_read(next) == (some_read(taken) || slot@.outcome matches Some(Ok(_))))
                    by {
                    if some_read(taken) {
                        let i = choose|i: int|
                            0 <= i < taken.len() && (#[trigger] taken[i]).outcome matches Some(Ok(_));
                        assert(next[i] == taken[i]);
                    }
                    if slot@.outcome matches Some(Ok(_)) {
                        assert(next[done] == slot@);
                    }
                    if some_read(next) {
                        let i = choose|i: int|
                            0 <= i < next.len() && (#[trigger] next[i]).outcome matches Some(Ok(_));
                        if i < done {
                            assert(taken[i] == next[i]);
                        }
                    }
                }
            }
            match slot.outcome {
                None => {
                    kept.push(slot);
                    assert(Seq::new(kept@.len(), |j: int| kept@[j]@) =~= kept_view.push(slot@));
                },
                Some(Ok(buf)) => {
                    self.pending_writes.insert(slot.page_id, buf);
                    moved = true;
                },
                Some(Err(e)) => {
                    err = Some(e);
                },
            }
            proof {
                done = done + 1;
            }
        }
        assert(all.take(total as int) =~= all);
        self.inflight_reads = kept;
        assert(self@ =~= (OngoingView {
            reads: waiting(before.reads),
            pending: drained(before.pending, before.reads),
            ..before
        }));
        match err {
            Some(e) => Err(LimboError::CompletionError(e)),
            None => Ok(moved),
        }
    }

    /// The first error among the batches that are being written.
    pub fn first_write_error(&self) -> (r: Option<CompletionError>)
        ensures
            r == first_error(self@.writes),
    {
        let ghost all = self.inflight_writes@;
        let mut i: usize = 0;
        assert(all.take(0) =~= Seq::empty());
        while i < self.inflight_writes.len()
            invariant
                i <= self.inflight_writes@.len(),
                all == self.inflight_writes@,
                first_error(all.take(i as int)) is None,
            decreases self.inflight_writes@.len() - i,
        {
            assert(all.take(i + 1).drop_last() =~= all.take(i as int));
            if let Some(e) = self.inflight_writes[i].err {
                proof {
                    lemma_first_error_stays(all, i + 1);
                }
                return Some(e);
            }
            i = i + 1;
        }
        assert(all.take(all.len() as int) =~= all);
        None
    }
}

proof fn lemma_first_error_stays(writes: Seq<InflightWriteBatch>, n: int)
    requires
        0 <= n <= writes.len(),
        first_error(writes.take(n)) is Some,
    ensures
        first_error(writes) == first_error(writes.take(n)),
    decreases writes.len() - n,
{
    if n < writes.len() {
        assert(writes.take(n + 1).drop_last() =~= writes.take(n));
        lemma_first_error_stays(writes, n + 1);
    } else {
        assert(writes.take(n) =~= writes);
    }
}

} // verus!
