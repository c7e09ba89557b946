//! One connection's view of the log: its snapshot, its locks, its transactions.

use vstd::prelude::*;
use crate::checkpoint_state::{CheckpointLocks, OngoingCheckpoint, OngoingView};
use crate::error::LimboError;
use crate::frame_index::page_frame;
use crate::rwlock::{LockView, NO_LOCK_HELD, READMARK_NOT_USED};
use crate::wal_shared::{increment, low32, next32, to_mark, SharedView, WalFileShared, READ_SLOTS};

verus! {

/// The frame to roll back to, and the log's checksum there.
#[derive(Debug, Clone, Copy, PartialEq, Eq)]
pub struct RollbackTo {
    pub frame: u64,
    pub checksum: (u32, u32),
}

/// One connection's part of the log.
#[derive(Debug)]
pub struct WalFile {
    pub syncing: bool,
    pub write_lock_held: bool,
    pub ongoing_checkpoint: OngoingCheckpoint,
    /// Frames beyond the copied ones that make a checkpoint worthwhile.
    pub checkpoint_threshold: usize,
    /// The slot that the connection holds as a reader.
    pub max_frame_read_lock_index: usize,
    /// The last frame that the connection reads.
    pub max_frame: u64,
    /// The first frame that the connection reads.
    pub min_frame: u64,
    /// The log's checksum at the last frame that the connection knows.
    pub last_checksum: (u32, u32),
    pub checkpoint_seq: u32,
    pub transaction_count: u64,
    /// The locks of a checkpoint that the connection runs.
    pub checkpoint_guard: Option<CheckpointLocks>,
}

/// The state of the log that a reader took note of.
#[derive(Debug, Clone, Copy, PartialEq, Eq)]
pub struct Snapshot {
    pub max_frame: u64,
    pub nbackfills: u64,
    pub last_checksum: (u32, u32),
    pub checkpoint_seq: u32,
    pub transaction_count: u64,
}

impl Snapshot {
    /// The state of the log `s`.
    pub open spec fn of(s: SharedView) -> Snapshot {
        Snapshot {
            max_frame: s.max_frame,
            nbackfills: s.nbackfills,
            last_checksum: s.last_checksum,
            checkpoint_seq: s.header.checkpoint_seq,
            transaction_count: s.transaction_count,
        }
    }

    /// Whether the log `s` still has the frames, the copied frames, the checksum
    /// and the sequence number that the snapshot has.
    pub open spec fn current(self, s: SharedView) -> bool {
        &&& self.max_frame == s.max_frame
        &&& self.nbackfills == s.nbackfills
        &&& self.last_checksum == s.last_checksum
        &&& self.checkpoint_seq == s.header.checkpoint_seq
    }
}

/// What came of an attempt to begin a read transaction.
#[derive(Debug, Clone, Copy, PartialEq, Eq, Structural)]
pub enum TryBeginReadResult {
    /// It began; whether the database changed since the connection's last one.
    Started(bool),
    /// Something was in the way for the moment.
    Retry,
}

/// What to do after attempts to begin a read transaction.
#[derive(Debug, Clone, Copy, PartialEq, Eq, Structural)]
pub enum ReadBackoff {
    /// Try again at once.
    Again,
    /// Let others run, then try again.
    Yield,
    /// Wait, then try again.
    Sleep { micros: u64 },
    /// Give up.
    Busy,
}

/// What came of a call to begin a read transaction.
#[derive(Debug, Clone, Copy, PartialEq, Eq, Structural)]
pub enum BeginRead {
    /// It began; whether the database changed since the connection's last one.
    Started(bool),
    /// The `attempts` so far failed; wait as told before the next one.
    Wait { attempts: u32, how: ReadBackoff },
}

/// What to do after `attempts` attempts: the first five are repeated at once, the
/// next four after a yield, those up to the hundredth after a delay that grows with the square
/// of their number, and then it is over.
pub open spec fn backoff_after(attempts: u32) -> ReadBackoff {
    if attempts > 100 {
        ReadBackoff::Busy
    } else if attempts <= 5 {
        ReadBackoff::Again
    } else if attempts < 10 {
        ReadBackoff::Yield
    } else {
        ReadBackoff::Sleep { micros: ((attempts - 9) * (attempts - 9) * 39) as u64 }
    }
}

/// What to do after `attempts` attempts to begin a read transaction.
pub fn read_backoff(attempts: u32) -> (r: ReadBackoff)
    ensures
        r == backoff_after(attempts),
{
    if attempts > 100 {
        return ReadBackoff::Busy;
    }
    if attempts > 5 {
        if attempts < 10 {
            ReadBackoff::Yield
        } else {
            let n: u32 = attempts - 9;
            assert(n * n <= 91 * 91) by (nonlinear_arith)
                requires
                    n <= 91,
            ;
            ReadBackoff::Sleep { micros: (n * n * 39) as u64 }
        }
    } else {
        ReadBackoff::Again
    }
}

/// The first slot from `i` on that somebody holds; 5 if there is none.
pub open spec fn first_busy(slots: Seq<LockView>, i: int) -> int
    decreases READ_SLOTS - i,
{
    if i >= READ_SLOTS {
        READ_SLOTS as int
    } else if !slots[i].free() {
        i
    } else {
        first_busy(slots, i + 1)
    }
}

/// The first slot from `i` on that nobody holds; 5 if there is none.
pub open spec fn first_free(slots: Seq<LockView>, i: int) -> int
    decreases READ_SLOTS - i,
{
    if i >= READ_SLOTS {
        READ_SLOTS as int
    } else if slots[i].free() {
        i
    } else {
        first_free(slots, i + 1)
    }
}

/// The slot from 1 up to `n` whose mark is greatest among those in use and not
/// above `limit`, with its mark; slot 0 and mark 0 if there is none.
pub open spec fn best_slot(slots: Seq<LockView>, limit: u32, n: int) -> (int, u32)
    decreases n,
{
    if n <= 1 {
        (0, 0)
    } else {
        let (idx, mark) = best_slot(slots, limit, n - 1);
        let m = slots[n - 1].value;
        if m != READMARK_NOT_USED && m <= limit && m > mark {
            (n - 1, m)
        } else {
            (idx, mark)
        }
    }
}

/// The slot that a reader up to `max` takes, its mark, and the slots after a mark
/// was raised for it: the best slot if its mark is `max`; else the first free one,
/// with its mark set; else the best one there is. Slot 0 if there is none.
pub open spec fn chosen_slot(slots: Seq<LockView>, max: u64) -> (int, u32, Seq<LockView>) {
    let (idx, mark) = best_slot(slots, low32(max), READ_SLOTS as int);
    let free = first_free(slots, 1);
    if (idx == 0 || (mark as u64) < max) && free < READ_SLOTS {
        (
            free,
            low32(max),
            slots.update(free, LockView { value: low32(max), ..slots[free] }),
        )
    } else {
        (idx, mark, slots)
    }
}

/// The slots with the marks of the free ones from 1 up to `n` taken back.
pub open spec fn marks_cleared(slots: Seq<LockView>, n: int) -> Seq<LockView> {
    Seq::new(
        slots.len(),
        |i: int|
            if 1 <= i < n {
                LockView { value: READMARK_NOT_USED, ..slots[i] }
            } else {
                slots[i]
            },
    )
}

/// The slots from 1 up to `n` held exclusively, with their marks taken back.
pub open spec fn readers_blocked(slots: Seq<LockView>, n: int) -> Seq<LockView> {
    Seq::new(
        slots.len(),
        |i: int|
            if 1 <= i < n {
                LockView { value: READMARK_NOT_USED, writer: true, ..slots[i] }
            } else {
                slots[i]
            },
    )
}

/// The slots from 1 on given up.
pub open spec fn readers_unblocked(slots: Seq<LockView>) -> Seq<LockView> {
    Seq::new(
        slots.len(),
        |i: int|
            if 1 <= i {
                slots[i].released()
            } else {
                slots[i]
            },
    )
}

pub proof fn lemma_first_busy(slots: Seq<LockView>, i: int)
    requires
        0 <= i <= READ_SLOTS,
    ensures
        i <= first_busy(slots, i) <= READ_SLOTS,
        first_busy(slots, i) < READ_SLOTS ==> !slots[first_busy(slots, i)].free(),
        forall|j: int| i <= j < first_busy(slots, i) ==> (#[trigger] slots[j]).free(),
    decreases READ_SLOTS - i,
{
    if i < READ_SLOTS && slots[i].free() {
        lemma_first_busy(slots, i + 1);
    }
}

pub proof fn lemma_first_free(slots: Seq<LockView>, i: int)
    requires
        0 <= i <= READ_SLOTS,
    ensures
        i <= first_free(slots, i) <= READ_SLOTS,
        first_free(slots, i) < READ_SLOTS ==> slots[first_free(slots, i)].free(),
        forall|j: int| i <= j < first_free(slots, i) ==> !(#[trigger] slots[j]).free(),
    decreases READ_SLOTS - i,
{
    if i < READ_SLOTS && !slots[i].free() {
        lemma_first_free(slots, i + 1);
    }
}

pub proof fn lemma_best_slot(slots: Seq<LockView>, limit: u32, n: int)
    requires
        1 <= n <= READ_SLOTS,
    ensures
        ({
            let (idx, mark) = best_slot(slots, limit, n);
            &&& 0 <= idx < n
            &&& idx == 0 <==> mark == 0
            &&& idx > 0 ==> slots[idx].value == mark && mark <= limit && mark
                != READMARK_NOT_USED
            &&& forall|j: int|
                1 <= j < n && (#[trigger] slots[j]).value != READMARK_NOT_USED && slots[j].value
                    <= limit ==> slots[j].value <= mark
        }),
    decreases n,
{
    if n > 1 {
        lemma_best_slot(slots, limit, n - 1);
    }
}

impl WalFile {
    /// The connection's locks are held in the log: its slot as a reader, the
    /// write lock if it says so, and those of its checkpoint.
    pub open spec fn locks_held(&self, s: SharedView) -> bool {
        &&& self.max_frame_read_lock_index != NO_LOCK_HELD ==> {
            &&& self.max_frame_read_lock_index < READ_SLOTS
            &&& s.slots[self.max_frame_read_lock_index as int].readers > 0
        }
        &&& self.write_lock_held ==> s.write_lock.writer
        &&& self.checkpoint_guard matches Some(g) ==> g.held(s)
    }

    /// The connection's own state is sound.
    pub open spec fn wf(&self) -> bool {
        self.ongoing_checkpoint.wf()
    }

    /// A connection that has read nothing yet, for a log that ends at `max_frame`.
    pub fn new(last_checksum: (u32, u32), max_frame: u64) -> (r: WalFile)
        ensures
            r.wf(),
            r.ongoing_checkpoint@ == OngoingView::idle(),
            r == (WalFile {
                syncing: false,
                write_lock_held: false,
                ongoing_checkpoint: r.ongoing_checkpoint,
                checkpoint_threshold: 1000,
                max_frame_read_lock_index: NO_LOCK_HELD,
                max_frame,
                min_frame: 0,
                last_checksum,
                checkpoint_seq: 0,
                transaction_count: 0,
                checkpoint_guard: None,
            }),
    {
        WalFile {
            syncing: false,
            write_lock_held: false,
            ongoing_checkpoint: OngoingCheckpoint::new(),
            checkpoint_threshold: 1000,
            max_frame_read_lock_index: NO_LOCK_HELD,
            max_frame,
            min_frame: 0,
            last_checksum,
            checkpoint_seq: 0,
            transaction_count: 0,
            checkpoint_guard: None,
        }
    }

    /// Whether the log is not as the connection last saw it.
    pub open spec fn sees_change(&self, s: SharedView) -> bool {
        ||| s.max_frame != self.max_frame
        ||| s.last_checksum != self.last_checksum
        ||| s.header.checkpoint_seq != self.checkpoint_seq
        ||| s.transaction_count != self.transaction_count
        ||| s.nbackfills + 1 != self.min_frame
    }

    /// The connection after it took note of `snap`.
    pub open spec fn refreshed(self, snap: Snapshot) -> WalFile {
        WalFile {
            max_frame: snap.max_frame,
            min_frame: (snap.nbackfills + 1) as u64,
            last_checksum: snap.last_checksum,
            checkpoint_seq: snap.checkpoint_seq,
            transaction_count: snap.transaction_count,
            ..self
        }
    }

    /// The connection as a reader in `slot` of the state `snap`.
    pub open spec fn reading(self, snap: Snapshot, slot: usize) -> WalFile {
        WalFile { max_frame_read_lock_index: slot, ..self.refreshed(snap) }
    }

    /// Whether the log changed since the connection's last read transaction.
    pub fn db_changed(&self, shared: &WalFileShared) -> (r: bool)
        requires
            shared@.nbackfills < u64::MAX,
        ensures
            r == self.sees_change(shared@),
    {
        shared.max_frame != self.max_frame || shared.last_checksum.0 != self.last_checksum.0
            || shared.last_checksum.1 != self.last_checksum.1
            || shared.wal_header.checkpoint_seq != self.checkpoint_seq || shared.transaction_count
            != self.transaction_count || shared.nbackfills + 1 != self.min_frame
    }

    /// The state of the log now.
    pub fn snapshot(shared: &WalFileShared) -> (r: Snapshot)
        ensures
            r == Snapshot::of(shared@),
    {
        Snapshot {
            max_frame: shared.max_frame,
            nbackfills: shared.nbackfills,
            last_checksum: shared.last_checksum,
            checkpoint_seq: shared.wal_header.checkpoint_seq,
            transaction_count: shared.transaction_count,
        }
    }

    /// Brings the connection up to date without a read transaction, and says
    /// whether there was anything new.
    pub fn mvcc_refresh_if_db_changed(&mut self, shared: &WalFileShared) -> (r: bool)
        requires
            shared@.nbackfills < u64::MAX,
        ensures
            r == old(self).sees_change(shared@),
            *final(self) == (if r {
                old(self).refreshed(Snapshot::of(shared@))
            } else {
                *old(self)
            }),
    {
        let changed = self.db_changed(shared);
        if changed {
            self.max_frame = shared.max_frame;
            self.min_frame = shared.nbackfills + 1;
            self.last_checksum = shared.last_checksum;
            self.checkpoint_seq = shared.wal_header.checkpoint_seq;
            self.transaction_count = shared.transaction_count;
        }
        changed
    }

    /// Chooses the slot for a reader up to `max`, and raises the mark of a free one
    /// if none stands at `max`. `None` if every slot is taken and unusable.
    pub fn choose_slot(shared: &mut WalFileShared, max: u64) -> (r: Option<(usize, u32)>)
        requires
            old(shared)@.wf(),
        ensures
            final(shared)@.wf(),
            ({
                let (idx, mark, slots) = chosen_slot(old(shared)@.slots, max);
                &&& final(shared)@ == old(shared)@.with_slots(slots)
                &&& idx == 0 ==> r is None
                &&& idx != 0 ==> {
                    &&& 1 <= idx < READ_SLOTS
                    &&& r == Some((idx as usize, mark))
                    &&& slots[idx].value == mark
                }
            }),
    {
        let limit: u32 = to_mark(max);
        let mut best_idx: usize = 0;
        let mut best_mark: u32 = 0;
        let ghost before = shared@;
        let mut idx: usize = 1;
        while idx < READ_SLOTS
            invariant
                1 <= idx <= READ_SLOTS,
                shared@ == before,
                limit == low32(max),
                (best_idx as int, best_mark) == best_slot(before.slots, limit, idx as int),
            decreases READ_SLOTS - idx,
        {
            let m: u32 = shared.mark(idx);
            if m != READMARK_NOT_USED && m <= limit && m > best_mark {
                best_mark = m;
                best_idx = idx;
            }
            idx = idx + 1;
        }
        proof {
            lemma_best_slot(before.slots, limit, READ_SLOTS as int);
            lemma_first_free(before.slots, 1);
        }
        if best_idx == 0 || (best_mark as u64) < max {
            let mut i: usize = 1;
            while i < READ_SLOTS
                invariant
                    1 <= i <= READ_SLOTS,
                    shared@ == before,
                    before == old(shared)@,
                    before.wf(),
                    limit == low32(max),
                    first_free(before.slots, 1) == first_free(before.slots, i as int),
                    (best_idx as int, best_mark) == best_slot(
                        before.slots,
                        limit,
                        READ_SLOTS as int,
                    ),
                    best_idx == 0 || (best_mark as u64) < max,
                decreases READ_SLOTS - i,
            {
                if shared.lock_slot(i) {
                    shared.set_mark(i, limit);
                    shared.unlock_slot(i);
                    proof {
                        assert(first_free(before.slots, 1) == i);
                        assert(shared@.slots =~= chosen_slot(before.slots, max).2);
                        assert(shared@ =~= before.with_slots(chosen_slot(before.slots, max).2));
                    }
                    return Some((i, limit));
                }
                i = i + 1;
            }
        }
        assert(shared@ =~= before.with_slots(before.slots));
        if best_idx == 0 {
            return None;
        }
        Some((best_idx, best_mark))
    }

    /// Takes `slot` as a reader of the state `snap`, and makes sure that the state
    /// and, if it is given, the slot's mark are still the same: otherwise the slot
    /// is given up again and the attempt has to be repeated.
    pub fn enter_slot(
        &mut self,
        shared: &mut WalFileShared,
        slot: usize,
        mark: Option<u32>,
        snap: Snapshot,
        db_changed: bool,
    ) -> (r: TryBeginReadResult)
        requires
            old(shared)@.wf(),
            slot < READ_SLOTS,
            old(shared)@.slots[slot as int].readers < 0x7fff_ffff,
            snap.nbackfills < u64::MAX,
        ensures
            final(shared)@.wf(),
            ({
                let s = old(shared)@;
                let lock = s.slots[slot as int];
                let ok = !lock.writer && snap.current(s) && (mark matches Some(m) ==> lock.value
                    == m);
                &&& ok ==> {
                    &&& r == TryBeginReadResult::Started(db_changed)
                    &&& final(shared)@ == s.with_slot(slot as int, lock.add_reader())
                    &&& *final(self) == old(self).reading(snap, slot)
                }
                &&& !ok ==> {
                    &&& r == TryBeginReadResult::Retry
                    &&& final(shared)@ == s
                    &&& *final(self) == *old(self)
                }
            }),
    {
        let ghost before = shared@;
        if !shared.read_slot(slot) {
            return TryBeginReadResult::Retry;
        }
        let mark_moved = match mark {
            Some(m) => shared.mark(slot) != m,
            None => false,
        };
        if mark_moved || shared.max_frame != snap.max_frame || shared.nbackfills != snap.nbackfills
            || shared.last_checksum.0 != snap.last_checksum.0 || shared.last_checksum.1
            != snap.last_checksum.1 || shared.wal_header.checkpoint_seq != snap.checkpoint_seq {
            shared.unlock_slot(slot);
            assert(shared@ =~= before);
            return TryBeginReadResult::Retry;
        }
        self.min_frame = snap.nbackfills + 1;
        self.max_frame = snap.max_frame;
        self.max_frame_read_lock_index = slot;
        self.last_checksum = snap.last_checksum;
        self.checkpoint_seq = snap.checkpoint_seq;
        self.transaction_count = snap.transaction_count;
        TryBeginReadResult::Started(db_changed)
    }

    /// Where a reader of the log `s` goes: its slot, the mark that it expects there,
    /// and the log after a mark was raised for it. `None` if it has nowhere to go.
    pub open spec fn entry(s: SharedView) -> Option<(int, Option<u32>, SharedView)> {
        if s.max_frame == s.nbackfills {
            Some((0, None, s))
        } else {
            let (idx, mark, slots) = chosen_slot(s.slots, s.max_frame);
            if idx == 0 {
                None
            } else {
                Some((idx, Some(mark), s.with_slots(slots)))
            }
        }
    }

    /// The log after a mark was raised for a reader, if one was.
    pub open spec fn after_choice(s: SharedView) -> SharedView {
        if s.max_frame == s.nbackfills {
            s
        } else {
            s.with_slots(chosen_slot(s.slots, s.max_frame).2)
        }
    }

    /// Tries to begin a read transaction. If all of the log is in the database file
    /// the reader takes slot 0 and reads from that file alone; else it takes one of
    /// the other slots.
    pub fn try_begin_read_tx(&mut self, shared: &mut WalFileShared) -> (r: TryBeginReadResult)
        requires
            old(shared)@.wf(),
            old(self).max_frame_read_lock_index == NO_LOCK_HELD,
            forall|i: int|
                0 <= i < READ_SLOTS ==> (#[trigger] old(shared)@.slots[i]).readers < 0x7fff_ffff,
            old(shared)@.nbackfills < u64::MAX,
        ensures
            final(shared)@.wf(),
            ({
                let s = old(shared)@;
                match WalFile::entry(s) {
                    Some((idx, _, chosen)) if !chosen.slots[idx].writer => {
                        &&& 0 <= idx < READ_SLOTS
                        &&& r == TryBeginReadResult::Started(old(self).sees_change(s))
                        &&& final(shared)@ == chosen.with_slot(idx, chosen.slots[idx].add_reader())
                        &&& *final(self) == old(self).reading(Snapshot::of(s), idx as usize)
                    },
                    _ => {
                        &&& r == TryBeginReadResult::Retry
                        &&& final(shared)@ == WalFile::after_choice(s)
                        &&& *final(self) == *old(self)
                    },
                }
            }),
    {
        let snap = WalFile::snapshot(shared);
        let db_changed = self.db_changed(shared);
        if snap.max_frame == snap.nbackfills {
            return self.enter_slot(shared, 0, None, snap, db_changed);
        }
        match WalFile::choose_slot(shared, snap.max_frame) {
            None => TryBeginReadResult::Retry,
            Some((slot, mark)) => {
                self.enter_slot(shared, slot, Some(mark), snap, db_changed)
            },
        }
    }

    /// Begins a read transaction after `attempts` attempts that failed, or says
    /// how to wait before the next one; fails with `Busy` after a hundred.
    pub fn begin_read_tx(&mut self, shared: &mut WalFileShared, attempts: u32) -> (r: Result<
        BeginRead,
        LimboError,
    >)
        requires
            old(shared)@.wf(),
            old(self).max_frame_read_lock_index == NO_LOCK_HELD,
            forall|i: int|
                0 <= i < READ_SLOTS ==> (#[trigger] old(shared)@.slots[i]).readers < 0x7fff_ffff,
            old(shared)@.nbackfills < u64::MAX,
            attempts < u32::MAX,
        ensures
            final(shared)@.wf(),
            ({
                let s = old(shared)@;
                match WalFile::entry(s) {
                    Some((idx, _, chosen)) if !chosen.slots[idx].writer => {
                        &&& 0 <= idx < READ_SLOTS
                        &&& r == Ok::<BeginRead, LimboError>(
                            BeginRead::Started(old(self).sees_change(s)),
                        )
                        &&& final(shared)@ == chosen.with_slot(idx, chosen.slots[idx].add_reader())
                        &&& *final(self) == old(self).reading(Snapshot::of(s), idx as usize)
                    },
                    _ => {
                        &&& final(shared)@ == WalFile::after_choice(s)
                        &&& *final(self) == *old(self)
                        &&& if attempts >= 100 {
                            r == Err::<BeginRead, LimboError>(LimboError::Busy)
                        } else {
                            r == Ok::<BeginRead, LimboError>(
                                BeginRead::Wait {
                                    attempts: (attempts + 1) as u32,
                                    how: backoff_after((attempts + 1) as u32),
                                },
                            )
                        }
                    },
                }
            }),
    {
        match self.try_begin_read_tx(shared) {
            TryBeginReadResult::Started(changed) => Ok(BeginRead::Started(changed)),
            TryBeginReadResult::Retry => {
                let attempts: u32 = attempts + 1;
                match read_backoff(attempts) {
                    ReadBackoff::Busy => Err(LimboError::Busy),
                    how => Ok(BeginRead::Wait { attempts, how }),
                }
            },
        }
    }

    /// The log after the connection gave up its slot as a reader, if it has one.
    pub open spec fn reader_gone(&self, s: SharedView) -> SharedView {
        if self.max_frame_read_lock_index == NO_LOCK_HELD {
            s
        } else {
            let i = self.max_frame_read_lock_index as int;
            s.with_slot(i, s.slots[i].released())
        }
    }

    /// Ends the read transaction, if there is one.
    pub fn end_read_tx(&mut self, shared: &mut WalFileShared)
        requires
            old(shared)@.wf(),
            old(self).locks_held(old(shared)@),
        ensures
            final(shared)@.wf(),
            *final(self) == (WalFile { max_frame_read_lock_index: NO_LOCK_HELD, ..*old(self) }),
            final(shared)@ == old(self).reader_gone(old(shared)@),
    {
        let slot: usize = self.max_frame_read_lock_index;
        if slot != NO_LOCK_HELD {
            shared.unlock_slot(slot);
            self.max_frame_read_lock_index = NO_LOCK_HELD;
        }
    }

    /// Whether the log can be started over before a write, apart from its readers:
    /// the writer reads from the database file alone, and all of the log is in there.
    pub open spec fn may_restart(&self, s: SharedView) -> bool {
        &&& self.max_frame_read_lock_index == 0
        &&& s.nbackfills != 0
        &&& s.max_frame == s.nbackfills
    }

    /// The log after an attempt to start it over while slot 0 is held exclusively,
    /// with the readers still kept out if that worked.
    pub open spec fn restart_attempt(s: SharedView, salt_2: u32) -> SharedView {
        let busy = first_busy(s.slots, 1);
        if busy < READ_SLOTS {
            s.with_slots(marks_cleared(s.slots, busy))
        } else {
            s.with_slots(readers_blocked(s.slots, READ_SLOTS as int)).restarted(salt_2)
        }
    }

    /// The connection after it started the log over.
    pub open spec fn after_restart(self, s: SharedView) -> WalFile {
        WalFile {
            last_checksum: (s.header.checksum_1, s.header.checksum_2),
            max_frame: 0,
            min_frame: 0,
            checkpoint_seq: next32(self.checkpoint_seq),
            ..self
        }
    }

    /// Starts the log over, with slot 0 held exclusively. Every other slot is taken
    /// too; if one of them is in use, they are given up again and it fails.
    pub fn restart_log(&mut self, shared: &mut WalFileShared, salt_2: u32) -> (r: Result<
        (),
        LimboError,
    >)
        requires
            old(shared)@.wf(),
            old(shared)@.slots[0].writer,
        ensures
            final(shared)@.wf(),
            final(shared)@ == WalFile::restart_attempt(old(shared)@, salt_2),
            if first_busy(old(shared)@.slots, 1) < READ_SLOTS {
                &&& r == Err::<(), LimboError>(LimboError::Busy)
                &&& *final(self) == *old(self)
            } else {
                &&& r == Ok::<(), LimboError>(())
                &&& *final(self) == old(self).after_restart(old(shared)@)
            },
    {
        let ghost before = shared@;
        let mut idx: usize = 1;
        while idx < READ_SLOTS
            invariant
                1 <= idx <= READ_SLOTS,
                before.wf(),
                shared@ == before.with_slots(readers_blocked(before.slots, idx as int)),
                first_busy(before.slots, 1) == first_busy(before.slots, idx as int),
                forall|j: int| 1 <= j < idx ==> (#[trigger] before.slots[j]).free(),
                *self == *old(self),
                before == old(shared)@,
            decreases READ_SLOTS - idx,
        {
            let ghost slots = shared@.slots;
            if !shared.lock_slot(idx) {
                proof {
                    lemma_first_busy(before.slots, idx as int);
                    assert(first_busy(before.slots, 1) == idx);
                }
                let mut j: usize = 1;
                while j < idx
                    invariant
                        1 <= j <= idx < READ_SLOTS,
                        before.wf(),
                        forall|k: int| 1 <= k < idx ==> (#[trigger] before.slots[k]).free(),
                        shared@ == before.with_slots(
                            Seq::new(
                                5,
                                |i: int|
                                    if 1 <= i < j {
                                        LockView { value: READMARK_NOT_USED, ..before.slots[i] }
                                    } else if j <= i < idx {
                                        LockView {
                                            value: READMARK_NOT_USED,
                                            writer: true,
                                            ..before.slots[i]
                                        }
                                    } else {
                                        before.slots[i]
                                    },
                            ),
                        ),
                    decreases idx - j,
                {
                    assert(before.slots[j as int].free());
                    shared.unlock_slot(j);
                    j = j + 1;
                }
                assert(shared@.slots =~= marks_cleared(before.slots, idx as int));
                assert(shared@ =~= WalFile::restart_attempt(before, salt_2));
                assert forall|i: int| 0 <= i < READ_SLOTS implies (#[trigger] shared@.slots[i]).wf() by {
                    assert(before.slots[i].wf());
                }
                return Err(LimboError::Busy);
            }
            shared.set_mark(idx, READMARK_NOT_USED);
            assert(before.slots[idx as int] == slots[idx as int]);
            idx = idx + 1;
            assert(shared@ =~= before.with_slots(readers_blocked(before.slots, idx as int)));
        }
        proof {
            lemma_first_busy(before.slots, 1);
            assert(first_busy(before.slots, 1) == READ_SLOTS);
        }
        shared.restart_wal_header(salt_2);
        assert forall|i: int| 0 <= i < READ_SLOTS implies (#[trigger] shared@.slots[i]).wf() by {
            assert(before.slots[i].wf());
            assert(i > 0 ==> before.slots[i].free());
        }
        self.last_checksum = shared.last_checksum;
        self.max_frame = 0;
        self.min_frame = 0;
        self.checkpoint_seq = increment(self.checkpoint_seq);
        Ok(())
    }

    /// Gives up the slots that starting the log over has taken.
    pub fn unlock_after_restart(shared: &mut WalFileShared)
        requires
            old(shared)@.wf(),
            forall|i: int| 1 <= i < READ_SLOTS ==> (#[trigger] old(shared)@.slots[i]).writer,
        ensures
            final(shared)@.wf(),
            final(shared)@ == old(shared)@.with_slots(readers_unblocked(old(shared)@.slots)),
    {
        let ghost before = shared@;
        let mut idx: usize = 1;
        while idx < READ_SLOTS
            invariant
                1 <= idx <= READ_SLOTS,
                before.wf(),
                forall|i: int| 1 <= i < READ_SLOTS ==> (#[trigger] before.slots[i]).writer,
                shared@ == before.with_slots(
                    Seq::new(
                        5,
                        |i: int|
                            if 1 <= i < idx {
                                before.slots[i].released()
                            } else {
                                before.slots[i]
                            },
                    ),
                ),
            decreases READ_SLOTS - idx,
        {
            assert(before.slots[idx as int].writer);
            shared.unlock_slot(idx);
            idx = idx + 1;
        }
        assert(shared@.slots =~= readers_unblocked(before.slots));
        assert forall|i: int| 0 <= i < READ_SLOTS implies (#[trigger] shared@.slots[i]).wf() by {
            assert(before.slots[i].wf());
        }
    }

    /// Whether an attempt to start the log over before a write works: the writer
    /// is alone in slot 0 and nobody is in another slot.
    pub open spec fn restart_works(&self, s: SharedView) -> bool {
        &&& self.may_restart(s)
        &&& s.slots[0].readers == 1
        &&& first_busy(s.slots, 1) == READ_SLOTS
    }

    /// The log after an attempt to start it over before a write.
    pub open spec fn restart_before_write(&self, s: SharedView, salt_2: u32) -> SharedView {
        if !self.may_restart(s) || s.slots[0].readers != 1 {
            s
        } else {
            let locked = s.with_slot(0, s.slots[0].upgraded());
            let tried = WalFile::restart_attempt(locked, salt_2);
            let opened = if first_busy(s.slots, 1) < READ_SLOTS {
                tried
            } else {
                SharedView {
                    epoch: next32(tried.epoch),
                    ..tried.with_slots(readers_unblocked(tried.slots))
                }
            };
            opened.with_slot(0, opened.slots[0].downgraded())
        }
    }

    /// Tries to start the log over before a write, to keep it short. That takes a
    /// writer that reads from the database file alone, a log all of which is in there,
    /// and no other reader. It fails with `Busy` only if a slot other than 0 is in use.
    pub fn try_restart_log_before_write(&mut self, shared: &mut WalFileShared, salt_2: u32) -> (r:
        Result<(), LimboError>)
        requires
            old(shared)@.wf(),
            old(self).locks_held(old(shared)@),
            old(self).max_frame_read_lock_index != NO_LOCK_HELD,
            old(self).checkpoint_guard is None,
            old(shared)@.nbackfills <= old(shared)@.max_frame,
        ensures
            final(shared)@.wf(),
            final(shared)@ == old(self).restart_before_write(old(shared)@, salt_2),
            *final(self) == (if old(self).restart_works(old(shared)@) {
                old(self).after_restart(old(shared)@)
            } else {
                *old(self)
            }),
            r == (if old(self).may_restart(old(shared)@) && old(shared)@.slots[0].readers == 1
                && first_busy(old(shared)@.slots, 1) < READ_SLOTS {
                Err::<(), LimboError>(LimboError::Busy)
            } else {
                Ok::<(), LimboError>(())
            }),
    {
        let ghost before = shared@;
        if self.max_frame_read_lock_index != 0 {
            return Ok(());
        }
        if shared.nbackfills == 0 {
            return Ok(());
        }
        if shared.max_frame != shared.nbackfills {
            return Ok(());
        }
        if !shared.read_locks[0].upgrade() {
            assert(shared@ =~= before);
            return Ok(());
        }
        let ghost locked = before.with_slot(0, before.slots[0].upgraded());
        assert(shared@ =~= locked);
        proof {
            lemma_first_busy(before.slots, 1);
            lemma_first_busy(locked.slots, 1);
            lemma_busy_elsewhere(before.slots, locked.slots, 1);
        }
        let result = self.restart_log(shared, salt_2);
        let ghost tried = shared@;
        if result.is_ok() {
            shared.epoch = increment(shared.epoch);
            assert(shared@.slots =~= tried.slots);
            WalFile::unlock_after_restart(shared);
        }
        let ghost opened = shared@;
        assert(opened.slots[0].writer);
        assert(opened.slots[0] == shared.read_locks@[0]@);
        shared.read_locks[0].downgrade();
        assert(shared@ =~= opened.with_slot(0, opened.slots[0].downgraded()));
        assert(shared@ =~= old(self).restart_before_write(before, salt_2));
        result
    }

    /// Begins a write transaction, which takes a read transaction on the latest state.
    /// Fails with `Busy` if there is another writer, and with `BusySnapshot` if
    /// the log changed since the read transaction began. `salt_2` is a random number
    /// for the log's header, in case the log is started over.
    pub fn begin_write_tx(&mut self, shared: &mut WalFileShared, salt_2: u32) -> (r: Result<
        (),
        LimboError,
    >)
        requires
            old(shared)@.wf(),
            old(self).locks_held(old(shared)@),
            old(self).max_frame_read_lock_index != NO_LOCK_HELD,
            !old(self).write_lock_held,
            old(self).checkpoint_guard is None,
            old(shared)@.nbackfills <= old(shared)@.max_frame,
            old(shared)@.nbackfills < u64::MAX,
        ensures
            final(shared)@.wf(),
            ({
                let s = old(shared)@;
                if !s.write_lock.free() {
                    &&& r == Err::<(), LimboError>(LimboError::Busy)
                    &&& final(shared)@ == s
                    &&& *final(self) == *old(self)
                } else if old(self).sees_change(s) {
                    &&& r == Err::<(), LimboError>(LimboError::BusySnapshot)
                    &&& final(shared)@ == s
                    &&& *final(self) == *old(self)
                } else {
                    let w = SharedView { write_lock: s.write_lock.add_writer(), ..s };
                    &&& r == Ok::<(), LimboError>(())
                    &&& final(shared)@ == old(self).restart_before_write(w, salt_2)
                    &&& *final(self) == (if old(self).restart_works(s) {
                        (WalFile { write_lock_held: true, ..old(self).after_restart(s) })
                    } else {
                        (WalFile { write_lock_held: true, ..*old(self) })
                    })
                }
            }),
    {
        let ghost before = shared@;
        if !shared.write_lock.write() {
            assert(shared@ =~= before);
            return Err(LimboError::Busy);
        }
        let ghost locked = SharedView { write_lock: before.write_lock.add_writer(), ..before };
        assert(shared@ =~= locked);
        if self.db_changed(shared) {
            shared.write_lock.unlock();
            assert(shared@ =~= before);
            return Err(LimboError::BusySnapshot);
        }
        self.write_lock_held = true;
        let _ = self.try_restart_log_before_write(shared, salt_2);
        Ok(())
    }

    /// Ends the write transaction.
    pub fn end_write_tx(&mut self, shared: &mut WalFileShared)
        requires
            old(shared)@.wf(),
            old(self).write_lock_held,
            old(self).locks_held(old(shared)@),
        ensures
            final(shared)@.wf(),
            *final(self) == (WalFile { write_lock_held: false, ..*old(self) }),
            final(shared)@ == (SharedView {
                write_lock: old(shared)@.write_lock.released(),
                ..old(shared)@
            }),
    {
        self.write_lock_held = false;
        let ghost before = shared@;
        shared.write_lock.unlock();
        assert(shared@ =~= (SharedView { write_lock: before.write_lock.released(), ..before }));
    }

    /// Whether the connection is in a read transaction.
    pub fn holds_read_lock(&self) -> (r: bool)
        ensures
            r == (self.max_frame_read_lock_index != NO_LOCK_HELD),
    {
        self.max_frame_read_lock_index != NO_LOCK_HELD
    }

    /// Whether the connection is in a write transaction.
    pub fn holds_write_lock(&self) -> (r: bool)
        ensures
            r == self.write_lock_held,
    {
        self.write_lock_held
    }

    /// Whether the connection reads from the database file alone.
    pub open spec fn ignores_log(&self) -> bool {
        self.max_frame_read_lock_index == 0 && self.max_frame < self.min_frame
    }

    /// The frame in which the connection finds a page.
    pub open spec fn found_frame(&self, s: SharedView, page: u64, watermark: Option<u64>) -> Option<
        u64,
    > {
        if self.ignores_log() {
            None
        } else {
            match watermark {
                Some(w) => page_frame(s.frames, page, 0, w),
                None => page_frame(s.frames, page, self.min_frame, self.max_frame),
            }
        }
    }

    /// The last frame with the page among those that the connection reads; with a
    /// watermark, the last one up to it.
    pub fn find_frame(
        &self,
        shared: &WalFileShared,
        page_id: u64,
        frame_watermark: Option<u64>,
    ) -> (r: Result<Option<u64>, LimboError>)
        requires
            frame_watermark matches Some(w) ==> shared@.nbackfills <= w <= self.max_frame,
        ensures
            r == Ok::<Option<u64>, LimboError>(self.found_frame(shared@, page_id, frame_watermark)),
    {
        if self.max_frame_read_lock_index == 0 && self.max_frame < self.min_frame {
            return Ok(None);
        }
        let (lo, hi) = match frame_watermark {
            Some(w) => (0, w),
            None => (self.min_frame, self.max_frame),
        };
        Ok(shared.frame_cache.find(page_id, lo, hi))
    }

    /// Whether the log is long enough for a checkpoint.
    pub fn should_checkpoint(&self, shared: &WalFileShared) -> (r: bool)
        ensures
            r == (shared@.max_frame > self.checkpoint_threshold + shared@.nbackfills),
    {
        (shared.max_frame as u128) > (self.checkpoint_threshold as u128) + (
        shared.nbackfills as u128)
    }

    /// Whether the log is being synced.
    pub fn is_syncing(&self) -> (r: bool)
        ensures
            r == self.syncing,
    {
        self.syncing
    }

    /// Notes that a sync of the log was requested.
    pub fn sync(&mut self)
        ensures
            *final(self) == (WalFile { syncing: true, ..*old(self) }),
    {
        self.syncing = true;
    }

    /// Notes that a sync of the log is over, well or not.
    pub fn sync_finished(&mut self)
        ensures
            *final(self) == (WalFile { syncing: false, ..*old(self) }),
    {
        self.syncing = false;
    }

    /// The last committed frame of the log.
    pub fn get_max_frame_in_wal(&self, shared: &WalFileShared) -> (r: u64)
        ensures
            r == shared@.max_frame,
    {
        shared.max_frame
    }

    /// The sequence number in the log's header.
    pub fn get_checkpoint_seq(&self, shared: &WalFileShared) -> (r: u32)
        ensures
            r == shared@.header.checkpoint_seq,
    {
        shared.wal_header.checkpoint_seq
    }

    /// The last frame that the connection reads.
    pub fn get_max_frame(&self) -> (r: u64)
        ensures
            r == self.max_frame,
    {
        self.max_frame
    }

    /// The first frame that the connection reads.
    pub fn get_min_frame(&self) -> (r: u64)
        ensures
            r == self.min_frame,
    {
        self.min_frame
    }

    /// The log's checksum at the last frame that the connection knows.
    pub fn get_last_checksum(&self) -> (r: (u32, u32))
        ensures
            r == self.last_checksum,
    {
        self.last_checksum
    }

    /// Brings the last frame that the connection reads up to the log's.
    pub fn update_max_frame(&mut self, shared: &WalFileShared)
        ensures
            *final(self) == (WalFile { max_frame: shared@.max_frame, ..*old(self) }),
    {
        self.max_frame = shared.max_frame;
    }
}

pub proof fn lemma_busy_elsewhere(a: Seq<LockView>, b: Seq<LockView>, i: int)
    requires
        1 <= i <= READ_SLOTS,
        forall|j: int| 1 <= j < READ_SLOTS ==> #[trigger] a[j] == b[j],
    ensures
        first_busy(a, i) == first_busy(b, i),
    decreases READ_SLOTS - i,
{
    if i < READ_SLOTS {
        assert(a[i] == b[i]);
        lemma_busy_elsewhere(a, b, i + 1);
    }
}

/// A reader that has just begun sees no change: what it took note of is the log's state, and only
/// the slots were touched since.
pub proof fn law_fresh_reader_is_current(w: WalFile, s: SharedView, t: SharedView, slot: usize)
    requires
        s.nbackfills < u64::MAX,
        t == s.with_slots(t.slots),
    ensures
        !w.reading(Snapshot::of(s), slot).sees_change(t),
{
}

/// There is one writer at a time: once the write lock is taken, nobody else gets it, as a
/// writer or as a reader, until it is given up, and then it is as it was.
pub proof fn law_one_writer_at_a_time(s: SharedView)
    requires
        s.wf(),
        s.write_lock.free(),
    ensures
        !s.write_lock.add_writer().free(),
        s.write_lock.add_writer().released() == s.write_lock,
{
}

/// The mark of a slot that has a reader is touched neither when another reader chooses its slot nor
/// when a writer tries to start the log over.
pub proof fn law_marks_of_readers_stay(s: SharedView, max: u64, salt_2: u32, i: int)
    requires
        s.wf(),
        1 <= i < READ_SLOTS,
        s.slots[i].readers > 0,
    ensures
        chosen_slot(s.slots, max).2[i] == s.slots[i],
        WalFile::restart_attempt(s, salt_2).slots[i] == s.slots[i],
{
    lemma_first_free(s.slots, 1);
    lemma_first_busy(s.slots, 1);
    assert(!s.slots[i].free());
}

/// A reader of a slot other than 0 has a mark in it that is not beyond its snapshot, and from the
/// slot's mark alone a checkpoint can tell how far it may copy.
pub proof fn law_reader_mark_is_within_snapshot(s: SharedView)
    requires
        s.wf(),
        s.max_frame < READMARK_NOT_USED,
    ensures
        WalFile::entry(s) matches Some((idx, Some(mark), chosen)) ==> {
            &&& 1 <= idx < READ_SLOTS
            &&& chosen.slots[idx].value == mark
            &&& mark <= s.max_frame
        },
{
    lemma_first_free(s.slots, 1);
    lemma_best_slot(s.slots, low32(s.max_frame), READ_SLOTS as int);
}

/// Before a write, the log is started over only if all of it is in the database file and nobody but
/// the writer reads; otherwise its frames and its end are what they were.
pub proof fn law_log_starts_over_only_when_copied(w: WalFile, s: SharedView, salt_2: u32)
    requires
        s.wf(),
        !w.restart_works(s),
    ensures
        w.restart_before_write(s, salt_2).frames == s.frames,
        w.restart_before_write(s, salt_2).max_frame == s.max_frame,
        w.restart_before_write(s, salt_2).nbackfills == s.nbackfills,
        w.restart_before_write(s, salt_2).header == s.header,
{
    lemma_first_busy(s.slots, 1);
    let locked = s.with_slot(0, s.slots[0].upgraded());
    lemma_first_busy(locked.slots, 1);
    lemma_busy_elsewhere(s.slots, locked.slots, 1);
}

/// A log that was started over is empty and has a new header: no page is found in it, and a frame
/// that is left from before does not fit it.
pub proof fn law_restarted_log_is_empty(s: SharedView, salt_2: u32, page: u64, lo: u64, hi: u64)
    ensures
        s.restarted(salt_2).max_frame == 0,
        s.restarted(salt_2).nbackfills == 0,
        page_frame(s.restarted(salt_2).frames, page, lo, hi) is None,
        s.restarted(salt_2).header.salt_1 != s.header.salt_1,
        s.restarted(salt_2).header.checkpoint_seq != s.header.checkpoint_seq,
{
}

} // verus!
