//! The part of the log that all connections share: how far it goes, how much of it
//! is in the database file, and the locks of readers, writers and checkpointers.

use vstd::prelude::*;
use crate::error::LimboError;
use crate::frame_index::{FrameIndex, Frames};
use crate::rwlock::{LockView, TursoRwLock, READMARK_NOT_USED};
use crate::wal_format::WalHeader;

verus! {

/// Read mark slots.
pub const READ_SLOTS: usize = 5;

/// The low 32 bits of a frame number, as a read mark stores it.
pub open spec fn low32(x: u64) -> u32 {
    (x % 0x1_0000_0000) as u32
}

/// The low 32 bits of a frame number, as a read mark stores it.
pub fn to_mark(x: u64) -> (r: u32)
    ensures
        r == low32(x),
{
    (x % 0x1_0000_0000) as u32
}

/// The number after `x`, modulo 2^32.
pub open spec fn next32(x: u32) -> u32 {
    if x == u32::MAX {
        0
    } else {
        (x + 1) as u32
    }
}

/// The number after `x`, modulo 2^32.
pub fn increment(x: u32) -> (r: u32)
    ensures
        r == next32(x),
{
    if x == u32::MAX {
        0
    } else {
        x + 1
    }
}

/// The shared part of the log.
#[derive(Debug)]
pub struct WalFileShared {
    /// Whether the log is in use.
    pub enabled: bool,
    pub wal_header: WalHeader,
    pub min_frame: u64,
    /// The last committed frame.
    pub max_frame: u64,
    /// The frames that were copied to the database file.
    pub nbackfills: u64,
    pub transaction_count: u64,
    /// For each page the frames that hold it.
    pub frame_cache: FrameIndex,
    /// The checksum of the log up to its last committed frame.
    pub last_checksum: (u32, u32),
    /// Whether the log's file is open.
    pub file: bool,
    /// Each slot advertises the last frame that its readers use. Readers in slot 0 use
    /// the database file alone; slot 1 is the one that readers take by default.
    pub read_locks: [TursoRwLock; 5],
    /// Held by the one writer.
    pub write_lock: TursoRwLock,
    /// Held by the one checkpointer.
    pub checkpoint_lock: TursoRwLock,
    pub loaded: bool,
    /// Whether the log's header is on disk.
    pub initialized: bool,
    /// Grows with each checkpoint, so that pages cached before it are told apart.
    pub epoch: u32,
}

/// What the shared part of the log is.
#[verifier::ext_equal]
pub struct SharedView {
    pub enabled: bool,
    pub header: WalHeader,
    pub min_frame: u64,
    pub max_frame: u64,
    pub nbackfills: u64,
    pub transaction_count: u64,
    pub frames: Frames,
    pub last_checksum: (u32, u32),
    pub file: bool,
    pub slots: Seq<LockView>,
    pub write_lock: LockView,
    pub checkpoint_lock: LockView,
    pub loaded: bool,
    pub initialized: bool,
    pub epoch: u32,
}

impl View for WalFileShared {
    type V = SharedView;

    open spec fn view(&self) -> SharedView {
        SharedView {
            enabled: self.enabled,
            header: self.wal_header,
            min_frame: self.min_frame,
            max_frame: self.max_frame,
            nbackfills: self.nbackfills,
            transaction_count: self.transaction_count,
            frames: self.frame_cache@,
            last_checksum: self.last_checksum,
            file: self.file,
            slots: Seq::new(5, |i: int| self.read_locks@[i]@),
            write_lock: self.write_lock@,
            checkpoint_lock: self.checkpoint_lock@,
            loaded: self.loaded,
            initialized: self.initialized,
            epoch: self.epoch,
        }
    }
}

impl SharedView {
    /// No lock is held by a writer and a reader at once.
    pub open spec fn wf(self) -> bool {
        &&& self.slots.len() == READ_SLOTS
        &&& forall|i: int| 0 <= i < READ_SLOTS ==> (#[trigger] self.slots[i]).wf()
        &&& self.write_lock.wf()
        &&& self.checkpoint_lock.wf()
    }

    /// The same with another slot `i`.
    pub open spec fn with_slot(self, i: int, slot: LockView) -> SharedView {
        SharedView { slots: self.slots.update(i, slot), ..self }
    }

    /// The same with other slots.
    pub open spec fn with_slots(self, slots: Seq<LockView>) -> SharedView {
        SharedView { slots, ..self }
    }

    /// A log that nothing was written to.
    pub open spec fn fresh(enabled: bool, big_endian: bool) -> SharedView {
        SharedView {
            enabled,
            header: WalHeader::blank(big_endian),
            min_frame: 0,
            max_frame: 0,
            nbackfills: 0,
            transaction_count: 0,
            frames: Frames::empty(),
            last_checksum: (0, 0),
            file: enabled,
            slots: Seq::new(
                5,
                |i: int|
                    LockView {
                        value: if i < 2 {
                            0
                        } else {
                            READMARK_NOT_USED
                        },
                        readers: 0,
                        writer: false,
                    },
            ),
            write_lock: LockView { value: 0, readers: 0, writer: false },
            checkpoint_lock: LockView { value: 0, readers: 0, writer: false },
            loaded: true,
            initialized: false,
            epoch: 0,
        }
    }

    /// The log started over, once all of it is in the database file: the next
    /// header, no frames, and fresh read marks. The locks stay held as they are.
    pub open spec fn restarted(self, salt_2: u32) -> SharedView {
        SharedView {
            header: WalHeader {
                checkpoint_seq: next32(self.header.checkpoint_seq),
                salt_1: next32(self.header.salt_1),
                salt_2,
                ..self.header
            },
            max_frame: 0,
            nbackfills: 0,
            last_checksum: (self.header.checksum_1, self.header.checksum_2),
            initialized: false,
            frames: Frames::empty(),
            slots: Seq::new(
                5,
                |i: int|
                    LockView {
                        value: if i < 2 {
                            0
                        } else {
                            READMARK_NOT_USED
                        },
                        ..self.slots[i]
                    },
            ),
            ..self
        }
    }
}

impl WalFileShared {
    fn with_state(enabled: bool, big_endian: bool) -> (r: WalFileShared)
        ensures
            r@ == SharedView::fresh(enabled, big_endian),
            r@.wf(),
    {
        let mut shared = WalFileShared {
            enabled,
            wal_header: WalHeader::new(big_endian),
            min_frame: 0,
            max_frame: 0,
            nbackfills: 0,
            transaction_count: 0,
            frame_cache: FrameIndex::new(),
            last_checksum: (0, 0),
            file: enabled,
            read_locks: [
                TursoRwLock::new(),
                TursoRwLock::new(),
                TursoRwLock::new(),
                TursoRwLock::new(),
                TursoRwLock::new(),
            ],
            write_lock: TursoRwLock::new(),
            checkpoint_lock: TursoRwLock::new(),
            loaded: true,
            initialized: false,
            epoch: 0,
        };
        let mut i: usize = 0;
        while i < READ_SLOTS
            invariant
                i <= READ_SLOTS,
                shared@ == SharedView::fresh(enabled, big_endian).with_slots(
                    Seq::new(
                        5,
                        |j: int|
                            LockView {
                                value: if j < i && j >= 2 {
                                    READMARK_NOT_USED
                                } else {
                                    0
                                },
                                readers: 0,
                                writer: false,
                            },
                    ),
                ),
            decreases READ_SLOTS - i,
        {
            let _ = shared.lock_slot(i);
            shared.set_mark(
                i,
                if i < 2 {
                    0
                } else {
                    READMARK_NOT_USED
                },
            );
            shared.unlock_slot(i);
            i = i + 1;
        }
        shared
    }

    /// A log that is not in use: every page comes from the database file.
    pub fn new_noop(big_endian: bool) -> (r: WalFileShared)
        ensures
            r@ == SharedView::fresh(false, big_endian),
            r@.wf(),
    {
        WalFileShared::with_state(false, big_endian)
    }

    /// A log on a new file.
    pub fn new_shared(big_endian: bool) -> (r: WalFileShared)
        ensures
            r@ == SharedView::fresh(true, big_endian),
            r@.wf(),
    {
        WalFileShared::with_state(true, big_endian)
    }

    /// The checksum of the log up to its last committed frame, and that frame.
    pub fn last_checksum_and_max_frame(&self) -> (r: ((u32, u32), u64))
        ensures
            r == (self@.last_checksum, self@.max_frame),
    {
        (self.last_checksum, self.max_frame)
    }

    /// Whether the log's header is on disk.
    pub fn is_initialized(&self) -> (r: Result<bool, LimboError>)
        ensures
            r == Ok::<bool, LimboError>(self@.initialized),
    {
        Ok(self.initialized)
    }

    /// The page size in the log's header.
    pub fn page_size(&self) -> (r: u32)
        ensures
            r == self@.header.page_size,
    {
        self.wal_header.page_size
    }

    /// Tries to take slot `i` for the only holder.
    pub fn lock_slot(&mut self, i: usize) -> (r: bool)
        requires
            i < READ_SLOTS,
        ensures
            r == old(self)@.slots[i as int].free(),
            r ==> final(self)@ == old(self)@.with_slot(
                i as int,
                old(self)@.slots[i as int].add_writer(),
            ),
            !r ==> final(self)@ == old(self)@,
    {
        self.read_locks[i].write()
    }

    /// Tries to take slot `i` as one more reader.
    pub fn read_slot(&mut self, i: usize) -> (r: bool)
        requires
            i < READ_SLOTS,
            old(self)@.slots[i as int].readers < 0x7fff_ffff,
        ensures
            r == !old(self)@.slots[i as int].writer,
            r ==> final(self)@ == old(self)@.with_slot(
                i as int,
                old(self)@.slots[i as int].add_reader(),
            ),
            !r ==> final(self)@ == old(self)@,
    {
        self.read_locks[i].read()
    }

    /// Gives up slot `i`.
    pub fn unlock_slot(&mut self, i: usize)
        requires
            i < READ_SLOTS,
            old(self)@.slots[i as int].wf(),
            !old(self)@.slots[i as int].free(),
        ensures
            final(self)@ == old(self)@.with_slot(i as int, old(self)@.slots[i as int].released()),
    {
        self.read_locks[i].unlock();
    }

    /// Sets the read mark of slot `i`, which is held exclusively.
    pub fn set_mark(&mut self, i: usize, mark: u32)
        requires
            i < READ_SLOTS,
            old(self)@.slots[i as int].writer,
        ensures
            final(self)@ == old(self)@.with_slot(
                i as int,
                (LockView { value: mark, ..old(self)@.slots[i as int] }),
            ),
    {
        self.read_locks[i].set_value_exclusive(mark);
    }

    /// The read mark of slot `i`.
    pub fn mark(&self, i: usize) -> (r: u32)
        requires
            i < READ_SLOTS,
        ensures
            r == self@.slots[i as int].value,
    {
        self.read_locks[i].get_value()
    }

    /// Starts the log over, once all of it is in the database file and every
    /// slot is held exclusively. `salt_2` is a random number.
    pub fn restart_wal_header(&mut self, salt_2: u32)
        requires
            forall|i: int| 0 <= i < READ_SLOTS ==> (#[trigger] old(self)@.slots[i]).writer,
        ensures
            final(self)@ == old(self)@.restarted(salt_2),
    {
        self.wal_header.checkpoint_seq = increment(self.wal_header.checkpoint_seq);
        self.wal_header.salt_1 = increment(self.wal_header.salt_1);
        self.wal_header.salt_2 = salt_2;
        self.max_frame = 0;
        self.nbackfills = 0;
        self.last_checksum = (self.wal_header.checksum_1, self.wal_header.checksum_2);
        self.initialized = false;
        self.frame_cache.clear();
        proof {
            let slots = old(self)@.slots;
            assert(self@.slots =~= slots);
            assert(slots[0].writer && slots[1].writer && slots[2].writer && slots[3].writer
                && slots[4].writer);
        }
        self.set_mark(0, 0);
        self.set_mark(1, 0);
        self.set_mark(2, READMARK_NOT_USED);
        self.set_mark(3, READMARK_NOT_USED);
        self.set_mark(4, READMARK_NOT_USED);
        assert(self@.slots =~= old(self)@.restarted(salt_2).slots);
    }
}

} // verus!
