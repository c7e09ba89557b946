//! A read-write lock in one 64-bit word that also stores a 32-bit value.

use vstd::prelude::*;

verus! {

/// The value of a read mark slot that no reader uses.
pub const READMARK_NOT_USED: u32 = 0xffff_ffff;
/// Stands for the slot of a reader that holds none.
pub const NO_LOCK_HELD: usize = usize::MAX;

/// The state of a lock: its value, how many readers hold it, and whether a writer does.
pub struct LockView {
    pub value: u32,
    pub readers: nat,
    pub writer: bool,
}

impl LockView {
    /// A writer holds the lock alone.
    pub open spec fn wf(self) -> bool {
        self.writer ==> self.readers == 0
    }

    /// Whether nobody holds the lock.
    pub open spec fn free(self) -> bool {
        !self.writer && self.readers == 0
    }

    /// The lock with one more reader.
    pub open spec fn add_reader(self) -> LockView {
        LockView { readers: self.readers + 1, ..self }
    }

    /// The lock with a writer.
    pub open spec fn add_writer(self) -> LockView {
        LockView { writer: true, ..self }
    }

    /// The lock after its writer, or else one of its readers, has left.
    pub open spec fn released(self) -> LockView {
        if self.writer {
            LockView { writer: false, ..self }
        } else {
            LockView { readers: (self.readers - 1) as nat, ..self }
        }
    }

    /// The lock after its one reader became a writer.
    pub open spec fn upgraded(self) -> LockView {
        LockView { readers: 0, writer: true, ..self }
    }

    /// The lock after its writer became a reader.
    pub open spec fn downgraded(self) -> LockView {
        LockView { readers: 1, writer: false, ..self }
    }
}

/// A read-write lock with a 32-bit value. Bits 63 to 32 hold the value, bits
/// 31 to 1 the number of readers, and bit 0 is set while a writer holds it.
#[derive(Debug)]
pub struct TursoRwLock {
    word: u64,
}

impl View for TursoRwLock {
    type V = LockView;

    closed spec fn view(&self) -> LockView {
        LockView {
            value: (self.word as int / 0x1_0000_0000) as u32,
            readers: (self.word as int % 0x1_0000_0000 / 2) as nat,
            writer: self.word as int % 2 == 1,
        }
    }
}

proof fn lemma_word(w: u64)
    by (bit_vector)
    ensures
        w & 1u64 == w % 2,
        (w & 0xffff_fffeu64) / 2 == w % 0x1_0000_0000 / 2,
        w & 0xffff_fffeu64 == 0 <==> w % 0x1_0000_0000 / 2 == 0,
        w & !0xffff_ffff_0000_0000u64 == w % 0x1_0000_0000,
        w & 0xffff_ffff_0000_0000u64 == (w / 0x1_0000_0000) * 0x1_0000_0000,
        w % 2 == 0 ==> (w | 1u64) == w + 1,
        w % 2 == 1 ==> (w & !1u64) == w - 1,
        ((w & 0xffff_ffff_0000_0000u64) | 1u64) == (w / 0x1_0000_0000) * 0x1_0000_0000 + 1,
        ((w & 0xffff_ffff_0000_0000u64) | 2u64) == (w / 0x1_0000_0000) * 0x1_0000_0000 + 2,
        (w >> 32) == w / 0x1_0000_0000,
        w / 0x1_0000_0000 <= 0xffff_ffffu64,
{
}

impl TursoRwLock {
    const WRITER: u64 = 0b1;

    const READER_INC: u64 = 0b10;

    const READER_COUNT_MASK: u64 = 0xffff_fffe;

    const VALUE_MASK: u64 = 0xffff_ffff_0000_0000;

    /// A lock that nobody holds, with value 0.
    pub fn new() -> (r: TursoRwLock)
        ensures
            r@ == (LockView { value: 0, readers: 0, writer: false }),
    {
        TursoRwLock { word: 0 }
    }

    fn has_writer(val: u64) -> (r: bool)
        ensures
            r == (val as int % 2 == 1),
    {
        proof {
            lemma_word(val);
        }
        val & Self::WRITER != 0
    }

    fn has_readers(val: u64) -> (r: bool)
        ensures
            r == (val as int % 0x1_0000_0000 / 2 != 0),
    {
        proof {
            lemma_word(val);
        }
        val & Self::READER_COUNT_MASK != 0
    }

    /// Tries to take the lock as one more reader: fails while a writer holds it.
    pub fn read(&mut self) -> (r: bool)
        requires
            old(self)@.readers < 0x7fff_ffff,
        ensures
            r == !old(self)@.writer,
            r ==> final(self)@ == old(self)@.add_reader(),
            !r ==> final(self)@ == old(self)@,
    {
        if Self::has_writer(self.word) {
            return false;
        }
        self.word = self.word + Self::READER_INC;
        true
    }

    /// Tries to take the lock as its writer: fails while anybody holds it.
    pub fn write(&mut self) -> (r: bool)
        ensures
            r == old(self)@.free(),
            r ==> final(self)@ == old(self)@.add_writer(),
            !r ==> final(self)@ == old(self)@,
    {
        if Self::has_writer(self.word) || Self::has_readers(self.word) {
            return false;
        }
        proof {
            lemma_word(self.word);
        }
        self.word = self.word | Self::WRITER;
        true
    }

    /// Tries to turn a read lock into the write lock: works for the only reader.
    pub fn upgrade(&mut self) -> (r: bool)
        ensures
            r == (old(self)@.readers == 1 && !old(self)@.writer),
            r ==> final(self)@ == old(self)@.upgraded(),
            !r ==> final(self)@ == old(self)@,
    {
        proof {
            lemma_word(self.word);
        }
        if (self.word & !Self::VALUE_MASK) != Self::READER_INC {
            return false;
        }
        self.word = (self.word & Self::VALUE_MASK) | Self::WRITER;
        true
    }

    /// Turns the write lock into a read lock.
    pub fn downgrade(&mut self)
        requires
            old(self)@.writer,
        ensures
            final(self)@ == old(self)@.downgraded(),
    {
        proof {
            lemma_word(self.word);
        }
        self.word = (self.word & Self::VALUE_MASK) | Self::READER_INC;
    }

    /// Gives up the write lock if it is held, else one read lock.
    pub fn unlock(&mut self)
        requires
            old(self)@.wf(),
            !old(self)@.free(),
        ensures
            final(self)@ == old(self)@.released(),
    {
        proof {
            lemma_word(self.word);
        }
        if (self.word & Self::WRITER) != 0 {
            self.word = self.word & !Self::WRITER;
        } else {
            self.word = self.word - Self::READER_INC;
        }
    }

    /// The value, whoever holds the lock.
    pub fn get_value(&self) -> (r: u32)
        ensures
            r == self@.value,
    {
        proof {
            lemma_word(self.word);
        }
        (self.word >> 32) as u32
    }

    /// Sets the value, which only the writer may do.
    pub fn set_value_exclusive(&mut self, v: u32)
        requires
            old(self)@.writer,
        ensures
            final(self)@ == (LockView { value: v, ..old(self)@ }),
    {
        let w: u64 = self.word;
        let x: u64 = v as u64;
        let word: u64 = (w & !Self::VALUE_MASK) | (x << 32);
        assert(word / 0x1_0000_0000u64 == x && word % 0x1_0000_0000u64 == w % 0x1_0000_0000u64
            && word % 2u64 == w % 2u64) by (bit_vector)
            requires
                x <= 0xffff_ffffu64,
                word == ((w & !0xffff_ffff_0000_0000u64) | (x << 32)),
        ;
        self.word = word;
    }
}

impl Default for TursoRwLock {
    fn default() -> (r: TursoRwLock)
        ensures
            r@ == (LockView { value: 0, readers: 0, writer: false }),
    {
        TursoRwLock::new()
    }
}

/// Unlocking undoes taking the lock, as a reader or as the writer.
pub proof fn law_unlock_undoes_lock(lock: LockView)
    requires
        lock.wf(),
    ensures
        !lock.writer ==> lock.add_reader().wf() && lock.add_reader().released() == lock,
        lock.free() ==> lock.add_writer().wf() && lock.add_writer().released() == lock,
{
}

/// Upgrading and downgrading undo each other, and no step changes the value.
pub proof fn law_downgrade_undoes_upgrade(lock: LockView)
    requires
        lock.wf(),
    ensures
        lock.readers == 1 && !lock.writer ==> lock.upgraded().wf() && lock.upgraded().downgraded()
            == lock,
        lock.writer ==> lock.downgraded().wf() && lock.downgraded().upgraded() == lock,
        lock.add_reader().value == lock.value,
        lock.add_writer().value == lock.value,
        lock.released().value == lock.value,
        lock.upgraded().value == lock.value,
        lock.downgraded().value == lock.value,
{
}

} // verus!
