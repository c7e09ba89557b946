//! Savepoints and the journal of page images that they are rolled back from.

use vstd::prelude::*;
use crate::bitmap::PageSet;
use crate::error::LimboError;

verus! {

/// A point that changes can be rolled back to.
#[derive(Debug)]
pub struct Savepoint {
    /// Where the savepoint starts in the journal.
    pub start_offset: u64,
    /// Where the next image goes in the journal.
    pub write_offset: u64,
    /// The pages that are in the journal for this savepoint.
    pub page_bitmap: PageSet,
    /// The database's size when the savepoint was opened. Pages beyond it are dropped when it is
    /// rolled back to.
    pub db_size: u32,
    /// The last frame when the savepoint was opened.
    pub wal_max_frame: u64,
    /// The log's checksum when the savepoint was opened.
    pub wal_checksum: (u32, u32),
}

/// What a savepoint is.
#[verifier::ext_equal]
pub struct SavepointView {
    pub start_offset: u64,
    pub write_offset: u64,
    pub pages: Set<u32>,
    pub db_size: u32,
    pub wal_max_frame: u64,
    pub wal_checksum: (u32, u32),
}

impl View for Savepoint {
    type V = SavepointView;

    open spec fn view(&self) -> SavepointView {
        SavepointView {
            start_offset: self.start_offset,
            write_offset: self.write_offset,
            pages: self.page_bitmap@,
            db_size: self.db_size,
            wal_max_frame: self.wal_max_frame,
            wal_checksum: self.wal_checksum,
        }
    }
}

impl Savepoint {
    /// A savepoint at the given place in the journal.
    pub fn new(
        subjournal_offset: u64,
        db_size: u32,
        wal_max_frame: u64,
        wal_checksum: (u32, u32),
    ) -> (r: Savepoint)
        ensures
            r@ == (SavepointView {
                start_offset: subjournal_offset,
                write_offset: subjournal_offset,
                pages: Set::empty(),
                db_size,
                wal_max_frame,
                wal_checksum,
            }),
    {
        Savepoint {
            start_offset: subjournal_offset,
            write_offset: subjournal_offset,
            page_bitmap: PageSet::new(),
            db_size,
            wal_max_frame,
            wal_checksum,
        }
    }

    /// Notes that a page is in the journal.
    pub fn add_dirty_page(&mut self, page_num: u32)
        ensures
            final(self)@ == (SavepointView {
                pages: old(self)@.pages.insert(page_num),
                ..old(self)@
            }),
    {
        self.page_bitmap.insert(page_num);
    }

    /// Whether a page is in the journal.
    pub fn has_dirty_page(&self, page_num: u32) -> (r: bool)
        ensures
            r == self@.pages.contains(page_num),
    {
        self.page_bitmap.contains(page_num)
    }
}

/// The journal: images of pages as they were, each behind its page number in four bytes.
#[derive(Debug)]
pub struct Subjournal {
    pub data: Vec<u8>,
    pub in_use: bool,
}

/// What a journal is.
#[verifier::ext_equal]
pub struct JournalView {
    pub data: Seq<u8>,
    pub in_use: bool,
}

impl View for Subjournal {
    type V = JournalView;

    open spec fn view(&self) -> JournalView {
        JournalView { data: self.data@, in_use: self.in_use }
    }
}

impl Subjournal {
    /// An empty journal.
    pub fn new() -> (r: Subjournal)
        ensures
            r@ == (JournalView { data: Seq::empty(), in_use: false }),
    {
        let r = Subjournal { data: Vec::new(), in_use: false };
        assert(r@.data =~= Seq::empty());
        r
    }

    /// Takes the journal for one statement; fails with `Busy` if another one has it.
    pub fn try_use(&mut self) -> (r: Result<(), LimboError>)
        ensures
            final(self)@ == (JournalView { in_use: true, ..old(self)@ }),
            r == (if old(self)@.in_use {
                Err::<(), LimboError>(LimboError::Busy)
            } else {
                Ok::<(), LimboError>(())
            }),
    {
        if self.in_use {
            return Err(LimboError::Busy);
        }
        self.in_use = true;
        Ok(())
    }

    /// Gives the journal back.
    pub fn stop_use(&mut self)
        requires
            old(self)@.in_use,
        ensures
            final(self)@ == (JournalView { in_use: false, ..old(self)@ }),
    {
        self.in_use = false;
    }

    /// How many bytes are in the journal.
    pub fn size(&self) -> (r: u64)
        ensures
            r == self@.data.len(),
    {
        self.data.len() as u64
    }

    /// Cuts the journal down to its first bytes.
    pub fn truncate(&mut self, len: u64)
        requires
            len <= old(self)@.data.len(),
        ensures
            final(self)@ == (JournalView { data: old(self)@.data.take(len as int), ..old(self)@ }),
    {
        let _len: usize = self.data.len();
        self.data.truncate(len as usize);
        assert(self.data@ =~= old(self)@.data.take(len as int));
    }
}

} // verus!
