//! The errors that the storage layer reports, as plain values.

use vstd::prelude::*;

verus! {

/// Why on-disk content was judged corrupt.
#[derive(Debug, Clone, Copy, PartialEq, Eq, Structural)]
pub enum Corruption {
    /// The first byte of a btree page is none of the four page types.
    InvalidPageType { value: u8 },
    /// A varint runs past the end of the page.
    InvalidVarint,
    /// A cell pointer does not leave room for the child page number it should lead to.
    CellPointerOutOfBounds { cell_pointer: usize, page_size: usize },
    /// A page number that can never be on the freelist was freed.
    InvalidPageForFree { page_id: usize },
    /// A pointer map entry carries an unknown type.
    PtrmapEntry { page_no: u32, ptrmap_page_no: usize },
    /// The payload of a raw frame is no valid page.
    InvalidPageSize { len: usize },
}

/// Which internal rule a caller broke.
#[derive(Debug, Clone, Copy, PartialEq, Eq, Structural)]
pub enum InternalFault {
    /// The buffer handed in cannot hold a pointer map entry.
    PtrmapBufferTooSmall { len: usize },
    /// The page is not mapped by the given pointer map page.
    PtrmapPageNotMapped { page_no: u32, ptrmap_page_no: u32 },
    /// A pointer map page has no entry of its own.
    PtrmapEntryForPtrmapPage { page_no: u32 },
    /// The page has no pointer map entry that could be set.
    PtrmapEntryNotAllowed { page_no: u32 },
    /// The entry's offset lies outside its pointer map page.
    PtrmapOffsetOutOfBounds { offset: usize, page_id: usize, len: usize },
    /// An operation that needs a write-ahead log ran on a database without one.
    NoWal,
    /// A checkpoint has neither outstanding work nor finished work.
    CheckpointStuck,
    /// A page could not be placed in the cache.
    CacheInsert { page_id: usize, reason: CacheError },
    /// The cache could not be emptied.
    CacheClear { reason: CacheError },
    /// The cache could not be cut down to the database's size.
    CacheTruncate { reason: CacheError },
}

/// Which argument was not acceptable.
#[derive(Debug, Clone, Copy, PartialEq, Eq, Structural)]
pub enum BadArgument {
    /// A raw frame holds a page of another size than the log does.
    FramePageSize { got: usize, expected: u32 },
    /// A raw frame would leave a gap in the log.
    FrameBeyondNext { frame_id: u64, max_frame: u64 },
    /// Encryption was configured without being enabled.
    EncryptionNotEnabled,
}

/// Why the page cache refused a request.
#[derive(Debug, Clone, Copy, PartialEq, Eq, Structural)]
pub enum CacheError {
    /// The page is already cached.
    KeyExists,
    /// The cache is full and nothing in it may be evicted.
    Full,
    /// The page may not leave the cache.
    Pinned { page_id: usize },
    /// The page is being read or written.
    Locked { page_id: usize },
    /// The page has changes that were not written yet.
    Dirty { page_id: usize },
}

/// How an input or output request ended badly.
#[derive(Debug, Clone, Copy, PartialEq, Eq, Structural)]
pub enum CompletionError {
    /// The device reported an error.
    Io,
    /// Fewer bytes came back than a frame holds.
    ShortReadWalFrame { offset: u64, expected: usize, actual: usize },
}

/// An error of the storage layer.
#[derive(Debug, Clone, Copy, PartialEq, Eq, Structural)]
pub enum LimboError {
    Corrupt(Corruption),
    InternalError(InternalFault),
    InvalidArgument(BadArgument),
    /// A lock is held by someone else; trying again later may help.
    Busy,
    /// The reader's snapshot is stale; only a fresh read transaction helps.
    BusySnapshot,
    /// The database may not grow further.
    DatabaseFull,
    /// A raw frame differs from the one that the log already holds.
    Conflict { frame_id: u64 },
    CacheError(CacheError),
    CompletionError(CompletionError),
}

} // verus!
