//! Pages in memory: their buffer, their flags, their pins and their log tag.

use vstd::prelude::*;
use crate::bytes::{be16_bytes, be16, be32_bytes, be32, read_be16, read_be32, splice,
    write_be16, write_be32};
use crate::error::{Corruption, LimboError};
use crate::ondisk::{is_index_type, PageSize, PageType, BTREE_CELL_CONTENT_AREA, BTREE_CELL_COUNT,
    BTREE_FIRST_FREEBLOCK, BTREE_FRAGMENTED_BYTES_COUNT, BTREE_PAGE_TYPE, BTREE_RIGHTMOST_PTR,
    CELL_PTR_SIZE_BYTES, INTERIOR_PAGE_HEADER_SIZE_BYTES, LEAF_PAGE_HEADER_SIZE_BYTES};

verus! {

/// Bytes that the database header takes at the start of page 1.
pub const DATABASE_HEADER_SIZE: usize = 100;
/// The page that carries the database header.
pub const DATABASE_HEADER_PAGE_ID: usize = 1;

/// The tag of a page that no log frame is known to hold.
pub const TAG_UNSET: u64 = 0xffff_ffff_ffff_ffff;
/// The tag of a page whose log frame is being written.
pub const TAG_WRITE_PENDING: u64 = 0xffff_ffff_ffff_fffe;

/// The largest epoch that a tag can hold.
pub const EPOCH_MAX: u32 = 0xf_ffff;
/// The largest frame number that a tag can hold.
pub const FRAME_MAX: u64 = 0xfff_ffff_ffff;

/// The page is locked while it is read or written.
pub const PAGE_LOCKED: usize = 0b010;
/// The page has changes that were not flushed.
pub const PAGE_DIRTY: usize = 0b1000;
/// The page's contents are in memory.
pub const PAGE_LOADED: usize = 0b1_0000;
/// The page was spilled to the log and may be evicted although it is dirty.
pub const PAGE_SPILLED: usize = 0b10_0000;

/// The tag for `frame` in `epoch`: the epoch's low 20 bits above the frame's low 44.
pub open spec fn tag_of(frame: u64, epoch: u32) -> int {
    (epoch as int % 0x10_0000) * 0x1000_0000_0000 + frame as int % 0x1000_0000_0000
}

/// Packs a frame number and an epoch into a tag.
pub fn pack_tag_pair(frame: u64, seq: u32) -> (tag: u64)
    ensures
        tag == tag_of(frame, seq),
{
    let tag: u64 = ((seq as u64) << 44) | (frame & FRAME_MAX);
    let s: u64 = seq as u64;
    assert(((s << 44) | (frame & 0xfff_ffff_ffffu64)) == (s % 0x10_0000) * 0x1000_0000_0000 + frame
        % 0x1000_0000_0000) by (bit_vector)
        requires
            s <= 0xffff_ffffu64,
    ;
    tag
}

/// Unpacks a tag into its frame number and epoch.
pub fn unpack_tag_pair(tag: u64) -> (r: (u64, u32))
    ensures
        r.0 == tag as int % 0x1000_0000_0000,
        r.1 == tag as int / 0x1000_0000_0000,
{
    assert((tag >> 44) & 0xf_ffffu64 == tag / 0x1000_0000_0000u64 && tag & 0xfff_ffff_ffffu64 == tag
        % 0x1000_0000_0000u64 && tag / 0x1000_0000_0000u64 <= 0xf_ffffu64) by (bit_vector);
    let epoch: u32 = ((tag >> 44) & (EPOCH_MAX as u64)) as u32;
    let frame: u64 = tag & FRAME_MAX;
    (frame, epoch)
}

/// Unpacking a packed pair gives the frame's low 44 bits and the epoch's low 20.
pub proof fn law_tag_round_trip(frame: u64, epoch: u32)
    ensures
        0 <= tag_of(frame, epoch) <= u64::MAX,
        tag_of(frame, epoch) % 0x1000_0000_0000 == frame as int % 0x1000_0000_0000,
        tag_of(frame, epoch) / 0x1000_0000_0000 == epoch as int % 0x10_0000,
{
    let hi = epoch as int % 0x10_0000;
    let lo = frame as int % 0x1000_0000_0000;
    assert(0 <= hi < 0x10_0000);
    assert((hi * 0x1000_0000_0000 + lo) % 0x1000_0000_0000 == lo);
    assert((hi * 0x1000_0000_0000 + lo) / 0x1000_0000_0000 == hi);
}

/// A cell that does not fit its page and waits to be balanced away.
#[derive(Debug)]
pub struct OverflowCell {
    pub index: usize,
    pub payload: Vec<u8>,
}

/// A page: its number, its flags, its pins, its log tag and its bytes.
#[derive(Debug)]
pub struct PageInner {
    pub flags: usize,
    pub id: usize,
    /// While this is above zero the page stays in the cache. It counts, because
    /// several callers may ask for that at once.
    pub pin_count: usize,
    /// The log frame that the page was loaded from or written to.
    pub wal_tag: u64,
    /// The page's bytes, if they are loaded.
    pub buffer: Option<Vec<u8>>,
    pub overflow_cells: Vec<OverflowCell>,
}

/// The other name of a page's contents.
pub type PageContent = PageInner;

/// What a page is, with its flags taken apart and its bytes as a sequence.
#[verifier::ext_equal]
pub struct PageView {
    pub id: usize,
    pub locked: bool,
    pub dirty: bool,
    pub loaded: bool,
    pub spilled: bool,
    pub pin_count: usize,
    pub wal_tag: u64,
    pub buffer: Option<Seq<u8>>,
    pub overflow_cells: Seq<OverflowCell>,
}

impl PageView {
    /// The same page with other bytes.
    pub open spec fn with_data(self, data: Seq<u8>) -> PageView {
        PageView { buffer: Some(data), ..self }
    }

    /// The page's bytes.
    pub open spec fn data(self) -> Seq<u8> {
        self.buffer->0
    }

    /// Where the page's own content starts: after the database header on page 1.
    pub open spec fn start(self) -> int {
        if self.id == 1 {
            100
        } else {
            0
        }
    }

    /// The page after a modification: dirty, with no frame that holds it.
    pub open spec fn dirtied(self) -> PageView {
        PageView { dirty: true, spilled: false, wal_tag: TAG_UNSET, ..self }
    }

    /// The page once its changes no longer need to be written.
    pub open spec fn cleaned(self) -> PageView {
        PageView { dirty: false, wal_tag: TAG_UNSET, ..self }
    }

    /// The page as it came from, or went to, `frame` in `epoch`. A frame that no tag can
    /// hold leaves the page without one.
    pub open spec fn tagged(self, frame: u64, epoch: u32) -> PageView {
        PageView {
            wal_tag: if frame > FRAME_MAX {
                TAG_UNSET
            } else {
                tag_of(frame, epoch) as u64
            },
            ..self
        }
    }

    /// Whether the page's bytes are those of `target_frame` in `epoch`, so that
    /// a checkpoint may copy them instead of reading the frame.
    pub open spec fn valid_for_checkpoint(self, target_frame: u64, epoch: u32) -> bool {
        &&& self.wal_tag as int % 0x1000_0000_0000 == target_frame
        &&& self.wal_tag as int / 0x1000_0000_0000 == epoch
        &&& !self.dirty
        &&& self.loaded
        &&& !self.locked
    }

    /// A page that was just created.
    pub open spec fn fresh(id: usize) -> PageView {
        PageView {
            id,
            locked: false,
            dirty: false,
            loaded: false,
            spilled: false,
            pin_count: 0,
            wal_tag: TAG_UNSET,
            buffer: None,
            overflow_cells: Seq::empty(),
        }
    }
}

impl View for PageInner {
    type V = PageView;

    open spec fn view(&self) -> PageView {
        PageView {
            id: self.id,
            locked: self.flags & PAGE_LOCKED != 0,
            dirty: self.flags & PAGE_DIRTY != 0,
            loaded: self.flags & PAGE_LOADED != 0,
            spilled: self.flags & PAGE_SPILLED != 0,
            pin_count: self.pin_count,
            wal_tag: self.wal_tag,
            buffer: match self.buffer {
                Some(b) => Some(b@),
                None => None,
            },
            overflow_cells: self.overflow_cells@,
        }
    }
}

/// What setting and clearing one flag does to each of them.
proof fn lemma_flags(x: usize)
    by (bit_vector)
    ensures
        0usize & 0b010usize == 0,
        0usize & 0b1000usize == 0,
        0usize & 0b1_0000usize == 0,
        0usize & 0b10_0000usize == 0,
        (x | 0b010usize) & 0b010usize != 0,
        (x | 0b010usize) & 0b1000usize == x & 0b1000usize,
        (x | 0b010usize) & 0b1_0000usize == x & 0b1_0000usize,
        (x | 0b010usize) & 0b10_0000usize == x & 0b10_0000usize,
        (x & !0b010usize) & 0b010usize == 0,
        (x & !0b010usize) & 0b1000usize == x & 0b1000usize,
        (x & !0b010usize) & 0b1_0000usize == x & 0b1_0000usize,
        (x & !0b010usize) & 0b10_0000usize == x & 0b10_0000usize,
        (x | 0b1000usize) & 0b010usize == x & 0b010usize,
        (x | 0b1000usize) & 0b1000usize != 0,
        (x | 0b1000usize) & 0b1_0000usize == x & 0b1_0000usize,
        (x | 0b1000usize) & 0b10_0000usize == x & 0b10_0000usize,
        (x & !0b1000usize) & 0b010usize == x & 0b010usize,
        (x & !0b1000usize) & 0b1000usize == 0,
        (x & !0b1000usize) & 0b1_0000usize == x & 0b1_0000usize,
        (x & !0b1000usize) & 0b10_0000usize == x & 0b10_0000usize,
        (x | 0b1_0000usize) & 0b010usize == x & 0b010usize,
        (x | 0b1_0000usize) & 0b1000usize == x & 0b1000usize,
        (x | 0b1_0000usize) & 0b1_0000usize != 0,
        (x | 0b1_0000usize) & 0b10_0000usize == x & 0b10_0000usize,
        (x & !0b1_0000usize) & 0b010usize == x & 0b010usize,
        (x & !0b1_0000usize) & 0b1000usize == x & 0b1000usize,
        (x & !0b1_0000usize) & 0b1_0000usize == 0,
        (x & !0b1_0000usize) & 0b10_0000usize == x & 0b10_0000usize,
        (x | 0b10_0000usize) & 0b010usize == x & 0b010usize,
        (x | 0b10_0000usize) & 0b1000usize == x & 0b1000usize,
        (x | 0b10_0000usize) & 0b1_0000usize == x & 0b1_0000usize,
        (x | 0b10_0000usize) & 0b10_0000usize != 0,
        (x & !0b10_0000usize) & 0b010usize == x & 0b010usize,
        (x & !0b10_0000usize) & 0b1000usize == x & 0b1000usize,
        (x & !0b10_0000usize) & 0b1_0000usize == x & 0b1_0000usize,
        (x & !0b10_0000usize) & 0b10_0000usize == 0,
{
}

/// Where a btree page's cell pointers start, counted from its own content.
pub open spec fn header_size_of(page_type_byte: u8) -> int {
    if page_type_byte <= 5 {
        12
    } else {
        8
    }
}

/// Whether the byte is the type of an interior page.
pub open spec fn is_interior(page_type_byte: u8) -> bool {
    PageType::of_byte(page_type_byte) matches Some(t) && (t == PageType::IndexInterior || t
        == PageType::TableInterior)
}

impl PageInner {
    /// A page around a shared buffer.
    pub fn new(buffer: Vec<u8>) -> (r: PageInner)
        ensures
            r@ == PageView::fresh(0).with_data(buffer@),
    {
        proof {
            lemma_flags(0);
        }
        PageInner {
            flags: 0,
            id: 0,
            pin_count: 0,
            wal_tag: TAG_UNSET,
            buffer: Some(buffer),
            overflow_cells: Vec::new(),
        }
    }

    /// A page that owns its buffer.
    pub fn from_buffer(buffer: Vec<u8>) -> (r: PageInner)
        ensures
            r@ == PageView::fresh(0).with_data(buffer@),
    {
        PageInner::new(buffer)
    }

    /// The page's bytes, to be changed.
    pub fn as_ptr(&mut self) -> (r: &mut [u8])
        requires
            old(self)@.buffer is Some,
        ensures
            r@ == old(self)@.data(),
            final(self)@ == old(self)@.with_data(final(r)@),
    {
        self.buffer.as_mut().unwrap().as_mut_slice()
    }

    /// The page's bytes, to be read.
    pub fn as_slice(&self) -> (r: &[u8])
        requires
            self@.buffer is Some,
        ensures
            r@ == self@.data(),
    {
        self.buffer.as_ref().unwrap().as_slice()
    }

    /// Where the page's own content starts: 100 on page 1, where the database
    /// header comes first, and 0 elsewhere.
    pub fn offset(&self) -> (r: usize)
        ensures
            r == self@.start(),
    {
        if self.id == DATABASE_HEADER_PAGE_ID {
            DATABASE_HEADER_SIZE
        } else {
            0
        }
    }

    /// Whether `n` bytes at `pos` of the page's own content are inside its buffer.
    pub open spec fn fits(&self, pos: int, n: int) -> bool {
        &&& self@.buffer is Some
        &&& 0 <= pos
        &&& self@.start() + pos + n <= self@.data().len()
    }

    /// Whether `n` bytes at `pos` of the whole page are inside its buffer.
    pub open spec fn fits_raw(&self, pos: int, n: int) -> bool {
        &&& self@.buffer is Some
        &&& 0 <= pos
        &&& pos + n <= self@.data().len()
    }

    /// Reads a byte of the page's own content.
    pub fn read_u8(&self, pos: usize) -> (r: u8)
        requires
            self.fits(pos as int, 1),
        ensures
            r == self@.data()[self@.start() + pos],
    {
        let _len: usize = self.as_slice().len();
        self.as_slice()[self.offset() + pos]
    }

    /// Reads a big-endian u16 of the page's own content.
    pub fn read_u16(&self, pos: usize) -> (r: u16)
        requires
            self.fits(pos as int, 2),
        ensures
            r == be16(self@.data(), self@.start() + pos),
    {
        let _len: usize = self.as_slice().len();
        read_be16(self.as_slice(), self.offset() + pos)
    }

    /// Reads a big-endian u32 of the page's own content.
    pub fn read_u32(&self, pos: usize) -> (r: u32)
        requires
            self.fits(pos as int, 4),
        ensures
            r == be32(self@.data(), self@.start() + pos),
    {
        let _len: usize = self.as_slice().len();
        read_be32(self.as_slice(), self.offset() + pos)
    }

    /// Writes a byte of the page's own content.
    pub fn write_u8(&mut self, pos: usize, value: u8)
        requires
            old(self).fits(pos as int, 1),
        ensures
            final(self)@ == old(self)@.with_data(
                old(self)@.data().update(old(self)@.start() + pos, value),
            ),
    {
        let offset: usize = self.offset();
        let _len: usize = self.as_slice().len();
        let buf = self.as_ptr();
        buf[offset + pos] = value;
    }

    /// Writes a big-endian u16 of the page's own content.
    pub fn write_u16(&mut self, pos: usize, value: u16)
        requires
            old(self).fits(pos as int, 2),
        ensures
            final(self)@ == old(self)@.with_data(
                splice(old(self)@.data(), old(self)@.start() + pos, be16_bytes(value)),
            ),
            be16(final(self)@.data(), old(self)@.start() + pos) == value,
    {
        let offset: usize = self.offset();
        let _len: usize = self.as_slice().len();
        let buf = self.as_ptr();
        write_be16(buf, offset + pos, value);
    }

    /// Writes a big-endian u32 of the page's own content.
    pub fn write_u32(&mut self, pos: usize, value: u32)
        requires
            old(self).fits(pos as int, 4),
        ensures
            final(self)@ == old(self)@.with_data(
                splice(old(self)@.data(), old(self)@.start() + pos, be32_bytes(value)),
            ),
            be32(final(self)@.data(), old(self)@.start() + pos) == value,
    {
        let offset: usize = self.offset();
        let _len: usize = self.as_slice().len();
        let buf = self.as_ptr();
        write_be32(buf, offset + pos, value);
    }

    /// The kind of btree page that this is.
    pub fn page_type(&self) -> (r: Result<PageType, LimboError>)
        requires
            self.fits(BTREE_PAGE_TYPE as int, 1),
        ensures
            match PageType::of_byte(self@.data()[self@.start()]) {
                Some(t) => r == Ok::<PageType, LimboError>(t),
                None => r == Err::<PageType, LimboError>(
                    LimboError::Corrupt(
                        Corruption::InvalidPageType { value: self@.data()[self@.start()] },
                    ),
                ),
            },
    {
        PageType::from_u8(self.read_u8(BTREE_PAGE_TYPE))
    }

    /// Reads a big-endian u16 at an absolute offset.
    pub fn read_u16_no_offset(&self, pos: usize) -> (r: u16)
        requires
            self.fits_raw(pos as int, 2),
        ensures
            r == be16(self@.data(), pos as int),
    {
        read_be16(self.as_slice(), pos)
    }

    /// Reads a big-endian u32 at an absolute offset.
    pub fn read_u32_no_offset(&self, pos: usize) -> (r: u32)
        requires
            self.fits_raw(pos as int, 4),
        ensures
            r == be32(self@.data(), pos as int),
    {
        read_be32(self.as_slice(), pos)
    }

    /// Writes a big-endian u16 at an absolute offset.
    pub fn write_u16_no_offset(&mut self, pos: usize, value: u16)
        requires
            old(self).fits_raw(pos as int, 2),
        ensures
            final(self)@ == old(self)@.with_data(
                splice(old(self)@.data(), pos as int, be16_bytes(value)),
            ),
            be16(final(self)@.data(), pos as int) == value,
    {
        let buf = self.as_ptr();
        write_be16(buf, pos, value);
    }

    /// Writes a big-endian u32 at an absolute offset.
    pub fn write_u32_no_offset(&mut self, pos: usize, value: u32)
        requires
            old(self).fits_raw(pos as int, 4),
        ensures
            final(self)@ == old(self)@.with_data(
                splice(old(self)@.data(), pos as int, be32_bytes(value)),
            ),
            be32(final(self)@.data(), pos as int) == value,
    {
        let buf = self.as_ptr();
        write_be32(buf, pos, value);
    }

    /// Sets the page type byte.
    pub fn write_page_type(&mut self, value: u8)
        requires
            old(self).fits(BTREE_PAGE_TYPE as int, 1),
        ensures
            final(self)@ == old(self)@.with_data(
                old(self)@.data().update(old(self)@.start(), value),
            ),
    {
        self.write_u8(BTREE_PAGE_TYPE, value);
    }

    /// Sets the rightmost child pointer.
    pub fn write_rightmost_ptr(&mut self, value: u32)
        requires
            old(self).fits(BTREE_RIGHTMOST_PTR as int, 4),
        ensures
            final(self)@ == old(self)@.with_data(
                splice(old(self)@.data(), old(self)@.start() + 8, be32_bytes(value)),
            ),
            be32(final(self)@.data(), old(self)@.start() + 8) == value,
    {
        self.write_u32(BTREE_RIGHTMOST_PTR, value);
    }

    /// Sets the first freeblock pointer.
    pub fn write_first_freeblock(&mut self, value: u16)
        requires
            old(self).fits(BTREE_FIRST_FREEBLOCK as int, 2),
        ensures
            final(self)@ == old(self)@.with_data(
                splice(old(self)@.data(), old(self)@.start() + 1, be16_bytes(value)),
            ),
            be16(final(self)@.data(), old(self)@.start() + 1) == value,
    {
        self.write_u16(BTREE_FIRST_FREEBLOCK, value);
    }

    /// Writes a freeblock: the next block (0 if there is none), then its size.
    pub fn write_freeblock(&mut self, offset: u16, size: u16, next_block: Option<u16>)
        requires
            old(self).fits_raw(offset as int, 4),
        ensures
            final(self)@ == old(self)@.with_data(
                splice(
                    splice(
                        old(self)@.data(),
                        offset as int,
                        be16_bytes(match next_block { Some(n) => n, None => 0 }),
                    ),
                    offset + 2,
                    be16_bytes(size),
                ),
            ),
            be16(final(self)@.data(), offset as int) == (match next_block {
                Some(n) => n,
                None => 0,
            }),
            be16(final(self)@.data(), offset + 2) == size,
    {
        let next: u16 = match next_block {
            Some(n) => n,
            None => 0,
        };
        self.write_freeblock_next_ptr(offset, next);
        self.write_freeblock_size(offset, size);
    }

    /// Writes the size of the freeblock at `offset`.
    pub fn write_freeblock_size(&mut self, offset: u16, size: u16)
        requires
            old(self).fits_raw(offset + 2, 2),
        ensures
            final(self)@ == old(self)@.with_data(
                splice(old(self)@.data(), offset + 2, be16_bytes(size)),
            ),
            be16(final(self)@.data(), offset + 2) == size,
    {
        self.write_u16_no_offset(offset as usize + 2, size);
    }

    /// Writes where the block after the freeblock at `offset` is.
    pub fn write_freeblock_next_ptr(&mut self, offset: u16, next_block: u16)
        requires
            old(self).fits_raw(offset as int, 2),
        ensures
            final(self)@ == old(self)@.with_data(
                splice(old(self)@.data(), offset as int, be16_bytes(next_block)),
            ),
            be16(final(self)@.data(), offset as int) == next_block,
    {
        self.write_u16_no_offset(offset as usize, next_block);
    }

    /// Reads the freeblock at `offset`: the next block, then its size.
    pub fn read_freeblock(&self, offset: u16) -> (r: (u16, u16))
        requires
            self.fits_raw(offset as int, 4),
        ensures
            r.0 == be16(self@.data(), offset as int),
            r.1 == be16(self@.data(), offset + 2),
    {
        (self.read_u16_no_offset(offset as usize), self.read_u16_no_offset(offset as usize + 2))
    }

    /// Sets the cell count.
    pub fn write_cell_count(&mut self, value: u16)
        requires
            old(self).fits(BTREE_CELL_COUNT as int, 2),
        ensures
            final(self)@ == old(self)@.with_data(
                splice(old(self)@.data(), old(self)@.start() + 3, be16_bytes(value)),
            ),
            be16(final(self)@.data(), old(self)@.start() + 3) == value,
    {
        self.write_u16(BTREE_CELL_COUNT, value);
    }

    /// Sets where the cell content area starts; 65536 is stored as 0.
    pub fn write_cell_content_area(&mut self, value: usize)
        requires
            old(self).fits(BTREE_CELL_CONTENT_AREA as int, 2),
            value <= PageSize::MAX,
        ensures
            final(self)@ == old(self)@.with_data(
                splice(
                    old(self)@.data(),
                    old(self)@.start() + 5,
                    be16_bytes((value as int % 0x1_0000) as u16),
                ),
            ),
            be16(final(self)@.data(), old(self)@.start() + 5) == value as int % 0x1_0000,
    {
        let stored: u16 = if value == 65536 {
            0
        } else {
            value as u16
        };
        self.write_u16(BTREE_CELL_CONTENT_AREA, stored);
    }

    /// Sets the fragmented byte count.
    pub fn write_fragmented_bytes_count(&mut self, value: u8)
        requires
            old(self).fits(BTREE_FRAGMENTED_BYTES_COUNT as int, 1),
        ensures
            final(self)@ == old(self)@.with_data(
                old(self)@.data().update(old(self)@.start() + 7, value),
            ),
    {
        self.write_u8(BTREE_FRAGMENTED_BYTES_COUNT, value);
    }

    /// The first freeblock pointer.
    pub fn first_freeblock(&self) -> (r: u16)
        requires
            self.fits(BTREE_FIRST_FREEBLOCK as int, 2),
        ensures
            r == be16(self@.data(), self@.start() + 1),
    {
        self.read_u16(BTREE_FIRST_FREEBLOCK)
    }

    /// How many cells the page holds.
    pub fn cell_count(&self) -> (r: usize)
        requires
            self.fits(BTREE_CELL_COUNT as int, 2),
        ensures
            r == be16(self@.data(), self@.start() + 3),
    {
        self.read_u16(BTREE_CELL_COUNT) as usize
    }

    /// Bytes that the cell pointers take.
    pub fn cell_pointer_array_size(&self) -> (r: usize)
        requires
            self.fits(BTREE_CELL_COUNT as int, 2),
        ensures
            r == 2 * be16(self@.data(), self@.start() + 3),
    {
        self.cell_count() * CELL_PTR_SIZE_BYTES
    }

    /// Where the unallocated region starts: right after the cell pointers.
    pub fn unallocated_region_start(&self) -> (r: usize)
        requires
            self.fits(0, 8),
        ensures
            r == self@.start() + header_size_of(self@.data()[self@.start()]) + 2 * be16(
                self@.data(),
                self@.start() + 3,
            ),
    {
        let (cell_ptr_array_start, cell_ptr_array_size) = self.cell_pointer_array_offset_and_size();
        cell_ptr_array_start + cell_ptr_array_size
    }

    /// Bytes between the cell pointers and the cell content area.
    pub fn unallocated_region_size(&self) -> (r: usize)
        requires
            self.fits(0, 8),
            self@.start() + header_size_of(self@.data()[self@.start()]) + 2 * be16(
                self@.data(),
                self@.start() + 3,
            ) <= self.content_area(),
        ensures
            r == self.content_area() - (self@.start() + header_size_of(self@.data()[self@.start()])
                + 2 * be16(self@.data(), self@.start() + 3)),
    {
        self.cell_content_area() as usize - self.unallocated_region_start()
    }

    /// Where the cell content area starts, with a stored 0 read as 65536.
    pub open spec fn content_area(&self) -> int {
        let stored = be16(self@.data(), self@.start() + 5);
        if stored == 0 {
            65536
        } else {
            stored
        }
    }

    /// Where the cell content area starts, with a stored 0 read as 65536.
    pub fn cell_content_area(&self) -> (r: u32)
        requires
            self.fits(BTREE_CELL_CONTENT_AREA as int, 2),
        ensures
            r == self.content_area(),
    {
        let offset: u16 = self.read_u16(BTREE_CELL_CONTENT_AREA);
        if offset == 0 {
            PageSize::MAX
        } else {
            offset as u32
        }
    }

    /// Bytes that the page's header takes: 12 on an interior page, 8 on a leaf.
    pub fn header_size(&self) -> (r: usize)
        requires
            self.fits(BTREE_PAGE_TYPE as int, 1),
        ensures
            r == header_size_of(self@.data()[self@.start()]),
    {
        if self.read_u8(BTREE_PAGE_TYPE) <= 5 {
            INTERIOR_PAGE_HEADER_SIZE_BYTES
        } else {
            LEAF_PAGE_HEADER_SIZE_BYTES
        }
    }

    /// The fragmented byte count.
    pub fn num_frag_free_bytes(&self) -> (r: u8)
        requires
            self.fits(BTREE_FRAGMENTED_BYTES_COUNT as int, 1),
        ensures
            r == self@.data()[self@.start() + 7],
    {
        self.read_u8(BTREE_FRAGMENTED_BYTES_COUNT)
    }

    /// The rightmost child of an interior page; `None` on a leaf.
    pub fn rightmost_pointer(&self) -> (r: Result<Option<u32>, LimboError>)
        requires
            self.fits(0, 1),
            is_interior(self@.data()[self@.start()]) ==> self.fits(0, 12),
        ensures
            match PageType::of_byte(self@.data()[self@.start()]) {
                Some(PageType::IndexInterior) | Some(PageType::TableInterior) => r matches Ok(Some(p))
                    && p == be32(self@.data(), self@.start() + 8),
                Some(_) => r == Ok::<Option<u32>, LimboError>(None),
                None => r == Err::<Option<u32>, LimboError>(
                    LimboError::Corrupt(
                        Corruption::InvalidPageType { value: self@.data()[self@.start()] },
                    ),
                ),
            },
    {
        match self.page_type() {
            Ok(t) => match t {
                PageType::IndexInterior | PageType::TableInterior => Ok(
                    Some(self.read_u32(BTREE_RIGHTMOST_PTR)),
                ),
                PageType::IndexLeaf | PageType::TableLeaf => Ok(None),
            },
            Err(e) => Err(e),
        }
    }

    /// Where in the buffer an interior page keeps its rightmost child; `None` on a leaf.
    pub fn rightmost_pointer_raw(&self) -> (r: Result<Option<usize>, LimboError>)
        requires
            self.fits(0, 1),
            is_interior(self@.data()[self@.start()]) ==> self.fits(0, 12),
        ensures
            match PageType::of_byte(self@.data()[self@.start()]) {
                Some(PageType::IndexInterior) | Some(PageType::TableInterior) => r matches Ok(Some(p))
                    && p == self@.start() + 8,
                Some(_) => r == Ok::<Option<usize>, LimboError>(None),
                None => r == Err::<Option<usize>, LimboError>(
                    LimboError::Corrupt(
                        Corruption::InvalidPageType { value: self@.data()[self@.start()] },
                    ),
                ),
            },
    {
        match self.page_type() {
            Ok(t) => match t {
                PageType::IndexInterior | PageType::TableInterior => Ok(
                    Some(self.offset() + BTREE_RIGHTMOST_PTR),
                ),
                PageType::IndexLeaf | PageType::TableLeaf => Ok(None),
            },
            Err(e) => Err(e),
        }
    }

    /// Where the cell pointers start and how many bytes they take.
    pub fn cell_pointer_array_offset_and_size(&self) -> (r: (usize, usize))
        requires
            self.fits(0, 8),
        ensures
            r.0 == self@.start() + header_size_of(self@.data()[self@.start()]),
            r.1 == 2 * be16(self@.data(), self@.start() + 3),
    {
        (self.cell_pointer_array_offset(), self.cell_pointer_array_size())
    }

    /// Where the cell pointers start.
    pub fn cell_pointer_array_offset(&self) -> (r: usize)
        requires
            self.fits(BTREE_PAGE_TYPE as int, 1),
        ensures
            r == self@.start() + header_size_of(self@.data()[self@.start()]),
    {
        self.offset() + self.header_size()
    }

    /// Whether this is a leaf page.
    pub fn is_leaf(&self) -> (r: bool)
        requires
            self.fits(BTREE_PAGE_TYPE as int, 1),
        ensures
            r == (self@.data()[self@.start()] > 5),
    {
        self.read_u8(BTREE_PAGE_TYPE) > 5
    }
}

/// A page of the database in memory.
#[derive(Debug)]
pub struct Page {
    pub inner: PageInner,
}

impl View for Page {
    type V = PageView;

    open spec fn view(&self) -> PageView {
        self.inner@
    }
}

impl Page {
    /// A page with nothing loaded.
    pub fn new(id: i64) -> (r: Page)
        requires
            0 <= id,
        ensures
            r@ == PageView::fresh(id as usize),
    {
        proof {
            lemma_flags(0);
        }
        Page {
            inner: PageInner {
                flags: 0,
                id: id as usize,
                pin_count: 0,
                wal_tag: TAG_UNSET,
                buffer: None,
                overflow_cells: Vec::new(),
            },
        }
    }

    /// The page's number.
    pub fn id(&self) -> (r: usize)
        ensures
            r == self@.id,
    {
        self.inner.id
    }

    /// What is inside the page.
    pub fn get(&mut self) -> (r: &mut PageInner)
        ensures
            *r == old(self).inner,
            final(self).inner == *final(r),
    {
        &mut self.inner
    }

    /// What is inside a page whose bytes are loaded.
    pub fn get_contents(&mut self) -> (r: &mut PageInner)
        requires
            old(self)@.buffer is Some,
        ensures
            *r == old(self).inner,
            final(self).inner == *final(r),
    {
        &mut self.inner
    }

    /// Whether the page is locked for a read or a write.
    pub fn is_locked(&self) -> (r: bool)
        ensures
            r == self@.locked,
    {
        self.inner.flags & PAGE_LOCKED != 0
    }

    /// Locks the page.
    pub fn set_locked(&mut self)
        ensures
            final(self)@ == (PageView { locked: true, ..old(self)@ }),
    {
        proof {
            lemma_flags(self.inner.flags);
        }
        self.inner.flags = self.inner.flags | PAGE_LOCKED;
    }

    /// Unlocks the page.
    pub fn clear_locked(&mut self)
        ensures
            final(self)@ == (PageView { locked: false, ..old(self)@ }),
    {
        proof {
            lemma_flags(self.inner.flags);
        }
        self.inner.flags = self.inner.flags & !PAGE_LOCKED;
    }

    /// Whether the page has changes that were not flushed.
    pub fn is_dirty(&self) -> (r: bool)
        ensures
            r == self@.dirty,
    {
        self.inner.flags & PAGE_DIRTY != 0
    }

    /// Marks the page as modified. No frame holds it any more, and it is no
    /// longer spilled.
    pub fn set_dirty(&mut self)
        ensures
            final(self)@ == old(self)@.dirtied(),
    {
        self.clear_wal_tag();
        proof {
            lemma_flags(self.inner.flags);
            lemma_flags(self.inner.flags & !PAGE_SPILLED);
        }
        self.inner.flags = self.inner.flags & !PAGE_SPILLED;
        self.inner.flags = self.inner.flags | PAGE_DIRTY;
    }

    /// Marks the page as unmodified and forgets which frame holds it.
    pub fn clear_dirty(&mut self)
        ensures
            final(self)@ == old(self)@.cleaned(),
    {
        proof {
            lemma_flags(self.inner.flags);
        }
        self.inner.flags = self.inner.flags & !PAGE_DIRTY;
        self.clear_wal_tag();
    }

    /// Marks the page as unmodified and keeps which frame holds it.
    pub fn clear_dirty_keep_wal_tag(&mut self)
        ensures
            final(self)@ == (PageView { dirty: false, ..old(self)@ }),
    {
        proof {
            lemma_flags(self.inner.flags);
        }
        self.inner.flags = self.inner.flags & !PAGE_DIRTY;
    }

    /// Whether the page was spilled, so that it may be evicted although it is dirty.
    pub fn is_spilled(&self) -> (r: bool)
        ensures
            r == self@.spilled,
    {
        self.inner.flags & PAGE_SPILLED != 0
    }

    /// Marks the page as spilled.
    pub fn set_spilled(&mut self)
        ensures
            final(self)@ == (PageView { spilled: true, ..old(self)@ }),
    {
        proof {
            lemma_flags(self.inner.flags);
        }
        self.inner.flags = self.inner.flags | PAGE_SPILLED;
    }

    /// Marks the page as not spilled.
    pub fn clear_spilled(&mut self)
        ensures
            final(self)@ == (PageView { spilled: false, ..old(self)@ }),
    {
        proof {
            lemma_flags(self.inner.flags);
        }
        self.inner.flags = self.inner.flags & !PAGE_SPILLED;
    }

    /// Whether the page's contents are in memory.
    pub fn is_loaded(&self) -> (r: bool)
        ensures
            r == self@.loaded,
    {
        self.inner.flags & PAGE_LOADED != 0
    }

    /// Marks the page's contents as being in memory.
    pub fn set_loaded(&mut self)
        ensures
            final(self)@ == (PageView { loaded: true, ..old(self)@ }),
    {
        proof {
            lemma_flags(self.inner.flags);
        }
        self.inner.flags = self.inner.flags | PAGE_LOADED;
    }

    /// Marks the page's contents as not being in memory.
    pub fn clear_loaded(&mut self)
        ensures
            final(self)@ == (PageView { loaded: false, ..old(self)@ }),
    {
        proof {
            lemma_flags(self.inner.flags);
        }
        self.inner.flags = self.inner.flags & !PAGE_LOADED;
    }

    /// Whether the page belongs to an index.
    pub fn is_index(&self) -> (r: Result<bool, LimboError>)
        requires
            self.inner.fits(BTREE_PAGE_TYPE as int, 1),
        ensures
            match PageType::of_byte(self@.data()[self@.start()]) {
                Some(t) => r == Ok::<bool, LimboError>(is_index_type(t)),
                None => r == Err::<bool, LimboError>(
                    LimboError::Corrupt(
                        Corruption::InvalidPageType { value: self@.data()[self@.start()] },
                    ),
                ),
            },
    {
        match self.inner.page_type() {
            Ok(t) => Ok(
                match t {
                    PageType::IndexLeaf | PageType::IndexInterior => true,
                    PageType::TableLeaf | PageType::TableInterior => false,
                },
            ),
            Err(e) => Err(e),
        }
    }

    /// Adds a pin.
    pub fn pin(&mut self)
        requires
            old(self)@.pin_count < usize::MAX,
        ensures
            final(self)@ == (PageView {
                pin_count: (old(self)@.pin_count + 1) as usize,
                ..old(self)@
            }),
    {
        self.inner.pin_count = self.inner.pin_count + 1;
    }

    /// Takes a pin away from a pinned page.
    pub fn unpin(&mut self)
        requires
            old(self)@.pin_count > 0,
        ensures
            final(self)@ == (PageView {
                pin_count: (old(self)@.pin_count - 1) as usize,
                ..old(self)@
            }),
    {
        let _was_pinned = self.try_unpin();
    }

    /// Takes a pin away if there is one, and says whether there was.
    pub fn try_unpin(&mut self) -> (r: bool)
        ensures
            r == (old(self)@.pin_count > 0),
            r ==> final(self)@ == (PageView {
                pin_count: (old(self)@.pin_count - 1) as usize,
                ..old(self)@
            }),
            !r ==> final(self)@ == old(self)@,
    {
        if self.inner.pin_count == 0 {
            false
        } else {
            self.inner.pin_count = self.inner.pin_count - 1;
            true
        }
    }

    /// Whether the page is pinned and stays in the cache.
    pub fn is_pinned(&self) -> (r: bool)
        ensures
            r == (self@.pin_count > 0),
    {
        self.inner.pin_count > 0
    }

    /// Records which frame, in which epoch, holds the page as it is. If no tag can hold the
    /// frame's number the page is left without one, and no checkpoint will copy it.
    pub fn set_wal_tag(&mut self, frame: u64, epoch: u32)
        ensures
            final(self)@ == old(self)@.tagged(frame, epoch),
    {
        if frame > FRAME_MAX {
            self.clear_wal_tag();
            return ;
        }
        assert(epoch & 0xf_ffffu32 == epoch % 0x10_0000u32) by (bit_vector);
        let e: u32 = epoch & EPOCH_MAX;
        self.inner.wal_tag = pack_tag_pair(frame, e);
    }

    /// The frame and the epoch of the page's tag.
    pub fn wal_tag_pair(&self) -> (r: (u64, u32))
        ensures
            r.0 == self@.wal_tag as int % 0x1000_0000_0000,
            r.1 == self@.wal_tag as int / 0x1000_0000_0000,
    {
        unpack_tag_pair(self.inner.wal_tag)
    }

    /// Forgets which frame holds the page.
    pub fn clear_wal_tag(&mut self)
        ensures
            final(self)@ == (PageView { wal_tag: TAG_UNSET, ..old(self)@ }),
    {
        self.inner.wal_tag = TAG_UNSET;
    }

    /// Whether some frame is known to hold the page as it is.
    pub fn has_wal_tag(&self) -> (r: bool)
        ensures
            r == (self@.wal_tag != TAG_UNSET && self@.wal_tag != TAG_WRITE_PENDING),
    {
        self.inner.wal_tag != TAG_UNSET && self.inner.wal_tag != TAG_WRITE_PENDING
    }

    /// Records that a frame with the page is being written, so that a
    /// modification in the meantime can be told.
    pub fn set_write_pending(&mut self)
        ensures
            final(self)@ == (PageView { wal_tag: TAG_WRITE_PENDING, ..old(self)@ }),
    {
        self.inner.wal_tag = TAG_WRITE_PENDING;
    }

    /// Records which frame holds the page, unless the page was modified since
    /// the write began; says whether it did.
    pub fn try_set_wal_tag(&mut self, frame: u64, epoch: u32) -> (r: bool)
        ensures
            r == (old(self)@.wal_tag != TAG_UNSET),
            r ==> final(self)@ == (PageView { wal_tag: tag_of(frame, epoch) as u64, ..old(self)@ }),
            !r ==> final(self)@ == old(self)@,
    {
        let new_tag: u64 = pack_tag_pair(frame, epoch);
        if self.inner.wal_tag == TAG_UNSET {
            return false;
        }
        self.inner.wal_tag = new_tag;
        true
    }

    /// Ends a read of the page: these are its bytes, from no known frame.
    pub fn finish_read(&mut self, buffer: Vec<u8>)
        ensures
            final(self)@ == (PageView {
                buffer: Some(buffer@),
                locked: false,
                loaded: true,
                wal_tag: TAG_UNSET,
                ..old(self)@
            }),
    {
        self.inner.buffer = Some(buffer);
        self.clear_locked();
        self.set_loaded();
        self.clear_wal_tag();
    }

    /// Whether a checkpoint may copy the page instead of reading `target_frame`.
    pub fn is_valid_for_checkpoint(&self, target_frame: u64, epoch: u32) -> (r: bool)
        ensures
            r == self@.valid_for_checkpoint(target_frame, epoch),
    {
        let (f, s) = self.wal_tag_pair();
        f == target_frame && s == epoch && !self.is_dirty() && self.is_loaded() && !self.is_locked()
    }
}

/// A page that was just tagged with a frame and an epoch is good for a
/// checkpoint of that frame, if it is clean, loaded and unlocked; once it is
/// modified it is not good for any frame, nor has it a tag.
pub proof fn law_modification_invalidates(page: PageView, frame: u64, epoch: u32)
    requires
        frame <= FRAME_MAX,
        epoch <= EPOCH_MAX,
    ensures
        page.tagged(frame, epoch).valid_for_checkpoint(frame, epoch) == (!page.dirty && page.loaded
            && !page.locked),
        forall|f: u64, e: u32| !page.dirtied().valid_for_checkpoint(f, e),
        page.dirtied().wal_tag == TAG_UNSET,
        !page.dirtied().spilled,
{
    law_tag_round_trip(frame, epoch);
}

} // verus!
