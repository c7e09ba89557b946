//! The on-disk vocabulary: page sizes, page types, varints, and how much of a
//! payload stays on its btree page.

use vstd::prelude::*;
use crate::error::{Corruption, LimboError};

verus! {

/// Offset of the page type within a btree page header.
pub const BTREE_PAGE_TYPE: usize = 0;
/// Offset of the first freeblock pointer within a btree page header.
pub const BTREE_FIRST_FREEBLOCK: usize = 1;
/// Offset of the cell count within a btree page header.
pub const BTREE_CELL_COUNT: usize = 3;
/// Offset of the start of the cell content area within a btree page header.
pub const BTREE_CELL_CONTENT_AREA: usize = 5;
/// Offset of the fragmented byte count within a btree page header.
pub const BTREE_FRAGMENTED_BYTES_COUNT: usize = 7;
/// Offset of the rightmost child pointer within an interior btree page header.
pub const BTREE_RIGHTMOST_PTR: usize = 8;
/// Bytes that one cell pointer takes.
pub const CELL_PTR_SIZE_BYTES: usize = 2;
/// Bytes that the header of an interior page takes.
pub const INTERIOR_PAGE_HEADER_SIZE_BYTES: usize = 12;
/// Bytes that the header of a leaf page takes.
pub const LEAF_PAGE_HEADER_SIZE_BYTES: usize = 8;
/// No cell takes fewer bytes than this.
pub const MINIMUM_CELL_SIZE: usize = 4;

/// Offset of the next trunk pointer within a freelist trunk page.
pub const FREELIST_TRUNK_OFFSET_NEXT_TRUNK_PTR: usize = 0;
/// Offset of the leaf count within a freelist trunk page.
pub const FREELIST_TRUNK_OFFSET_LEAF_COUNT: usize = 4;
/// Offset of the first leaf pointer within a freelist trunk page.
pub const FREELIST_TRUNK_OFFSET_FIRST_LEAF_PTR: usize = 8;
/// Bytes that one leaf pointer of a freelist trunk page takes.
pub const FREELIST_LEAF_PTR_SIZE: usize = 4;

/// A page size in its two-byte on-disk form, where 1 stands for 65536.
#[derive(Debug, Clone, Copy, PartialEq, Eq, Structural)]
pub struct PageSize(pub u16);

/// Whether `size` is a power of two between 512 and 65536.
pub open spec fn is_page_size(size: int) -> bool {
    ||| size == 512
    ||| size == 1024
    ||| size == 2048
    ||| size == 4096
    ||| size == 8192
    ||| size == 16384
    ||| size == 32768
    ||| size == 65536
}

impl PageSize {
    /// The smallest page size.
    pub const MIN: u32 = 512;
    /// The largest page size.
    pub const MAX: u32 = 65536;
    /// The page size of a database for which none was chosen.
    pub const DEFAULT: u16 = 4096;

    /// The number of bytes that this page size stands for.
    pub open spec fn bytes(self) -> int {
        if self.0 == 1 {
            65536
        } else {
            self.0 as int
        }
    }

    /// The page size of so many bytes.
    pub open spec fn of(bytes: int) -> PageSize {
        PageSize(
            if bytes == 65536 {
                1
            } else {
                bytes as u16
            },
        )
    }

    /// Whether this is one of the page sizes that a database may have.
    pub open spec fn valid(self) -> bool {
        is_page_size(self.bytes())
    }

    /// The page size of `size` bytes, if a database may have it.
    pub fn new(size: u32) -> (r: Option<PageSize>)
        ensures
            r is Some <==> is_page_size(size as int),
            r matches Some(p) ==> p.bytes() == size && p.valid(),
    {
        if size == 65536 {
            return Some(PageSize(1));
        }
        if size == 512 || size == 1024 || size == 2048 || size == 4096 || size == 8192 || size
            == 16384 || size == 32768 {
            return Some(PageSize(size as u16));
        }
        None
    }

    /// The number of bytes.
    pub fn get(&self) -> (r: u32)
        ensures
            r == self.bytes(),
    {
        if self.0 == 1 {
            65536
        } else {
            self.0 as u32
        }
    }
}

impl Default for PageSize {
    fn default() -> (r: PageSize)
        ensures
            r == PageSize(4096),
            r.valid(),
    {
        PageSize(PageSize::DEFAULT)
    }
}

/// The four kinds of btree page.
#[derive(Debug, Clone, Copy, PartialEq, Eq, Structural)]
pub enum PageType {
    IndexInterior,
    TableInterior,
    IndexLeaf,
    TableLeaf,
}

impl PageType {
    /// The byte that stands for this page type on disk.
    pub open spec fn byte(self) -> u8 {
        match self {
            PageType::IndexInterior => 2,
            PageType::TableInterior => 5,
            PageType::IndexLeaf => 10,
            PageType::TableLeaf => 13,
        }
    }

    /// The page type that a byte stands for.
    pub open spec fn of_byte(value: u8) -> Option<PageType> {
        if value == 2 {
            Some(PageType::IndexInterior)
        } else if value == 5 {
            Some(PageType::TableInterior)
        } else if value == 10 {
            Some(PageType::IndexLeaf)
        } else if value == 13 {
            Some(PageType::TableLeaf)
        } else {
            None
        }
    }

    /// The byte that stands for this page type on disk.
    pub fn as_u8(self) -> (r: u8)
        ensures
            r == self.byte(),
            PageType::of_byte(r) == Some(self),
    {
        match self {
            PageType::IndexInterior => 2,
            PageType::TableInterior => 5,
            PageType::IndexLeaf => 10,
            PageType::TableLeaf => 13,
        }
    }

    /// The page type that a byte stands for.
    pub fn from_u8(value: u8) -> (r: Result<PageType, LimboError>)
        ensures
            match PageType::of_byte(value) {
                Some(t) => r == Ok::<PageType, LimboError>(t) && t.byte() == value,
                None => r == Err::<PageType, LimboError>(
                    LimboError::Corrupt(Corruption::InvalidPageType { value }),
                ),
            },
    {
        if value == 2 {
            Ok(PageType::IndexInterior)
        } else if value == 5 {
            Ok(PageType::TableInterior)
        } else if value == 10 {
            Ok(PageType::IndexLeaf)
        } else if value == 13 {
            Ok(PageType::TableLeaf)
        } else {
            Err(LimboError::Corrupt(Corruption::InvalidPageType { value }))
        }
    }
}

/// Whether pages of this type belong to an index.
pub open spec fn is_index_type(t: PageType) -> bool {
    t == PageType::IndexInterior || t == PageType::IndexLeaf
}

/// The value of the varint's first `n` bytes, each giving its low seven bits.
pub open spec fn varint_prefix(s: Seq<u8>, pos: int, n: nat) -> nat
    decreases n,
{
    if n == 0 {
        0
    } else {
        varint_prefix(s, pos, (n - 1) as nat) * 128 + (s[pos + n - 1] % 128) as nat
    }
}

/// The first byte from `k` on, among the first eight of the varint at `pos`,
/// that ends it; 8 if none of them does.
pub open spec fn varint_stop(s: Seq<u8>, pos: int, k: nat) -> nat
    decreases 8 - k,
{
    if k >= 8 {
        8
    } else if pos + k >= s.len() || s[pos + k] < 128 {
        k
    } else {
        varint_stop(s, pos, k + 1)
    }
}

/// The varint at `pos`: its value and its length in bytes. Each of the first
/// eight bytes gives seven bits, most significant first, and goes on to the
/// next one if it is 128 or more; a ninth byte gives eight bits. `None` if the
/// sequence ends first.
pub open spec fn varint_at(s: Seq<u8>, pos: int) -> Option<(int, int)> {
    let k = varint_stop(s, pos, 0);
    if pos + k >= s.len() {
        None
    } else if k < 8 {
        Some((varint_prefix(s, pos, k + 1) as int, k as int + 1))
    } else {
        Some((varint_prefix(s, pos, 8) * 256 + s[pos + 8], 9))
    }
}

proof fn lemma_varint_prefix_bound(s: Seq<u8>, pos: int, n: nat)
    requires
        n <= 8,
    ensures
        n == 0 ==> varint_prefix(s, pos, n) < 1,
        n == 1 ==> varint_prefix(s, pos, n) < 0x80,
        n == 2 ==> varint_prefix(s, pos, n) < 0x4000,
        n == 3 ==> varint_prefix(s, pos, n) < 0x20_0000,
        n == 4 ==> varint_prefix(s, pos, n) < 0x1000_0000,
        n == 5 ==> varint_prefix(s, pos, n) < 0x8_0000_0000,
        n == 6 ==> varint_prefix(s, pos, n) < 0x400_0000_0000,
        n == 7 ==> varint_prefix(s, pos, n) < 0x2_0000_0000_0000,
        n == 8 ==> varint_prefix(s, pos, n) < 0x100_0000_0000_0000,
        varint_prefix(s, pos, n) < 0x100_0000_0000_0000,
    decreases n,
{
    if n > 0 {
        lemma_varint_prefix_bound(s, pos, (n - 1) as nat);
    }
}

/// A varint takes one to nine bytes, all inside the sequence, and its value fits 64 bits.
pub proof fn lemma_varint_at(s: Seq<u8>, pos: int)
    requires
        0 <= pos,
    ensures
        varint_at(s, pos) matches Some((v, n)) ==> {
            &&& 1 <= n <= 9
            &&& pos + n <= s.len()
            &&& 0 <= v <= u64::MAX
        },
{
    let k = varint_stop(s, pos, 0);
    lemma_varint_stop_bound(s, pos, 0);
    if pos + k < s.len() {
        if k < 8 {
            lemma_varint_prefix_bound(s, pos, k + 1);
        } else {
            lemma_varint_prefix_bound(s, pos, 8);
        }
    }
}

proof fn lemma_varint_stop_bound(s: Seq<u8>, pos: int, k: nat)
    requires
        k <= 8,
    ensures
        k <= varint_stop(s, pos, k) <= 8,
    decreases 8 - k,
{
    if k < 8 && !(pos + k >= s.len() || s[pos + k as int] < 128) {
        lemma_varint_stop_bound(s, pos, k + 1);
    }
}

/// Reads the varint that starts at `pos`.
pub fn read_varint(buf: &[u8], pos: usize) -> (r: Result<(u64, usize), LimboError>)
    requires
        pos <= buf@.len(),
    ensures
        match varint_at(buf@, pos as int) {
            Some((v, n)) => r matches Ok((x, len)) && x == v && len == n,
            None => r == Err::<(u64, usize), LimboError>(
                LimboError::Corrupt(Corruption::InvalidVarint),
            ),
        },
{
    let avail: usize = buf.len() - pos;
    let mut v: u64 = 0;
    let mut i: usize = 0;
    while i < 8
        invariant
            i <= 8,
            pos + avail == buf@.len(),
            pos + avail <= usize::MAX,
            v == varint_prefix(buf@, pos as int, i as nat),
            pos + i <= buf@.len(),
            varint_stop(buf@, pos as int, 0) == varint_stop(buf@, pos as int, i as nat),
        decreases 8 - i,
    {
        if i >= avail {
            return Err(LimboError::Corrupt(Corruption::InvalidVarint));
        }
        let c: u8 = buf[pos + i];
        proof {
            lemma_varint_prefix_bound(buf@, pos as int, i as nat);
        }
        v = v * 128 + (c % 128) as u64;
        if c < 128 {
            return Ok((v, i + 1));
        }
        i = i + 1;
    }
    if 8 >= avail {
        return Err(LimboError::Corrupt(Corruption::InvalidVarint));
    }
    proof {
        lemma_varint_prefix_bound(buf@, pos as int, 8);
    }
    Ok((v * 256 + buf[pos + 8] as u64, 9))
}

/// The largest payload that stays wholly on a page.
pub open spec fn max_local(t: PageType, usable: int) -> int {
    if is_index_type(t) {
        ((usable - 12) * 64) / 255 - 23
    } else {
        usable - 35
    }
}

/// The least part of an overflowing payload that stays on its page.
pub open spec fn min_local(usable: int) -> int {
    ((usable - 12) * 32) / 255 - 23
}

/// The largest payload that stays wholly on a page of this type.
pub fn payload_overflow_threshold_max(page_type: PageType, usable_space: usize) -> (r: usize)
    requires
        480 <= usable_space <= 65536,
    ensures
        r == max_local(page_type, usable_space as int),
        89 <= r <= usable_space,
{
    match page_type {
        PageType::IndexInterior | PageType::IndexLeaf => ((usable_space - 12) * 64) / 255 - 23,
        PageType::TableInterior | PageType::TableLeaf => usable_space - 35,
    }
}

/// The least part of an overflowing payload that stays on its page.
pub fn payload_overflow_threshold_min(_page_type: PageType, usable_space: usize) -> (r: usize)
    requires
        480 <= usable_space <= 65536,
    ensures
        r == min_local(usable_space as int),
        35 <= r <= usable_space,
{
    ((usable_space - 12) * 32) / 255 - 23
}

/// Whether a payload overflows, and if so how many bytes of its cell (the local
/// part and the four-byte overflow pointer) are on the page.
pub open spec fn overflow_split(payload: int, max: int, min: int, usable: int) -> (bool, int) {
    if payload <= max {
        (false, 0)
    } else {
        let local = min + (payload - min) % (usable - 4);
        (true, (if local > max { min } else { local }) + 4)
    }
}

/// Whether a payload overflows, and if so how many bytes of its cell are on the page.
pub fn payload_overflows(
    payload_size: u64,
    payload_overflow_threshold_max: usize,
    payload_overflow_threshold_min: usize,
    usable_size: usize,
) -> (r: (bool, usize))
    requires
        480 <= usable_size <= 65536,
        payload_overflow_threshold_min <= payload_overflow_threshold_max <= usable_size,
    ensures
        (r.0, r.1 as int) == overflow_split(
            payload_size as int,
            payload_overflow_threshold_max as int,
            payload_overflow_threshold_min as int,
            usable_size as int,
        ),
        r.0 ==> 4 <= r.1 <= payload_overflow_threshold_max + 4,
{
    if payload_size <= payload_overflow_threshold_max as u64 {
        return (false, 0);
    }
    let rest: u64 = (payload_size - payload_overflow_threshold_min as u64) % (usable_size as u64
        - 4);
    let mut space_left: usize = payload_overflow_threshold_min + rest as usize;
    if space_left > payload_overflow_threshold_max {
        space_left = payload_overflow_threshold_min;
    }
    (true, space_left + 4)
}

} // verus!
