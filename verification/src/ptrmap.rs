//! The pointer map: for each page of a database with autovacuum, what kind of
//! page it is and which page points to it.
//!
//! Page 1 holds the schema. Page 2 is the first pointer map page; each pointer map
//! page holds five-byte entries for the data pages that follow it, and the
//! next pointer map page comes right after those.

use vstd::prelude::*;
use crate::bytes::{be32, be32_bytes, lemma_be32_bytes_of, read_be32, splice, write_be32};
use crate::error::{InternalFault, LimboError};
use crate::ondisk::PageSize;

verus! {

/// Bytes of an entry.
pub const PTRMAP_ENTRY_SIZE: usize = 5;
/// The first pointer map page, if the database has any.
pub const FIRST_PTRMAP_PAGE_NO: u32 = 2;

/// What a page is used for.
#[derive(Debug, Clone, Copy, PartialEq, Eq, Structural)]
pub enum PtrmapType {
    /// The root of a btree; the parent is not used.
    RootPage,
    /// A free page; the parent is not used.
    FreePage,
    /// The first page of an overflow chain; the parent holds the cell.
    Overflow1,
    /// A later page of an overflow chain; the parent is the page before it.
    Overflow2,
    /// A btree page that is no root; the parent is its parent in the btree.
    BTreeNode,
}

impl PtrmapType {
    /// The byte that stands for the type on disk.
    pub open spec fn byte(self) -> u8 {
        match self {
            PtrmapType::RootPage => 1,
            PtrmapType::FreePage => 2,
            PtrmapType::Overflow1 => 3,
            PtrmapType::Overflow2 => 4,
            PtrmapType::BTreeNode => 5,
        }
    }

    /// The type that a byte stands for on disk.
    pub open spec fn of_byte(value: u8) -> Option<PtrmapType> {
        if value == 1 {
            Some(PtrmapType::RootPage)
        } else if value == 2 {
            Some(PtrmapType::FreePage)
        } else if value == 3 {
            Some(PtrmapType::Overflow1)
        } else if value == 4 {
            Some(PtrmapType::Overflow2)
        } else if value == 5 {
            Some(PtrmapType::BTreeNode)
        } else {
            None
        }
    }

    /// The byte that stands for the type on disk.
    pub fn as_u8(self) -> (r: u8)
        ensures
            r == self.byte(),
    {
        match self {
            PtrmapType::RootPage => 1,
            PtrmapType::FreePage => 2,
            PtrmapType::Overflow1 => 3,
            PtrmapType::Overflow2 => 4,
            PtrmapType::BTreeNode => 5,
        }
    }

    /// The type that a byte stands for on disk.
    pub fn from_u8(value: u8) -> (r: Option<PtrmapType>)
        ensures
            r == PtrmapType::of_byte(value),
    {
        match value {
            1 => Some(PtrmapType::RootPage),
            2 => Some(PtrmapType::FreePage),
            3 => Some(PtrmapType::Overflow1),
            4 => Some(PtrmapType::Overflow2),
            5 => Some(PtrmapType::BTreeNode),
            _ => None,
        }
    }
}

/// An entry of the pointer map.
#[derive(Debug, Clone, Copy, PartialEq, Eq, Structural)]
pub struct PtrmapEntry {
    pub entry_type: PtrmapType,
    pub parent_page_no: u32,
}

impl PtrmapEntry {
    /// The entry's five bytes on disk.
    pub open spec fn encoded(self) -> Seq<u8> {
        seq![self.entry_type.byte()] + be32_bytes(self.parent_page_no)
    }

    /// The entry in the five bytes at `pos`, if the first of them is a type.
    pub open spec fn decoded(s: Seq<u8>, pos: int) -> Option<PtrmapEntry> {
        match PtrmapType::of_byte(s[pos]) {
            Some(entry_type) => Some(
                PtrmapEntry { entry_type, parent_page_no: be32(s, pos + 1) as u32 },
            ),
            None => None,
        }
    }

    /// Writes the entry at the start of `buffer`.
    pub fn serialize(&self, buffer: &mut [u8]) -> (r: Result<(), LimboError>)
        ensures
            old(buffer)@.len() < PTRMAP_ENTRY_SIZE ==> {
                &&& r == Err::<(), LimboError>(
                    LimboError::InternalError(
                        InternalFault::PtrmapBufferTooSmall { len: old(buffer)@.len() as usize },
                    ),
                )
                &&& final(buffer)@ == old(buffer)@
            },
            old(buffer)@.len() >= PTRMAP_ENTRY_SIZE ==> {
                &&& r is Ok
                &&& final(buffer)@ == splice(old(buffer)@, 0, self.encoded())
            },
    {
        self.serialize_at(buffer, 0)
    }

    /// Writes the entry at `pos`, which is inside `buffer`.
    pub fn serialize_at(&self, buffer: &mut [u8], pos: usize) -> (r: Result<(), LimboError>)
        requires
            pos <= old(buffer)@.len(),
        ensures
            old(buffer)@.len() - pos < PTRMAP_ENTRY_SIZE ==> {
                &&& r == Err::<(), LimboError>(
                    LimboError::InternalError(
                        InternalFault::PtrmapBufferTooSmall {
                            len: (old(buffer)@.len() - pos) as usize,
                        },
                    ),
                )
                &&& final(buffer)@ == old(buffer)@
            },
            old(buffer)@.len() - pos >= PTRMAP_ENTRY_SIZE ==> {
                &&& r is Ok
                &&& final(buffer)@ == splice(old(buffer)@, pos as int, self.encoded())
                &&& PtrmapEntry::decoded(final(buffer)@, pos as int) == Some(*self)
            },
    {
        let len: usize = buffer.len();
        if len - pos < PTRMAP_ENTRY_SIZE {
            return Err(
                LimboError::InternalError(InternalFault::PtrmapBufferTooSmall { len: len - pos }),
            );
        }
        buffer[pos] = self.entry_type.as_u8();
        write_be32(buffer, pos + 1, self.parent_page_no);
        assert(buffer@ =~= splice(old(buffer)@, pos as int, self.encoded()));
        Ok(())
    }

    /// Reads the entry at the start of `buffer`.
    pub fn deserialize(buffer: &[u8]) -> (r: Option<PtrmapEntry>)
        ensures
            r == (if buffer@.len() < PTRMAP_ENTRY_SIZE {
                None
            } else {
                PtrmapEntry::decoded(buffer@, 0)
            }),
    {
        if buffer.len() < PTRMAP_ENTRY_SIZE {
            return None;
        }
        PtrmapEntry::deserialize_at(buffer, 0)
    }

    /// Reads the entry at `pos`.
    pub fn deserialize_at(buffer: &[u8], pos: usize) -> (r: Option<PtrmapEntry>)
        requires
            pos + PTRMAP_ENTRY_SIZE <= buffer@.len(),
        ensures
            r == PtrmapEntry::decoded(buffer@, pos as int),
    {
        let _len: usize = buffer.len();
        let parent_page_no: u32 = read_be32(buffer, pos + 1);
        match PtrmapType::from_u8(buffer[pos]) {
            Some(entry_type) => Some(PtrmapEntry { entry_type, parent_page_no }),
            None => None,
        }
    }
}

/// Reading an entry gives back what was written, and writing back an entry
/// that was read gives the bytes that it was read from.
pub proof fn law_ptrmap_entry_round_trip(entry: PtrmapEntry, bytes: Seq<u8>)
    requires
        bytes.len() == PTRMAP_ENTRY_SIZE,
    ensures
        entry.encoded().len() == PTRMAP_ENTRY_SIZE,
        PtrmapEntry::decoded(entry.encoded(), 0) == Some(entry),
        PtrmapEntry::decoded(bytes, 0) matches Some(e) ==> e.encoded() == bytes,
{
    crate::bytes::lemma_be32_of_bytes(entry.parent_page_no);
    let enc = entry.encoded();
    assert(be32(enc, 1) == be32(be32_bytes(entry.parent_page_no), 0));
    if let Some(e) = PtrmapEntry::decoded(bytes, 0) {
        lemma_be32_bytes_of(bytes, 1);
        assert(e.encoded() =~= bytes);
    }
}

/// Pages from one pointer map page to the next: its data pages and itself.
pub open spec fn cycle(page_size: int) -> int {
    page_size / 5 + 1
}

/// The pointer map page that page `p` is mapped by, or is.
pub open spec fn map_page(p: int, page_size: int) -> int {
    p - (p - 2) % cycle(page_size)
}

/// Whether page `p` is a pointer map page.
pub open spec fn is_map_page(p: int, page_size: int) -> bool {
    p >= 2 && (p - 2) % cycle(page_size) == 0
}

/// Whether page `p` has an entry in the pointer map.
pub open spec fn is_mapped(p: int, page_size: int) -> bool {
    p >= 2 && !is_map_page(p, page_size)
}

/// Where the entry of page `p` is in its pointer map page.
pub open spec fn map_offset(p: int, page_size: int) -> int {
    (p - map_page(p, page_size) - 1) * 5
}

/// Data pages that one pointer map page maps.
pub fn entries_per_ptrmap_page(page_size: usize) -> (r: usize)
    requires
        page_size >= PageSize::MIN,
    ensures
        r == page_size / 5,
{
    page_size / PTRMAP_ENTRY_SIZE
}

/// Pages from one pointer map page to the next.
pub fn ptrmap_page_cycle_length(page_size: usize) -> (r: usize)
    requires
        page_size >= PageSize::MIN,
    ensures
        r == cycle(page_size as int),
{
    (page_size / PTRMAP_ENTRY_SIZE) + 1
}

/// Whether a page of a database with autovacuum is a pointer map page.
pub fn is_ptrmap_page(db_page_no: u32, page_size: usize) -> (r: bool)
    requires
        db_page_no >= 1,
        PageSize::MIN <= page_size <= u32::MAX,
    ensures
        r == is_map_page(db_page_no as int, page_size as int),
{
    if db_page_no == 1 {
        return false;
    }
    if db_page_no == FIRST_PTRMAP_PAGE_NO {
        proof {
            vstd::arithmetic::div_mod::lemma_small_mod(0, cycle(page_size as int) as nat);
        }
        return true;
    }
    get_ptrmap_page_no_for_db_page(db_page_no, page_size) == db_page_no
}

/// The pointer map page with the entry of a page.
pub fn get_ptrmap_page_no_for_db_page(db_page_no_to_query: u32, page_size: usize) -> (r: u32)
    requires
        db_page_no_to_query >= FIRST_PTRMAP_PAGE_NO,
        PageSize::MIN <= page_size <= u32::MAX,
    ensures
        r == map_page(db_page_no_to_query as int, page_size as int),
        2 <= r <= db_page_no_to_query,
{
    let group_size: u32 = ptrmap_page_cycle_length(page_size) as u32;
    let effective_page_index: u32 = db_page_no_to_query - FIRST_PTRMAP_PAGE_NO;
    let group_idx: u32 = effective_page_index / group_size;
    proof {
        vstd::arithmetic::div_mod::lemma_fundamental_div_mod(
            effective_page_index as int,
            group_size as int,
        );
        assert(group_size * group_idx == group_idx * group_size) by (nonlinear_arith);
        assert(0 <= group_idx * group_size) by (nonlinear_arith);
    }
    (group_idx * group_size) + FIRST_PTRMAP_PAGE_NO
}

/// Where the entry of a page is in the pointer map page `ptrmap_page_no`.
pub fn get_ptrmap_offset_in_page(
    db_page_no_to_query: u32,
    ptrmap_page_no: u32,
    page_size: usize,
) -> (r: Result<usize, LimboError>)
    requires
        PageSize::MIN <= page_size <= u32::MAX,
        ptrmap_page_no + page_size / 5 <= u32::MAX,
    ensures
        if !(ptrmap_page_no < db_page_no_to_query <= ptrmap_page_no + page_size / 5) {
            r == Err::<usize, LimboError>(
                LimboError::InternalError(
                    InternalFault::PtrmapPageNotMapped {
                        page_no: db_page_no_to_query,
                        ptrmap_page_no,
                    },
                ),
            )
        } else if is_map_page(db_page_no_to_query as int, page_size as int) {
            r == Err::<usize, LimboError>(
                LimboError::InternalError(
                    InternalFault::PtrmapEntryForPtrmapPage { page_no: db_page_no_to_query },
                ),
            )
        } else {
            r == Ok::<usize, LimboError>(
                ((db_page_no_to_query - ptrmap_page_no - 1) * 5) as usize,
            )
        },
{
    let n_data_pages_per_group: usize = entries_per_ptrmap_page(page_size);
    let first_data_page_mapped: u32 = ptrmap_page_no + 1;
    let last_data_page_mapped: u32 = ptrmap_page_no + n_data_pages_per_group as u32;
    if db_page_no_to_query < first_data_page_mapped || db_page_no_to_query > last_data_page_mapped {
        return Err(
            LimboError::InternalError(
                InternalFault::PtrmapPageNotMapped { page_no: db_page_no_to_query, ptrmap_page_no },
            ),
        );
    }
    if is_ptrmap_page(db_page_no_to_query, page_size) {
        return Err(
            LimboError::InternalError(
                InternalFault::PtrmapEntryForPtrmapPage { page_no: db_page_no_to_query },
            ),
        );
    }
    let entry_index_on_page: usize = (db_page_no_to_query - first_data_page_mapped) as usize;
    Ok(entry_index_on_page * PTRMAP_ENTRY_SIZE)
}

/// The page that maps a data page is a pointer map page, the data page is in the
/// range that it maps, and its entry is inside it.
pub proof fn law_ptrmap_maps_every_data_page(p: int, page_size: int)
    requires
        page_size >= 512,
        is_mapped(p, page_size),
    ensures
        is_map_page(map_page(p, page_size), page_size),
        map_page(p, page_size) < p <= map_page(p, page_size) + page_size / 5,
        0 <= map_offset(p, page_size),
        map_offset(p, page_size) + PTRMAP_ENTRY_SIZE <= page_size,
{
    let c = cycle(page_size);
    vstd::arithmetic::div_mod::lemma_fundamental_div_mod(p - 2, c);
    vstd::arithmetic::div_mod::lemma_mod_bound(p - 2, c);
    vstd::arithmetic::div_mod::lemma_mod_multiples_basic((p - 2) / c, c);
    assert(map_page(p, page_size) - 2 == c * ((p - 2) / c));
    assert(c * ((p - 2) / c) == ((p - 2) / c) * c) by (nonlinear_arith);
    assert((p - 2) / c >= 0) by {
        vstd::arithmetic::div_mod::lemma_div_pos_is_pos(p - 2, c);
    }
    assert(((p - 2) / c) * c >= 0) by (nonlinear_arith)
        requires
            (p - 2) / c >= 0,
            c > 0,
    ;
}

/// Two data pages never share a byte of the pointer map.
pub proof fn law_ptrmap_entries_are_disjoint(p: int, q: int, page_size: int)
    requires
        page_size >= 512,
        is_mapped(p, page_size),
        is_mapped(q, page_size),
        p < q,
    ensures
        map_page(p, page_size) != map_page(q, page_size) || map_offset(p, page_size)
            + PTRMAP_ENTRY_SIZE <= map_offset(q, page_size),
{
}

} // verus!
