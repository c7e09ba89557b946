//! Cells of btree pages: where they are, how long they are and what they hold.

use vstd::prelude::*;
use vstd::slice::slice_subrange;
use crate::bytes::{be16, be32, copy_range, read_be32};
use crate::error::{Corruption, LimboError};
use crate::ondisk::{is_index_type, lemma_varint_at, max_local, min_local, overflow_split,
    payload_overflow_threshold_max, payload_overflow_threshold_min, payload_overflows, read_varint,
    varint_at, PageType, CELL_PTR_SIZE_BYTES, MINIMUM_CELL_SIZE};
use crate::page::{header_size_of, PageInner};

verus! {

/// Bytes of the left child pointer that interior cells start with.
pub const LEFT_CHILD_PAGE_SIZE_BYTES: usize = 4;

/// The two's complement reading of a 64-bit word.
pub open spec fn signed(v: int) -> int {
    if v < 0x8000_0000_0000_0000 {
        v
    } else {
        v - 0x1_0000_0000_0000_0000
    }
}

/// Reads a 64-bit word as two's complement.
pub fn as_signed(v: u64) -> (r: i64)
    ensures
        r == signed(v as int),
{
    if v <= 0x7fff_ffff_ffff_ffff {
        v as i64
    } else {
        -((0xffff_ffff_ffff_ffff - v) as i64) - 1
    }
}

/// A cell of a btree page. A payload that overflows is held as far as it is on the page.
#[derive(Debug)]
pub enum BTreeCell {
    TableInterior { left_child_page: u32, rowid: i64 },
    TableLeaf {
        rowid: i64,
        payload: Vec<u8>,
        payload_size: u64,
        first_overflow_page: Option<u32>,
    },
    IndexInterior {
        left_child_page: u32,
        payload: Vec<u8>,
        payload_size: u64,
        first_overflow_page: Option<u32>,
    },
    IndexLeaf { payload: Vec<u8>, payload_size: u64, first_overflow_page: Option<u32> },
}

/// What is in a cell. Leaves have no left child, index cells no rowid, and
/// interior table cells no payload.
#[verifier::ext_equal]
pub struct CellView {
    pub left_child_page: Option<int>,
    pub rowid: Option<int>,
    pub payload: Option<(Seq<u8>, int, Option<int>)>,
}

pub open spec fn optional_int(o: Option<u32>) -> Option<int> {
    match o {
        Some(x) => Some(x as int),
        None => None,
    }
}

impl View for BTreeCell {
    type V = CellView;

    open spec fn view(&self) -> CellView {
        match self {
            BTreeCell::TableInterior { left_child_page, rowid } => CellView {
                left_child_page: Some(*left_child_page as int),
                rowid: Some(*rowid as int),
                payload: None,
            },
            BTreeCell::TableLeaf { rowid, payload, payload_size, first_overflow_page } => CellView {
                left_child_page: None,
                rowid: Some(*rowid as int),
                payload: Some(
                    (payload@, *payload_size as int, optional_int(*first_overflow_page)),
                ),
            },
            BTreeCell::IndexInterior {
                left_child_page,
                payload,
                payload_size,
                first_overflow_page,
            } => CellView {
                left_child_page: Some(*left_child_page as int),
                rowid: None,
                payload: Some(
                    (payload@, *payload_size as int, optional_int(*first_overflow_page)),
                ),
            },
            BTreeCell::IndexLeaf { payload, payload_size, first_overflow_page } => CellView {
                left_child_page: None,
                rowid: None,
                payload: Some(
                    (payload@, *payload_size as int, optional_int(*first_overflow_page)),
                ),
            },
        }
    }
}

/// How a payload of `size` bytes divides on a page of type `t`.
pub open spec fn split_of(t: PageType, size: int, usable: int) -> (bool, int) {
    overflow_split(size, max_local(t, usable), min_local(usable), usable)
}

/// Bytes that a payload of `size` bytes takes on its page, its overflow pointer counted.
pub open spec fn bytes_on_page(t: PageType, size: int, usable: int) -> int {
    let (overflows, n) = split_of(t, size, usable);
    if overflows {
        n
    } else {
        size
    }
}

/// The part of a payload at `start` that is on the page, and its first overflow page.
pub open spec fn local_payload(
    data: Seq<u8>,
    start: int,
    t: PageType,
    size: int,
    usable: int,
) -> (Seq<u8>, Option<int>) {
    let (overflows, n) = split_of(t, size, usable);
    if overflows {
        (data.subrange(start, start + n - 4), Some(be32(data, start + n - 4)))
    } else {
        (data.subrange(start, start + size), None)
    }
}

/// Whether a varint can be looked for at `pos` and, if there is one, the payload
/// whose size it gives, `gap` bytes behind it, is wholly on the page.
pub open spec fn payload_inside(data: Seq<u8>, pos: int, gap: int, t: PageType, usable: int) -> bool {
    &&& 0 <= pos <= data.len()
    &&& varint_at(data, pos) matches Some((size, n)) ==> pos + n + gap + bytes_on_page(
        t,
        size,
        usable,
    ) <= data.len()
}

/// Whether the cell of type `t` at `pos` lies inside the page as far as it can be read.
pub open spec fn cell_inside(data: Seq<u8>, pos: int, t: PageType, usable: int) -> bool {
    match t {
        PageType::TableInterior => pos + 4 <= data.len(),
        PageType::IndexInterior => pos + 4 <= data.len() && payload_inside(data, pos + 4, 0, t, usable),
        PageType::IndexLeaf => payload_inside(data, pos, 0, t, usable),
        PageType::TableLeaf => {
            &&& pos <= data.len()
            &&& varint_at(data, pos) matches Some((size, n)) ==> (varint_at(data, pos + n) matches Some(
                (_, m),
            ) ==> payload_inside(data, pos, m, t, usable))
        },
    }
}

/// The cell of type `t` at `pos`; `None` if one of its varints runs off the page.
pub open spec fn cell_at(data: Seq<u8>, pos: int, t: PageType, usable: int) -> Option<CellView> {
    match t {
        PageType::TableInterior => match varint_at(data, pos + 4) {
            None => None,
            Some((rowid, _)) => Some(
                CellView {
                    left_child_page: Some(be32(data, pos)),
                    rowid: Some(signed(rowid)),
                    payload: None,
                },
            ),
        },
        PageType::IndexInterior => match varint_at(data, pos + 4) {
            None => None,
            Some((size, n)) => {
                let (local, overflow) = local_payload(data, pos + 4 + n, t, size, usable);
                Some(
                    CellView {
                        left_child_page: Some(be32(data, pos)),
                        rowid: None,
                        payload: Some((local, size, overflow)),
                    },
                )
            },
        },
        PageType::IndexLeaf => match varint_at(data, pos) {
            None => None,
            Some((size, n)) => {
                let (local, overflow) = local_payload(data, pos + n, t, size, usable);
                Some(
                    CellView {
                        left_child_page: None,
                        rowid: None,
                        payload: Some((local, size, overflow)),
                    },
                )
            },
        },
        PageType::TableLeaf => match varint_at(data, pos) {
            None => None,
            Some((size, n)) => match varint_at(data, pos + n) {
                None => None,
                Some((rowid, m)) => {
                    let (local, overflow) = local_payload(data, pos + n + m, t, size, usable);
                    Some(
                        CellView {
                            left_child_page: None,
                            rowid: Some(signed(rowid)),
                            payload: Some((local, size, overflow)),
                        },
                    )
                },
            },
        },
    }
}

/// Bytes that the cell of type `t` at `start` takes. A leaf cell that does not
/// overflow takes at least four.
pub open spec fn cell_len(
    data: Seq<u8>,
    start: int,
    t: PageType,
    max: int,
    min: int,
    usable: int,
) -> int {
    match t {
        PageType::TableInterior => {
            let (_, n) = varint_at(data, start + 4)->0;
            4 + n
        },
        PageType::IndexInterior => {
            let (size, n) = varint_at(data, start + 4)->0;
            let (overflows, to_read) = overflow_split(size, max, min, usable);
            4 + n + if overflows {
                to_read
            } else {
                size
            }
        },
        PageType::IndexLeaf => {
            let (size, n) = varint_at(data, start)->0;
            let (overflows, to_read) = overflow_split(size, max, min, usable);
            if overflows {
                to_read + n
            } else if size + n < 4 {
                4
            } else {
                size + n
            }
        },
        PageType::TableLeaf => {
            let (size, n) = varint_at(data, start)->0;
            let (_, m) = varint_at(data, start + n)->0;
            let (overflows, to_read) = overflow_split(size, max, min, usable);
            if overflows {
                to_read + n + m
            } else if size + n + m < 4 {
                4
            } else {
                size + n + m
            }
        },
    }
}

/// Whether the varints that give the length of the cell at `start` are on the page.
pub open spec fn cell_len_readable(data: Seq<u8>, start: int, t: PageType) -> bool {
    match t {
        PageType::TableInterior | PageType::IndexInterior => {
            &&& start + 4 <= data.len()
            &&& varint_at(data, start + 4) is Some
        },
        PageType::IndexLeaf => start <= data.len() && varint_at(data, start) is Some,
        PageType::TableLeaf => {
            &&& start <= data.len()
            &&& varint_at(data, start) matches Some((_, n)) && varint_at(data, start + n) is Some
        },
    }
}

/// How many bytes of a payload of `size` bytes at `start` are on the page, and
/// its first overflow page.
fn read_payload(
    buf: &[u8],
    start: usize,
    page_type: PageType,
    size: u64,
    usable_size: usize,
) -> (r: (usize, Option<u32>))
    requires
        480 <= usable_size <= 65536,
        start + bytes_on_page(page_type, size as int, usable_size as int) <= buf@.len(),
    ensures
        start + r.0 <= buf@.len(),
        (buf@.subrange(start as int, start + r.0), optional_int(r.1)) == local_payload(
            buf@,
            start as int,
            page_type,
            size as int,
            usable_size as int,
        ),
{
    let _len: usize = buf.len();
    let max_local: usize = payload_overflow_threshold_max(page_type, usable_size);
    let min_local: usize = payload_overflow_threshold_min(page_type, usable_size);
    let (overflows, local_size) = payload_overflows(size, max_local, min_local, usable_size);
    if overflows {
        (local_size - 4, Some(read_be32(buf, start + local_size - 4)))
    } else {
        (size as usize, None)
    }
}

impl PageInner {
    /// Whether the pointer of cell `idx` is inside the page.
    pub open spec fn has_cell_pointer(&self, idx: int) -> bool {
        &&& self.fits(0, 8)
        &&& 0 <= idx
        &&& self.fits(header_size_of(self@.data()[self@.start()]) + 2 * idx, 2)
    }

    /// Where cell `idx` starts, as its pointer says.
    pub open spec fn cell_start(&self, idx: int) -> int {
        be16(
            self@.data(),
            self@.start() + header_size_of(self@.data()[self@.start()]) + 2 * idx,
        )
    }

    /// The kind of page that the first byte of the page's content says.
    pub open spec fn kind(&self) -> Option<PageType> {
        PageType::of_byte(self@.data()[self@.start()])
    }

    /// The error for a page whose first byte names no page type.
    pub open spec fn bad_type<T>(&self) -> Result<T, LimboError> {
        Err(
            LimboError::Corrupt(
                Corruption::InvalidPageType { value: self@.data()[self@.start()] },
            ),
        )
    }

    /// Where cell `idx` starts.
    pub fn cell_get_raw_start_offset(&self, idx: usize) -> (r: usize)
        requires
            self.has_cell_pointer(idx as int),
        ensures
            r == self.cell_start(idx as int),
    {
        let _len: usize = self.as_slice().len();
        let cell_pointer_array_start: usize = self.cell_pointer_array_offset();
        let cell_pointer: usize = cell_pointer_array_start + (idx * CELL_PTR_SIZE_BYTES);
        self.read_u16_no_offset(cell_pointer) as usize
    }

    /// Reads cell `idx`.
    pub fn cell_get(&self, idx: usize, usable_size: usize) -> (r: Result<BTreeCell, LimboError>)
        requires
            self.has_cell_pointer(idx as int),
            idx < be16(self@.data(), self@.start() + 3),
            480 <= usable_size <= 65536,
            self.kind() matches Some(t) ==> cell_inside(
                self@.data(),
                self.cell_start(idx as int),
                t,
                usable_size as int,
            ),
        ensures
            match self.kind() {
                None => r == self.bad_type::<BTreeCell>(),
                Some(t) => match cell_at(
                    self@.data(),
                    self.cell_start(idx as int),
                    t,
                    usable_size as int,
                ) {
                    Some(cell) => r matches Ok(c) && c@ == cell,
                    None => r matches Err(e) && e == LimboError::Corrupt(Corruption::InvalidVarint),
                },
            },
    {
        let pos: usize = self.cell_get_raw_start_offset(idx);
        let buf = self.as_slice();
        let _len: usize = buf.len();
        let page_type = match self.page_type() {
            Ok(t) => t,
            Err(e) => {
                return Err(e);
            },
        };
        proof {
            lemma_varint_at(buf@, pos as int);
            lemma_varint_at(buf@, pos + 4);
        }
        match page_type {
            PageType::TableInterior => {
                let left_child_page: u32 = read_be32(buf, pos);
                match read_varint(buf, pos + 4) {
                    Err(e) => Err(e),
                    Ok((rowid, _)) => Ok(
                        BTreeCell::TableInterior { left_child_page, rowid: as_signed(rowid) },
                    ),
                }
            },
            PageType::IndexInterior => {
                let left_child_page: u32 = read_be32(buf, pos);
                match read_varint(buf, pos + 4) {
                    Err(e) => Err(e),
                    Ok((payload_size, n)) => {
                        let start: usize = pos + 4 + n;
                        let (len, first_overflow_page) = read_payload(
                            buf,
                            start,
                            page_type,
                            payload_size,
                            usable_size,
                        );
                        let payload = copy_range(buf, start, start + len);
                        Ok(
                            BTreeCell::IndexInterior {
                                left_child_page,
                                payload,
                                payload_size,
                                first_overflow_page,
                            },
                        )
                    },
                }
            },
            PageType::IndexLeaf => {
                match read_varint(buf, pos) {
                    Err(e) => Err(e),
                    Ok((payload_size, n)) => {
                        let start: usize = pos + n;
                        let (len, first_overflow_page) = read_payload(
                            buf,
                            start,
                            page_type,
                            payload_size,
                            usable_size,
                        );
                        let payload = copy_range(buf, start, start + len);
                        Ok(BTreeCell::IndexLeaf { payload, payload_size, first_overflow_page })
                    },
                }
            },
            PageType::TableLeaf => {
                match read_varint(buf, pos) {
                    Err(e) => Err(e),
                    Ok((payload_size, n)) => {
                        proof {
                            lemma_varint_at(buf@, pos + n);
                        }
                        match read_varint(buf, pos + n) {
                            Err(e) => Err(e),
                            Ok((rowid, m)) => {
                                let start: usize = pos + n + m;
                                let (len, first_overflow_page) = read_payload(
                                    buf,
                                    start,
                                    page_type,
                                    payload_size,
                                    usable_size,
                                );
                                let payload = copy_range(buf, start, start + len);
                                Ok(
                                    BTreeCell::TableLeaf {
                                        rowid: as_signed(rowid),
                                        payload,
                                        payload_size,
                                        first_overflow_page,
                                    },
                                )
                            },
                        }
                    },
                }
            },
        }
    }

    /// Reads the rowid of cell `idx` of an interior table page.
    pub fn cell_table_interior_read_rowid(&self, idx: usize) -> (r: Result<i64, LimboError>)
        requires
            self.has_cell_pointer(idx as int),
            self.kind() == Some(PageType::TableInterior),
            self.cell_start(idx as int) + 4 <= self@.data().len(),
        ensures
            match varint_at(self@.data(), self.cell_start(idx as int) + 4) {
                Some((v, _)) => r matches Ok(x) && x == signed(v),
                None => r == Err::<i64, LimboError>(LimboError::Corrupt(Corruption::InvalidVarint)),
            },
            forall|usable: int|
                match #[trigger] cell_at(
                    self@.data(),
                    self.cell_start(idx as int),
                    PageType::TableInterior,
                    usable,
                ) {
                    Some(cell) => r matches Ok(x) && cell.rowid == Some(x as int),
                    None => r is Err,
                },
    {
        let cell_pointer: usize = self.cell_get_raw_start_offset(idx);
        match read_varint(self.as_slice(), cell_pointer + LEFT_CHILD_PAGE_SIZE_BYTES) {
            Ok((rowid, _)) => Ok(as_signed(rowid)),
            Err(e) => Err(e),
        }
    }

    /// Reads the left child of cell `idx` of an interior page.
    pub fn cell_interior_read_left_child_page(&self, idx: usize) -> (r: Result<u32, LimboError>)
        requires
            self.has_cell_pointer(idx as int),
            self.kind() == Some(PageType::TableInterior) || self.kind() == Some(
                PageType::IndexInterior,
            ),
        ensures
            if self.cell_start(idx as int) + 4 > self@.data().len() {
                r == Err::<u32, LimboError>(
                    LimboError::Corrupt(
                        Corruption::CellPointerOutOfBounds {
                            cell_pointer: self.cell_start(idx as int) as usize,
                            page_size: self@.data().len() as usize,
                        },
                    ),
                )
            } else {
                r matches Ok(p) && p == be32(self@.data(), self.cell_start(idx as int))
            },
            forall|usable: int|
                match #[trigger] cell_at(
                    self@.data(),
                    self.cell_start(idx as int),
                    self.kind()->0,
                    usable,
                ) {
                    Some(cell) => r matches Ok(p) ==> cell.left_child_page == Some(p as int),
                    None => true,
                },
    {
        let buf = self.as_slice();
        let cell_pointer: usize = self.cell_get_raw_start_offset(idx);
        if cell_pointer + 4 > buf.len() {
            return Err(
                LimboError::Corrupt(
                    Corruption::CellPointerOutOfBounds { cell_pointer, page_size: buf.len() },
                ),
            );
        }
        Ok(read_be32(buf, cell_pointer))
    }

    /// Reads the rowid of cell `idx` of a table leaf.
    pub fn cell_table_leaf_read_rowid(&self, idx: usize) -> (r: Result<i64, LimboError>)
        requires
            self.has_cell_pointer(idx as int),
            self.kind() == Some(PageType::TableLeaf),
            self.cell_start(idx as int) <= self@.data().len(),
        ensures
            match varint_at(self@.data(), self.cell_start(idx as int)) {
                None => r == Err::<i64, LimboError>(LimboError::Corrupt(Corruption::InvalidVarint)),
                Some((_, n)) => match varint_at(self@.data(), self.cell_start(idx as int) + n) {
                    Some((v, _)) => r matches Ok(x) && x == signed(v),
                    None => r == Err::<i64, LimboError>(
                        LimboError::Corrupt(Corruption::InvalidVarint),
                    ),
                },
            },
            forall|usable: int|
                match #[trigger] cell_at(
                    self@.data(),
                    self.cell_start(idx as int),
                    PageType::TableLeaf,
                    usable,
                ) {
                    Some(cell) => r matches Ok(x) && cell.rowid == Some(x as int),
                    None => r is Err,
                },
    {
        let buf = self.as_slice();
        let _len: usize = buf.len();
        let pos: usize = self.cell_get_raw_start_offset(idx);
        proof {
            lemma_varint_at(buf@, pos as int);
        }
        match read_varint(buf, pos) {
            Err(e) => Err(e),
            Ok((_, nr)) => match read_varint(buf, pos + nr) {
                Ok((rowid, _)) => Ok(as_signed(rowid)),
                Err(e) => Err(e),
            },
        }
    }

    /// Where in an index cell at `pos` the varint with its payload size is.
    pub open spec fn index_size_pos(&self, pos: int) -> int {
        if self.kind() == Some(PageType::IndexInterior) {
            pos + 4
        } else {
            pos
        }
    }

    /// Reads the payload of index cell `idx` as far as it is on the page, its
    /// whole size and its first overflow page.
    pub fn cell_index_read_payload_ptr(
        &self,
        idx: usize,
        usable_size: usize,
    ) -> (r: Result<(&[u8], u64, Option<u32>), LimboError>)
        requires
            self.has_cell_pointer(idx as int),
            480 <= usable_size <= 65536,
            self.kind() matches Some(t) ==> {
                &&& is_index_type(t)
                &&& payload_inside(
                    self@.data(),
                    self.index_size_pos(self.cell_start(idx as int)),
                    0,
                    t,
                    usable_size as int,
                )
            },
        ensures
            match self.kind() {
                None => r == self.bad_type::<(&[u8], u64, Option<u32>)>(),
                Some(t) => {
                    let pos = self.index_size_pos(self.cell_start(idx as int));
                    match varint_at(self@.data(), pos) {
                        None => r == Err::<(&[u8], u64, Option<u32>), LimboError>(
                            LimboError::Corrupt(Corruption::InvalidVarint),
                        ),
                        Some((size, n)) => r matches Ok((s, x, o)) && x == size && (
                            s@,
                            optional_int(o),
                        ) == local_payload(self@.data(), pos + n, t, size, usable_size as int),
                    }
                },
            },
            self.kind() matches Some(t) ==> match cell_at(
                self@.data(),
                self.cell_start(idx as int),
                t,
                usable_size as int,
            ) {
                Some(cell) => r matches Ok((s, x, o)) && cell.payload == Some(
                    (s@, x as int, optional_int(o)),
                ),
                None => r is Err,
            },
    {
        let buf = self.as_slice();
        let _len: usize = buf.len();
        let cell_offset: usize = self.cell_get_raw_start_offset(idx);
        let page_type = match self.page_type() {
            Ok(t) => t,
            Err(e) => {
                return Err(e);
            },
        };
        let header_skip: usize = match page_type {
            PageType::IndexInterior => 4,
            _ => 0,
        };
        let pos: usize = cell_offset + header_skip;
        proof {
            lemma_varint_at(buf@, pos as int);
        }
        match read_varint(buf, pos) {
            Err(e) => Err(e),
            Ok((payload_size, varint_len)) => {
                let payload_start: usize = pos + varint_len;
                let (len, first_overflow) = read_payload(
                    buf,
                    payload_start,
                    page_type,
                    payload_size,
                    usable_size,
                );
                Ok(
                    (
                        slice_subrange(buf, payload_start, payload_start + len),
                        payload_size,
                        first_overflow,
                    ),
                )
            },
        }
    }

    /// Where cell `idx` starts and how many bytes it takes.
    pub fn cell_get_raw_region(&self, idx: usize, usable_size: usize) -> (r: Result<
        (usize, usize),
        LimboError,
    >)
        requires
            self.has_cell_pointer(idx as int),
            idx < be16(self@.data(), self@.start() + 3),
            480 <= usable_size <= 65536,
            self.kind() matches Some(t) ==> cell_len_readable(
                self@.data(),
                self.cell_start(idx as int),
                t,
            ),
        ensures
            match self.kind() {
                None => r == self.bad_type::<(usize, usize)>(),
                Some(t) => r matches Ok((start, len)) && start == self.cell_start(idx as int) && len
                    == cell_len(
                    self@.data(),
                    start as int,
                    t,
                    max_local(t, usable_size as int),
                    min_local(usable_size as int),
                    usable_size as int,
                ),
            },
    {
        let page_type = match self.page_type() {
            Ok(t) => t,
            Err(e) => {
                return Err(e);
            },
        };
        let max_local: usize = payload_overflow_threshold_max(page_type, usable_size);
        let min_local: usize = payload_overflow_threshold_min(page_type, usable_size);
        let cell_count: usize = self.cell_count();
        Ok(
            self._cell_get_raw_region_faster(
                idx,
                usable_size,
                cell_count,
                max_local,
                min_local,
                page_type,
            ),
        )
    }

    /// Where cell `idx` starts and how many bytes it takes, for a caller that
    /// has the page's type, cell count and thresholds at hand.
    pub fn _cell_get_raw_region_faster(
        &self,
        idx: usize,
        usable_size: usize,
        cell_count: usize,
        max_local: usize,
        min_local: usize,
        page_type: PageType,
    ) -> (r: (usize, usize))
        requires
            self.has_cell_pointer(idx as int),
            idx < cell_count,
            480 <= usable_size <= 65536,
            min_local <= max_local <= usable_size,
            cell_len_readable(self@.data(), self.cell_start(idx as int), page_type),
        ensures
            r.0 == self.cell_start(idx as int),
            r.1 == cell_len(
                self@.data(),
                r.0 as int,
                page_type,
                max_local as int,
                min_local as int,
                usable_size as int,
            ),
    {
        let buf = self.as_slice();
        let _len: usize = buf.len();
        let start: usize = self.cell_get_raw_start_offset(idx);
        proof {
            lemma_varint_at(buf@, start as int);
            lemma_varint_at(buf@, start + 4);
        }
        let len: usize = match page_type {
            PageType::IndexInterior => {
                let (len_payload, n_payload) = read_varint(buf, start + 4).unwrap();
                let (overflows, to_read) = payload_overflows(
                    len_payload,
                    max_local,
                    min_local,
                    usable_size,
                );
                if overflows {
                    4 + to_read + n_payload
                } else {
                    4 + len_payload as usize + n_payload
                }
            },
            PageType::TableInterior => {
                let (_, n_rowid) = read_varint(buf, start + 4).unwrap();
                4 + n_rowid
            },
            PageType::IndexLeaf => {
                let (len_payload, n_payload) = read_varint(buf, start).unwrap();
                let (overflows, to_read) = payload_overflows(
                    len_payload,
                    max_local,
                    min_local,
                    usable_size,
                );
                if overflows {
                    to_read + n_payload
                } else {
                    let mut size: usize = len_payload as usize + n_payload;
                    if size < MINIMUM_CELL_SIZE {
                        size = MINIMUM_CELL_SIZE;
                    }
                    size
                }
            },
            PageType::TableLeaf => {
                let (len_payload, n_payload) = read_varint(buf, start).unwrap();
                proof {
                    lemma_varint_at(buf@, start + n_payload);
                }
                let (_, n_rowid) = read_varint(buf, start + n_payload).unwrap();
                let (overflows, to_read) = payload_overflows(
                    len_payload,
                    max_local,
                    min_local,
                    usable_size,
                );
                if overflows {
                    to_read + n_payload + n_rowid
                } else {
                    let mut size: usize = len_payload as usize + n_payload + n_rowid;
                    if size < MINIMUM_CELL_SIZE {
                        size = MINIMUM_CELL_SIZE;
                    }
                    size
                }
            },
        };
        (start, len)
    }
}

} // verus!
