//! What a cell that was laid out on a page is read back as.

use vstd::prelude::*;
use vstd::arithmetic::div_mod::{lemma_fundamental_div_mod, lemma_fundamental_div_mod_converse,
    lemma_mod_multiples_basic};
use crate::bytes::{be32_bytes, lemma_be32_at};
use crate::cell::{bytes_on_page, cell_at, cell_inside, cell_len, cell_len_readable, local_payload,
    payload_inside, split_of, CellView};
use crate::ondisk::{max_local, min_local, varint_at, varint_prefix, varint_stop, PageType};
use crate::page::PageInner;

verus! {

/// 128 to the `n`.
pub open spec fn sevens(n: nat) -> int
    decreases n,
{
    if n == 0 {
        1
    } else {
        128 * sevens((n - 1) as nat)
    }
}

/// `n` bytes that hold the last `n` groups of seven bits of `h`, most significant group first, each
/// with its high bit set.
pub open spec fn groups(h: int, n: nat) -> Seq<u8>
    decreases n,
{
    if n == 0 {
        Seq::empty()
    } else {
        groups(h / 128, (n - 1) as nat).push((128 + h % 128) as u8)
    }
}

/// The varint of `n` bytes that stands for `v`: each byte but the last has its high bit set and
/// holds seven bits; the last one holds seven bits, or eight if it is the ninth.
pub open spec fn varint_bytes(v: int, n: nat) -> Seq<u8> {
    if n == 9 {
        groups(v / 256, 8).push((v % 256) as u8)
    } else {
        groups(v / 128, (n - 1) as nat).push((v % 128) as u8)
    }
}

/// Whether a varint of `n` bytes can stand for `v`.
pub open spec fn varint_can_hold(v: int, n: nat) -> bool {
    &&& 1 <= n <= 9
    &&& 0 <= v
    &&& if n == 9 {
        v <= u64::MAX
    } else {
        v < sevens(n)
    }
}

proof fn lemma_groups(h: int, n: nat, s: Seq<u8>, pos: int)
    requires
        0 <= h < sevens(n),
        forall|i: int| 0 <= i < n ==> s[pos + i] == #[trigger] groups(h, n)[i],
    ensures
        groups(h, n).len() == n,
        forall|i: int| 0 <= i < n ==> #[trigger] groups(h, n)[i] >= 128,
        varint_prefix(s, pos, n) == h,
    decreases n,
{
    if n > 0 {
        let m = (n - 1) as nat;
        let rest = groups(h / 128, m);
        lemma_groups_len(h / 128, m);
        assert forall|i: int| 0 <= i < m implies s[pos + i] == #[trigger] rest[i] by {
            assert(groups(h, n)[i] == rest[i]);
        }
        lemma_groups(h / 128, m, s, pos);
        assert(groups(h, n)[n - 1] == (128 + h % 128) as u8);
        assert forall|i: int| 0 <= i < n implies #[trigger] groups(h, n)[i] >= 128 by {
            if i < n - 1 {
                assert(groups(h, n)[i] == rest[i]);
            }
        }
        assert(s[pos + (n - 1)] == groups(h, n)[n - 1]);
        assert((s[pos + n - 1] % 128) as int == h % 128);
    }
}

proof fn lemma_groups_len(h: int, n: nat)
    ensures
        groups(h, n).len() == n,
    decreases n,
{
    if n > 0 {
        lemma_groups_len(h / 128, (n - 1) as nat);
    }
}

proof fn lemma_stop(s: Seq<u8>, pos: int, k: nat, n: nat)
    requires
        k <= n <= 8,
        0 <= pos,
        pos + n < s.len(),
        forall|i: int| k <= i < n ==> #[trigger] s[pos + i] >= 128,
        n == 8 || s[pos + n] < 128,
    ensures
        varint_stop(s, pos, k) == n,
    decreases n - k,
{
    if k < n {
        assert(s[pos + k as int] >= 128);
        lemma_stop(s, pos, k + 1, n);
    }
}

/// Reading a varint gives back the number that was written, and how many bytes that took, however
/// many bytes it was written with.
pub proof fn law_varint_is_read_back(s: Seq<u8>, pos: int, v: int, n: nat)
    requires
        0 <= pos,
        pos + n <= s.len(),
        varint_can_hold(v, n),
        s.subrange(pos, pos + n) == varint_bytes(v, n),
    ensures
        varint_at(s, pos) == Some((v, n as int)),
{
    let w = varint_bytes(v, n);
    let part = s.subrange(pos, pos + n);
    let m = (n - 1) as nat;
    let h = if n == 9 {
        v / 256
    } else {
        v / 128
    };
    assert(sevens(8) == 0x100_0000_0000_0000) by {
        reveal_with_fuel(sevens, 9);
    }
    lemma_groups_len(h, m);
    assert forall|i: int| 0 <= i < m implies s[pos + i] == #[trigger] groups(h, m)[i] by {
        assert(w[i] == groups(h, m)[i]);
        assert(part[i] == s[pos + i]);
    }
    lemma_groups(h, m, s, pos);
    assert forall|i: int| 0 <= i < m implies #[trigger] s[pos + i] >= 128 by {
        assert(groups(h, m)[i] >= 128);
    }
    assert(part[n - 1] == s[pos + n - 1]);
    assert(w[n - 1] == w.last());
    lemma_stop(s, pos, 0, m);
    if n == 9 {
        assert(s[pos + 8] == (v % 256) as u8);
    } else {
        assert(s[pos + n - 1] == (v % 128) as u8);
        assert(varint_prefix(s, pos, n) == varint_prefix(s, pos, m) * 128 + v % 128);
    }
}

/// The most of a payload that a page of this kind takes: on index pages so much that four cells
/// always fit, on table pages the whole page but for 35 bytes.
pub open spec fn most_on_page(t: PageType, usable: int) -> int {
    match t {
        PageType::IndexInterior | PageType::IndexLeaf => (usable - 12) * 64 / 255 - 23,
        PageType::TableInterior | PageType::TableLeaf => usable - 35,
    }
}

/// The least of a payload that a page keeps.
pub open spec fn least_on_page(usable: int) -> int {
    (usable - 12) * 32 / 255 - 23
}

/// `kept` bytes of a payload of `size` bytes are on its page: all of it if that is not too much,
/// otherwise so many that the rest fills its overflow pages to the last byte, if that can be
/// had, and else as few as possible.
pub open spec fn keeps(t: PageType, size: int, usable: int, kept: int) -> bool {
    if size <= most_on_page(t, usable) {
        kept == size
    } else {
        &&& least_on_page(usable) <= kept <= most_on_page(t, usable)
        &&& (size - kept) % (usable - 4) == 0 || {
            &&& kept == least_on_page(usable)
            &&& forall|m: int|
                least_on_page(usable) <= m <= most_on_page(t, usable) ==> #[trigger] ((size - m) % (
                usable - 4)) != 0
        }
    }
}

/// A number that leaves a multiple of `d` behind `size` is the remainder above `min`.
proof fn lemma_remainder(size: int, min: int, kept: int, d: int)
    requires
        0 < d,
        min <= kept < min + d,
        (size - kept) % d == 0,
    ensures
        (size - min) % d == kept - min,
{
    lemma_fundamental_div_mod(size - kept, d);
    let q = (size - kept) / d;
    assert(size - min == q * d + (kept - min)) by {
        assert(d * q == q * d) by (nonlinear_arith);
    }
    lemma_fundamental_div_mod_converse(size - min, d, q, kept - min);
}

proof fn lemma_rest_is_whole(size: int, min: int, d: int)
    requires
        0 < d,
    ensures
        (size - (min + (size - min) % d)) % d == 0,
{
    lemma_fundamental_div_mod(size - min, d);
    let q = (size - min) / d;
    assert(size - (min + (size - min) % d) == q * d) by {
        assert(d * q == q * d) by (nonlinear_arith);
    }
    lemma_mod_multiples_basic(q, d);
}

/// A payload overflows exactly if it is larger than the page may take, and what then stays on the
/// page leaves whole overflow pages, if that can be had.
pub proof fn law_overflow_fills_whole_pages(t: PageType, size: int, usable: int)
    requires
        480 <= usable <= 65536,
        0 <= size,
    ensures
        ({
            let (overflows, n) = split_of(t, size, usable);
            &&& overflows == (size > most_on_page(t, usable))
            &&& overflows ==> keeps(t, size, usable, n - 4) && bytes_on_page(t, size, usable) == n
            &&& !overflows ==> keeps(t, size, usable, size) && bytes_on_page(t, size, usable)
                == size
        }),
{
    let min = least_on_page(usable);
    let max = most_on_page(t, usable);
    let d = usable - 4;
    assert(min == min_local(usable) && max == max_local(t, usable));
    if size > max {
        let k = min + (size - min) % d;
        lemma_rest_is_whole(size, min, d);
        if k > max {
            assert forall|m: int| min <= m <= max implies #[trigger] ((size - m) % d) != 0 by {
                if (size - m) % d == 0 {
                    lemma_remainder(size, min, m, d);
                }
            }
        }
    }
}

/// There is only one way to divide a payload.
pub proof fn law_kept_part_is_unique(t: PageType, size: int, usable: int, a: int, b: int)
    requires
        480 <= usable <= 65536,
        0 <= size,
        keeps(t, size, usable, a),
        keeps(t, size, usable, b),
    ensures
        a == b,
{
    let min = least_on_page(usable);
    let d = usable - 4;
    if size > most_on_page(t, usable) {
        if (size - a) % d == 0 {
            lemma_remainder(size, min, a, d);
        }
        if (size - b) % d == 0 {
            lemma_remainder(size, min, b, d);
        }
    }
}

/// A cell, as it is to be written: the child to its left on interior pages, the rowid on table
/// pages, and the payload's size and the part of it that stays on the page, with the first overflow
/// page if there is one.
pub struct CellParts {
    pub left_child: u32,
    pub rowid: i64,
    pub size: u64,
    pub kept: Seq<u8>,
    pub overflow: Option<u32>,
    /// Bytes that the size is written with.
    pub size_len: nat,
    /// Bytes that the rowid is written with.
    pub rowid_len: nat,
}

impl CellParts {
    /// The rowid as an unsigned number: a negative one counts down from 2^64.
    pub open spec fn rowid_word(self) -> int {
        if self.rowid < 0 {
            self.rowid + 0x1_0000_0000_0000_0000
        } else {
            self.rowid as int
        }
    }

    /// The parts fit together: the numbers fit their varints, and the payload is divided as it has
    /// to be.
    pub open spec fn valid(self, t: PageType, usable: int) -> bool {
        &&& varint_can_hold(self.size as int, self.size_len)
        &&& varint_can_hold(self.rowid_word(), self.rowid_len)
        &&& keeps(t, self.size as int, usable, self.kept.len() as int)
        &&& (self.overflow is Some) == (self.size > most_on_page(t, usable))
    }

    /// The payload's bytes on the page, with the number of the first overflow page behind them if
    /// there is one.
    pub open spec fn body(self) -> Seq<u8> {
        match self.overflow {
            Some(page) => self.kept + be32_bytes(page),
            None => self.kept,
        }
    }

    /// The cell's bytes.
    pub open spec fn bytes(self, t: PageType) -> Seq<u8> {
        let left = be32_bytes(self.left_child);
        let size = varint_bytes(self.size as int, self.size_len);
        let rowid = varint_bytes(self.rowid_word(), self.rowid_len);
        match t {
            PageType::TableInterior => left + rowid,
            PageType::IndexInterior => left + size + self.body(),
            PageType::IndexLeaf => size + self.body(),
            PageType::TableLeaf => size + rowid + self.body(),
        }
    }

    /// What a reader of the cell is to see.
    pub open spec fn shown(self, t: PageType) -> CellView {
        CellView {
            left_child_page: match t {
                PageType::TableInterior | PageType::IndexInterior => Some(self.left_child as int),
                _ => None,
            },
            rowid: match t {
                PageType::TableInterior | PageType::TableLeaf => Some(self.rowid as int),
                _ => None,
            },
            payload: match t {
                PageType::TableInterior => None,
                _ => Some(
                    (
                        self.kept,
                        self.size as int,
                        match self.overflow {
                            Some(page) => Some(page as int),
                            None => None,
                        },
                    ),
                ),
            },
        }
    }
}

proof fn lemma_varint_len(v: int, n: nat)
    requires
        1 <= n <= 9,
    ensures
        varint_bytes(v, n).len() == n,
{
    if n == 9 {
        lemma_groups_len(v / 256, 8);
    } else {
        lemma_groups_len(v / 128, (n - 1) as nat);
    }
}

/// A piece of what is at `pos` is where it starts in it.
proof fn lemma_piece(data: Seq<u8>, pos: int, whole: Seq<u8>, at: int, part: Seq<u8>)
    requires
        0 <= pos,
        pos + whole.len() <= data.len(),
        data.subrange(pos, pos + whole.len()) == whole,
        0 <= at,
        at + part.len() <= whole.len(),
        whole.subrange(at, at + part.len()) == part,
    ensures
        data.subrange(pos + at, pos + at + part.len()) == part,
{
    let here = data.subrange(pos, pos + whole.len());
    assert forall|i: int| 0 <= i < part.len() implies data[pos + at + i] == #[trigger] part[i] by {
        assert(whole.subrange(at, at + part.len())[i] == whole[at + i]);
        assert(here[at + i] == data[pos + at + i]);
    }
    assert(data.subrange(pos + at, pos + at + part.len()) =~= part);
}

/// The payload behind what comes before it in a cell.
proof fn lemma_body(
    data: Seq<u8>,
    start: int,
    t: PageType,
    usable: int,
    cell: CellParts,
)
    requires
        480 <= usable <= 65536,
        cell.valid(t, usable),
        0 <= start,
        start + cell.body().len() <= data.len(),
        data.subrange(start, start + cell.body().len()) == cell.body(),
    ensures
        local_payload(data, start, t, cell.size as int, usable) == (
            cell.kept,
            match cell.overflow {
                Some(page) => Some(page as int),
                None => None::<int>,
            },
        ),
        bytes_on_page(t, cell.size as int, usable) == cell.body().len(),
{
    let size = cell.size as int;
    let body = cell.body();
    law_overflow_fills_whole_pages(t, size, usable);
    let (overflows, n) = split_of(t, size, usable);
    if overflows {
        law_kept_part_is_unique(t, size, usable, n - 4, cell.kept.len() as int);
        let page = cell.overflow->0;
        assert(body.subrange(0, n - 4) =~= cell.kept);
        assert(body.subrange(n - 4, n) =~= be32_bytes(page));
        lemma_piece(data, start, body, 0, cell.kept);
        lemma_piece(data, start, body, n - 4, be32_bytes(page));
        lemma_be32_at(data, start + n - 4, page);
    } else {
        assert(data.subrange(start, start + size) =~= cell.kept);
    }
}

/// The cell at `pos` is read as it was written, and takes the bytes that were written, on leaves at
/// least four.
spec fn is_read_back(data: Seq<u8>, pos: int, t: PageType, usable: int, cell: CellParts) -> bool {
    &&& cell_inside(data, pos, t, usable)
    &&& cell_at(data, pos, t, usable) == Some(cell.shown(t))
    &&& cell_len_readable(data, pos, t)
    &&& ({
        let len = cell_len(data, pos, t, most_on_page(t, usable), least_on_page(usable), usable);
        let written = cell.bytes(t).len();
        match t {
            PageType::TableInterior | PageType::IndexInterior => len == written,
            _ => len == (if written < 4 {
                4
            } else {
                written as int
            }),
        }
    })
}

proof fn lemma_table_interior(
    data: Seq<u8>,
    pos: int,
    t: PageType,
    usable: int,
    cell: CellParts,
)
    requires
        480 <= usable <= 65536,
        cell.valid(t, usable),
        t == PageType::TableInterior,
        0 <= pos,
        pos + cell.bytes(t).len() <= data.len(),
        data.subrange(pos, pos + cell.bytes(t).len()) == cell.bytes(t),
    ensures
        is_read_back(data, pos, t, usable, cell),
{
    let left = be32_bytes(cell.left_child);
    let size = varint_bytes(cell.size as int, cell.size_len);
    let rowid = varint_bytes(cell.rowid_word(), cell.rowid_len);
    let body = cell.body();
    let all = cell.bytes(t);
    lemma_varint_len(cell.size as int, cell.size_len);
    lemma_varint_len(cell.rowid_word(), cell.rowid_len);
    assert(all.subrange(0, 4) =~= left);
    assert(all.subrange(4, all.len() as int) =~= rowid);
    lemma_piece(data, pos, all, 0, left);
    lemma_piece(data, pos, all, 4, rowid);
    lemma_be32_at(data, pos, cell.left_child);
    law_varint_is_read_back(data, pos + 4, cell.rowid_word(), cell.rowid_len);
}

proof fn lemma_index_interior(
    data: Seq<u8>,
    pos: int,
    t: PageType,
    usable: int,
    cell: CellParts,
)
    requires
        480 <= usable <= 65536,
        cell.valid(t, usable),
        t == PageType::IndexInterior,
        0 <= pos,
        pos + cell.bytes(t).len() <= data.len(),
        data.subrange(pos, pos + cell.bytes(t).len()) == cell.bytes(t),
    ensures
        is_read_back(data, pos, t, usable, cell),
{
    let left = be32_bytes(cell.left_child);
    let size = varint_bytes(cell.size as int, cell.size_len);
    let rowid = varint_bytes(cell.rowid_word(), cell.rowid_len);
    let body = cell.body();
    let all = cell.bytes(t);
    lemma_varint_len(cell.size as int, cell.size_len);
    lemma_varint_len(cell.rowid_word(), cell.rowid_len);
    let n = size.len() as int;
    assert(all.subrange(0, 4) =~= left);
    assert(all.subrange(4, 4 + n) =~= size);
    assert(all.subrange(4 + n, 4 + n + body.len()) =~= body);
    lemma_piece(data, pos, all, 0, left);
    lemma_piece(data, pos, all, 4, size);
    lemma_piece(data, pos, all, 4 + n, body);
    lemma_be32_at(data, pos, cell.left_child);
    law_varint_is_read_back(data, pos + 4, cell.size as int, cell.size_len);
    lemma_body(data, pos + 4 + n, t, usable, cell);
}

proof fn lemma_index_leaf(
    data: Seq<u8>,
    pos: int,
    t: PageType,
    usable: int,
    cell: CellParts,
)
    requires
        480 <= usable <= 65536,
        cell.valid(t, usable),
        t == PageType::IndexLeaf,
        0 <= pos,
        pos + cell.bytes(t).len() <= data.len(),
        data.subrange(pos, pos + cell.bytes(t).len()) == cell.bytes(t),
    ensures
        is_read_back(data, pos, t, usable, cell),
{
    let left = be32_bytes(cell.left_child);
    let size = varint_bytes(cell.size as int, cell.size_len);
    let rowid = varint_bytes(cell.rowid_word(), cell.rowid_len);
    let body = cell.body();
    let all = cell.bytes(t);
    lemma_varint_len(cell.size as int, cell.size_len);
    lemma_varint_len(cell.rowid_word(), cell.rowid_len);
    let n = size.len() as int;
    assert(all.subrange(0, n) =~= size);
    assert(all.subrange(n, n + body.len()) =~= body);
    lemma_piece(data, pos, all, 0, size);
    lemma_piece(data, pos, all, n, body);
    law_varint_is_read_back(data, pos, cell.size as int, cell.size_len);
    lemma_body(data, pos + n, t, usable, cell);
}

proof fn lemma_table_leaf(
    data: Seq<u8>,
    pos: int,
    t: PageType,
    usable: int,
    cell: CellParts,
)
    requires
        480 <= usable <= 65536,
        cell.valid(t, usable),
        t == PageType::TableLeaf,
        0 <= pos,
        pos + cell.bytes(t).len() <= data.len(),
        data.subrange(pos, pos + cell.bytes(t).len()) == cell.bytes(t),
    ensures
        is_read_back(data, pos, t, usable, cell),
{
    let left = be32_bytes(cell.left_child);
    let size = varint_bytes(cell.size as int, cell.size_len);
    let rowid = varint_bytes(cell.rowid_word(), cell.rowid_len);
    let body = cell.body();
    let all = cell.bytes(t);
    lemma_varint_len(cell.size as int, cell.size_len);
    lemma_varint_len(cell.rowid_word(), cell.rowid_len);
    let n = size.len() as int;
    let m = rowid.len() as int;
    assert(all.subrange(0, n) =~= size);
    assert(all.subrange(n, n + m) =~= rowid);
    assert(all.subrange(n + m, n + m + body.len()) =~= body);
    lemma_piece(data, pos, all, 0, size);
    lemma_piece(data, pos, all, n, rowid);
    lemma_piece(data, pos, all, n + m, body);
    law_varint_is_read_back(data, pos, cell.size as int, cell.size_len);
    law_varint_is_read_back(data, pos + n, cell.rowid_word(), cell.rowid_len);
    lemma_body(data, pos + n + m, t, usable, cell);
}

/// A cell that was written byte by byte is read back with the same left child, rowid and payload,
/// and takes the bytes that were written, on leaves at least four.
pub proof fn law_cell_is_read_back(
    data: Seq<u8>,
    pos: int,
    t: PageType,
    usable: int,
    cell: CellParts,
)
    requires
        480 <= usable <= 65536,
        cell.valid(t, usable),
        0 <= pos,
        pos + cell.bytes(t).len() <= data.len(),
        data.subrange(pos, pos + cell.bytes(t).len()) == cell.bytes(t),
    ensures
        cell_inside(data, pos, t, usable),
        cell_at(data, pos, t, usable) == Some(cell.shown(t)),
        cell_len_readable(data, pos, t),
        ({
            let len = cell_len(data, pos, t, most_on_page(t, usable), least_on_page(usable), usable);
            let written = cell.bytes(t).len();
            match t {
                PageType::TableInterior | PageType::IndexInterior => len == written,
                _ => len == (if written < 4 {
                    4
                } else {
                    written as int
                }),
            }
        }),
{
    match t {
        PageType::TableInterior => lemma_table_interior(data, pos, t, usable, cell),
        PageType::IndexInterior => lemma_index_interior(data, pos, t, usable, cell),
        PageType::IndexLeaf => lemma_index_leaf(data, pos, t, usable, cell),
        PageType::TableLeaf => lemma_table_leaf(data, pos, t, usable, cell),
    }
}

/// Cell `idx` of a page is where the page's pointer to it says: the pointers are two bytes each and
/// stand behind the page's own header, which takes twelve bytes on interior pages and eight on
/// leaves, and on page 1 comes behind the hundred bytes of the database's header.
pub proof fn law_cell_pointers_are_in_place(page: &PageInner, t: PageType, idx: int)
    requires
        page@.buffer is Some,
        page.kind() == Some(t),
    ensures
        ({
            let content = if page@.id == 1 {
                100
            } else {
                0int
            };
            let header = match t {
                PageType::TableInterior | PageType::IndexInterior => 12int,
                PageType::TableLeaf | PageType::IndexLeaf => 8int,
            };
            let at = content + header + 2 * idx;
            &&& page.cell_start(idx) == page@.data()[at] * 256 + page@.data()[at + 1]
            &&& page@.data()[content] == (match t {
                PageType::IndexInterior => 2u8,
                PageType::TableInterior => 5u8,
                PageType::IndexLeaf => 10u8,
                PageType::TableLeaf => 13u8,
            })
        }),
{
}

/// A cell that was written anywhere on a page, with a pointer to it as the page's pointer `idx`, is
/// what the page gives as cell `idx`. On index pages its payload starts behind the varint with its
/// size, which on interior pages comes behind the left child.
pub proof fn law_page_gives_the_cells_put_on_it(
    page: &PageInner,
    t: PageType,
    idx: int,
    at: int,
    usable: int,
    cell: CellParts,
)
    requires
        page@.buffer is Some,
        page.kind() == Some(t),
        480 <= usable <= 65536,
        cell.valid(t, usable),
        0 <= at,
        at + cell.bytes(t).len() <= page@.data().len(),
        page@.data().subrange(at, at + cell.bytes(t).len()) == cell.bytes(t),
        ({
            let pointer = (if page@.id == 1 {
                100
            } else {
                0int
            }) + (if t is TableInterior || t is IndexInterior {
                12
            } else {
                8int
            }) + 2 * idx;
            page@.data()[pointer] * 256 + page@.data()[pointer + 1] == at
        }),
    ensures
        cell_inside(page@.data(), page.cell_start(idx), t, usable),
        cell_at(page@.data(), page.cell_start(idx), t, usable) == Some(cell.shown(t)),
        t is IndexInterior || t is IndexLeaf ==> {
            let pos = page.index_size_pos(page.cell_start(idx));
            &&& payload_inside(page@.data(), pos, 0, t, usable)
            &&& varint_at(page@.data(), pos) == Some((cell.size as int, cell.size_len as int))
            &&& local_payload(page@.data(), pos + cell.size_len, t, cell.size as int, usable) == (
                cell.kept,
                match cell.overflow {
                    Some(p) => Some(p as int),
                    None => None::<int>,
                },
            )
        },
{
    law_cell_is_read_back(page@.data(), at, t, usable, cell);
    law_cell_pointers_are_in_place(page, t, idx);
    let data = page@.data();
    let size = varint_bytes(cell.size as int, cell.size_len);
    let all = cell.bytes(t);
    lemma_varint_len(cell.size as int, cell.size_len);
    if t is IndexInterior {
        assert(all.subrange(4, 4 + size.len() as int) =~= size);
        lemma_piece(data, at, all, 4, size);
        law_varint_is_read_back(data, at + 4, cell.size as int, cell.size_len);
    } else if t is IndexLeaf {
        assert(all.subrange(0, size.len() as int) =~= size);
        lemma_piece(data, at, all, 0, size);
        law_varint_is_read_back(data, at, cell.size as int, cell.size_len);
    }
}

} // verus!
