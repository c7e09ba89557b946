//! What the numbers on disk mean.

use vstd::prelude::*;
use vstd::arithmetic::div_mod::{lemma_fundamental_div_mod, lemma_mod_bound};
use crate::bytes::{be16, be16_bytes, be32, be32_bytes, le32, splice};
use crate::frame_index::first_occurrences;
use crate::ondisk::{is_page_size, PageSize};
use crate::pager::Pager;
use crate::wal_format::{checksum_all, checksum_of, law_checksum_chains};

verus! {

/// Numbers of two and of four bytes have their most significant byte first, and are written as they
/// are read.
pub proof fn law_numbers_are_big_endian(s: Seq<u8>, pos: int, v: u16, w: u32)
    requires
        0 <= pos,
        pos + 4 <= s.len(),
    ensures
        be16(s, pos) == 256 * s[pos] + s[pos + 1],
        be32(s, pos) == 65536 * be16(s, pos) + be16(s, pos + 2),
        le32(s, pos) == s[pos] + 256 * (s[pos + 1] + 256 * (s[pos + 2] + 256 * s[pos + 3])),
        be16(be16_bytes(v), 0) == v,
        be32(be32_bytes(w), 0) == w,
        be16_bytes(v).len() == 2,
        be32_bytes(w).len() == 4,
{
    crate::bytes::lemma_be16_of_bytes(v);
    crate::bytes::lemma_be32_of_bytes(w);
}

/// Writing bytes into others puts them at their place and leaves the rest as it is.
pub proof fn law_splice_writes_in_place(s: Seq<u8>, pos: int, d: Seq<u8>)
    requires
        0 <= pos,
        pos + d.len() <= s.len(),
    ensures
        splice(s, pos, d).len() == s.len(),
        splice(s, pos, d).subrange(pos, pos + d.len()) == d,
        splice(s, pos, d).subrange(0, pos) == s.subrange(0, pos),
        splice(s, pos, d).subrange(pos + d.len(), s.len() as int) == s.subrange(
            pos + d.len(),
            s.len() as int,
        ),
{
    let t = splice(s, pos, d);
    assert(t.subrange(pos, pos + d.len()) =~= d);
    assert(t.subrange(0, pos) =~= s.subrange(0, pos));
    assert(t.subrange(pos + d.len(), s.len() as int) =~= s.subrange(
        pos + d.len(),
        s.len() as int,
    ));
}

/// The checksum goes on over eight more bytes by two words: to the first sum are added the first
/// word and the second sum, and then to the second sum the second word and the new first sum,
/// around at 2^32. The words are read in the byte order that the log's magic number names.
pub proof fn law_checksum_goes_on(s: Seq<u8>, t: Seq<u8>, big_endian: bool, c: (int, int))
    requires
        s.len() % 8 == 0,
        t.len() == 8,
    ensures
        ({
            let (a, b) = checksum_all(s, big_endian, c);
            let (a2, b2) = checksum_all(s + t, big_endian, c);
            let x = if big_endian {
                256 * (256 * (256 * t[0] + t[1]) + t[2]) + t[3]
            } else {
                256 * (256 * (256 * t[3] + t[2]) + t[1]) + t[0]
            };
            let y = if big_endian {
                256 * (256 * (256 * t[4] + t[5]) + t[6]) + t[7]
            } else {
                256 * (256 * (256 * t[7] + t[6]) + t[5]) + t[4]
            };
            &&& a2 == (a + x + b) % 0x1_0000_0000
            &&& b2 == (b + y + a2) % 0x1_0000_0000
        }),
{
    law_checksum_chains(s, t, big_endian, c);
    reveal_with_fuel(checksum_of, 2);
    assert(t.len() / 8 == 1);
}

/// Nothing to sum leaves the checksum as it is.
pub proof fn law_checksum_of_nothing(big_endian: bool, c: (int, int))
    ensures
        checksum_all(Seq::empty(), big_endian, c) == c,
{
}

/// A page size is stored as it is, but for 65536, which is stored as 1.
pub proof fn law_page_size_is_stored(size: int)
    requires
        is_page_size(size),
    ensures
        PageSize::of(size).bytes() == size,
        PageSize::of(size).0 == (if size == 65536 {
            1
        } else {
            size
        }),
        PageSize::of(size).valid(),
        512 <= size <= 65536,
{
}

/// The page sizes are the powers of two from 512 to 65536.
pub proof fn law_page_sizes(size: int)
    ensures
        is_page_size(512),
        is_page_size(size) ==> 512 <= size <= 65536,
        is_page_size(size) && size < 65536 ==> is_page_size(2 * size),
        is_page_size(size) && size > 512 ==> size % 2 == 0 && is_page_size(size / 2),
{
}

/// The page that is never used is the one with the byte at 2^30 in it.
pub proof fn law_pending_page_has_pending_byte(page_size: u32)
    requires
        is_page_size(page_size as int),
    ensures
        Pager::pending_page(page_size) matches Some(p) && (p - 1) * page_size <= 0x4000_0000 < p
            * page_size,
{
    let d = page_size as int;
    lemma_fundamental_div_mod(0x4000_0000, d);
    lemma_mod_bound(0x4000_0000, d);
    let q = 0x4000_0000int / d;
    assert(0 <= q <= 0x4000_0000) by (nonlinear_arith)
        requires
            d * q <= 0x4000_0000,
            0x4000_0000 < d * q + d,
            512 <= d,
    ;
    assert((q + 1) * d == d * q + d) by (nonlinear_arith);
    assert(q * d == d * q) by (nonlinear_arith);
}

/// Each value that occurs is listed, once, and nothing else.
pub proof fn law_first_occurrences(s: Seq<u32>, x: u32)
    ensures
        first_occurrences(s).contains(x) == s.contains(x),
        first_occurrences(s).no_duplicates(),
    decreases s.len(),
{
    if s.len() > 0 {
        let rest = s.drop_last();
        let before = first_occurrences(rest);
        let after = first_occurrences(s);
        law_first_occurrences(rest, x);
        law_first_occurrences(rest, s.last());
        assert(s[s.len() - 1] == s.last());
        if s.contains(x) && x != s.last() {
            let i = choose|i: int| 0 <= i < s.len() && s[i] == x;
            assert(rest[i] == x);
        }
        if rest.contains(x) {
            let i = choose|i: int| 0 <= i < rest.len() && rest[i] == x;
            assert(s[i] == x);
        }
        if !rest.contains(s.last()) {
            assert(after[before.len() as int] == s.last());
            if before.contains(x) {
                let i = choose|i: int| 0 <= i < before.len() && before[i] == x;
                assert(after[i] == x);
            }
            if after.contains(x) && x != s.last() {
                let i = choose|i: int| 0 <= i < after.len() && after[i] == x;
                assert(before[i] == x);
            }
        }
    }
}

} // verus!
