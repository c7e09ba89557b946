//! Big-endian integers inside byte sequences.

use vstd::prelude::*;

verus! {

/// The unsigned 16-bit integer stored big-endian at `pos`.
pub open spec fn be16(s: Seq<u8>, pos: int) -> int {
    s[pos] * 0x100 + s[pos + 1]
}

/// The unsigned 32-bit integer stored big-endian at `pos`.
pub open spec fn be32(s: Seq<u8>, pos: int) -> int {
    s[pos] * 0x100_0000 + s[pos + 1] * 0x1_0000 + s[pos + 2] * 0x100 + s[pos + 3]
}

/// The unsigned 32-bit integer stored little-endian at `pos`.
pub open spec fn le32(s: Seq<u8>, pos: int) -> int {
    s[pos] + s[pos + 1] * 0x100 + s[pos + 2] * 0x1_0000 + s[pos + 3] * 0x100_0000
}

/// The two bytes of `v`, most significant first.
pub open spec fn be16_bytes(v: u16) -> Seq<u8> {
    seq![(v / 0x100) as u8, (v % 0x100) as u8]
}

/// The four bytes of `v`, most significant first.
pub open spec fn be32_bytes(v: u32) -> Seq<u8> {
    seq![
        (v / 0x100_0000) as u8,
        ((v / 0x1_0000) % 0x100) as u8,
        ((v / 0x100) % 0x100) as u8,
        (v % 0x100) as u8,
    ]
}

/// `s` with the bytes from `pos` on replaced by `d`.
pub open spec fn splice(s: Seq<u8>, pos: int, d: Seq<u8>) -> Seq<u8> {
    Seq::new(s.len(), |i: int| if pos <= i < pos + d.len() { d[i - pos] } else { s[i] })
}

/// A 16-bit integer read where its bytes were just written is that integer.
pub proof fn lemma_be16_of_bytes(v: u16)
    ensures
        be16_bytes(v).len() == 2,
        be16(be16_bytes(v), 0) == v,
{
}

/// A 32-bit integer read where its bytes were just written is that integer.
pub proof fn lemma_be32_of_bytes(v: u32)
    ensures
        be32_bytes(v).len() == 4,
        be32(be32_bytes(v), 0) == v,
{
}

/// A 32-bit integer read where its bytes are is that integer.
pub proof fn lemma_be32_at(s: Seq<u8>, pos: int, v: u32)
    requires
        0 <= pos,
        pos + 4 <= s.len(),
        s.subrange(pos, pos + 4) == be32_bytes(v),
    ensures
        be32(s, pos) == v,
{
    let d = s.subrange(pos, pos + 4);
    lemma_be32_of_bytes(v);
    assert(d[0] == s[pos] && d[1] == s[pos + 1] && d[2] == s[pos + 2] && d[3] == s[pos + 3]);
}

/// A number below 2^32 is determined by its four base-256 digits, and they by it.
proof fn lemma_be32_digits(a: int, b: int, c: int, d: int)
    requires
        0 <= a < 0x100,
        0 <= b < 0x100,
        0 <= c < 0x100,
        0 <= d < 0x100,
    ensures
        ({
            let v = a * 0x100_0000 + b * 0x1_0000 + c * 0x100 + d;
            &&& 0 <= v <= u32::MAX
            &&& v / 0x100_0000 == a
            &&& (v / 0x1_0000) % 0x100 == b
            &&& (v / 0x100) % 0x100 == c
            &&& v % 0x100 == d
        }),
{
    let v = a * 0x100_0000 + b * 0x1_0000 + c * 0x100 + d;
    assert(v / 0x100_0000 == a);
    assert(v / 0x1_0000 == a * 0x100 + b);
    assert((a * 0x100 + b) % 0x100 == b);
    assert(v / 0x100 == a * 0x1_0000 + b * 0x100 + c);
    assert((a * 0x1_0000 + b * 0x100 + c) % 0x100 == c);
    assert(v % 0x100 == d);
}

/// The bytes of the integer stored at `pos` are the bytes at `pos`.
pub proof fn lemma_be32_bytes_of(s: Seq<u8>, pos: int)
    requires
        0 <= pos,
        pos + 4 <= s.len(),
    ensures
        0 <= be32(s, pos) <= u32::MAX,
        be32_bytes(be32(s, pos) as u32) =~= s.subrange(pos, pos + 4),
{
    let a = s[pos] as int;
    let b = s[pos + 1] as int;
    let c = s[pos + 2] as int;
    let d = s[pos + 3] as int;
    let v = be32(s, pos);
    lemma_be32_digits(a, b, c, d);
    assert(v as u32 == v);
    assert(be32_bytes(v as u32) =~= seq![s[pos], s[pos + 1], s[pos + 2], s[pos + 3]]);
}

/// The bytes of the integer stored at `pos` are the bytes at `pos`.
pub proof fn lemma_be16_bytes_of(s: Seq<u8>, pos: int)
    requires
        0 <= pos,
        pos + 2 <= s.len(),
    ensures
        0 <= be16(s, pos) <= u16::MAX,
        be16_bytes(be16(s, pos) as u16) =~= s.subrange(pos, pos + 2),
{
    let v = be16(s, pos) as u16;
    let a = s[pos] as int;
    let b = s[pos + 1] as int;
    assert(v == a * 0x100 + b);
    assert(v / 0x100 == a);
    assert(v % 0x100 == b);
}

/// Reads a big-endian 16-bit integer.
pub fn read_be16(buf: &[u8], pos: usize) -> (v: u16)
    requires
        pos + 2 <= buf@.len(),
    ensures
        v == be16(buf@, pos as int),
{
    (buf[pos] as u16) * 0x100 + (buf[pos + 1] as u16)
}

/// Reads a big-endian 32-bit integer.
pub fn read_be32(buf: &[u8], pos: usize) -> (v: u32)
    requires
        pos + 4 <= buf@.len(),
    ensures
        v == be32(buf@, pos as int),
{
    (buf[pos] as u32) * 0x100_0000 + (buf[pos + 1] as u32) * 0x1_0000 + (buf[pos + 2] as u32)
        * 0x100 + (buf[pos + 3] as u32)
}

/// Reads a little-endian 32-bit integer.
pub fn read_le32(buf: &[u8], pos: usize) -> (v: u32)
    requires
        pos + 4 <= buf@.len(),
    ensures
        v == le32(buf@, pos as int),
{
    (buf[pos] as u32) + (buf[pos + 1] as u32) * 0x100 + (buf[pos + 2] as u32) * 0x1_0000 + (buf[pos
        + 3] as u32) * 0x100_0000
}

/// Writes a big-endian 16-bit integer and leaves every other byte alone.
pub fn write_be16(buf: &mut [u8], pos: usize, v: u16)
    requires
        pos + 2 <= old(buf)@.len(),
    ensures
        final(buf)@ == splice(old(buf)@, pos as int, be16_bytes(v)),
        be16(final(buf)@, pos as int) == v,
{
    buf[pos] = (v / 0x100) as u8;
    buf[pos + 1] = (v % 0x100) as u8;
    proof {
        lemma_be16_of_bytes(v);
    }
}

/// Writes a big-endian 32-bit integer and leaves every other byte alone.
pub fn write_be32(buf: &mut [u8], pos: usize, v: u32)
    requires
        pos + 4 <= old(buf)@.len(),
    ensures
        final(buf)@ == splice(old(buf)@, pos as int, be32_bytes(v)),
        be32(final(buf)@, pos as int) == v,
{
    buf[pos] = (v / 0x100_0000) as u8;
    buf[pos + 1] = ((v / 0x1_0000) % 0x100) as u8;
    buf[pos + 2] = ((v / 0x100) % 0x100) as u8;
    buf[pos + 3] = (v % 0x100) as u8;
    proof {
        lemma_be32_of_bytes(v);
    }
}

/// Copies all of `src` into `dst` at `pos` and leaves every other byte alone.
pub fn copy_bytes(dst: &mut [u8], pos: usize, src: &[u8])
    requires
        pos + src@.len() <= old(dst)@.len(),
    ensures
        final(dst)@ == splice(old(dst)@, pos as int, src@),
{
    let mut i: usize = 0;
    let n: usize = src.len();
    let room: usize = dst.len();
    while i < n
        invariant
            i <= n,
            n == src@.len(),
            pos + n <= room,
            room == dst@.len(),
            dst@.len() == old(dst)@.len(),
            dst@ =~= splice(old(dst)@, pos as int, src@.take(i as int)),
        decreases n - i,
    {
        dst[pos + i] = src[i];
        i = i + 1;
    }
    assert(src@.take(n as int) =~= src@);
}

/// Sets every byte to zero.
pub fn fill_zero(buf: &mut [u8])
    ensures
        final(buf)@ == Seq::new(old(buf)@.len(), |i: int| 0u8),
{
    let mut i: usize = 0;
    let n: usize = buf.len();
    while i < n
        invariant
            i <= n,
            n == buf@.len(),
            buf@.len() == old(buf)@.len(),
            forall|j: int| 0 <= j < i ==> buf@[j] == 0u8,
        decreases n - i,
    {
        buf[i] = 0;
        i = i + 1;
    }
    assert(buf@ =~= Seq::new(old(buf)@.len(), |i: int| 0u8));
}

/// A copy of the bytes `start..end`.
pub fn copy_range(buf: &[u8], start: usize, end: usize) -> (v: Vec<u8>)
    requires
        start <= end <= buf@.len(),
    ensures
        v@ == buf@.subrange(start as int, end as int),
{
    let mut v: Vec<u8> = Vec::new();
    let mut i: usize = start;
    while i < end
        invariant
            start <= i <= end <= buf@.len(),
            v@ =~= buf@.subrange(start as int, i as int),
        decreases end - i,
    {
        v.push(buf[i]);
        i = i + 1;
    }
    v
}

/// A vector of `n` zero bytes.
pub fn zeroed(n: usize) -> (v: Vec<u8>)
    ensures
        v@ == Seq::new(n as nat, |i: int| 0u8),
{
    let v = vec![0u8; n];
    assert(v@ =~= Seq::new(n as nat, |i: int| 0u8));
    v
}

/// Whether two byte strings are the same.
pub fn bytes_equal(a: &[u8], b: &[u8]) -> (r: bool)
    ensures
        r == (a@ == b@),
{
    if a.len() != b.len() {
        return false;
    }
    let mut i: usize = 0;
    while i < a.len()
        invariant
            i <= a@.len(),
            a@.len() == b@.len(),
            forall|j: int| 0 <= j < i ==> a@[j] == b@[j],
        decreases a@.len() - i,
    {
        if a[i] != b[i] {
            return false;
        }
        i = i + 1;
    }
    assert(a@ =~= b@);
    true
}

} // verus!
