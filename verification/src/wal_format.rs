//! The log's format on disk: its header, its frames and their checksums.

use vstd::prelude::*;
use crate::bytes::{be32, be32_bytes, le32, lemma_be32_bytes_of, lemma_be32_at, read_be32,
    read_le32};

verus! {

/// The magic number of a log whose checksums read words as little-endian.
pub const WAL_MAGIC_LE: u32 = 0x377f_0682;
/// The magic number of a log whose checksums read words as big-endian.
pub const WAL_MAGIC_BE: u32 = 0x377f_0683;
/// The version of the format.
pub const WAL_FILE_FORMAT: u32 = 3007000;
/// Bytes of the log's header.
pub const WAL_HEADER_SIZE: usize = 32;
/// Bytes of a frame's header.
pub const WAL_FRAME_HEADER_SIZE: usize = 24;

/// The word at `pos`, in the byte order that the checksums use.
pub open spec fn word_at(s: Seq<u8>, pos: int, big_endian: bool) -> int {
    if big_endian {
        be32(s, pos)
    } else {
        le32(s, pos)
    }
}

/// The sum of three 32-bit words, modulo 2^32.
pub open spec fn sum3(a: int, b: int, c: int) -> int {
    (a + b + c) % 0x1_0000_0000
}

/// The checksum `c` carried on over the first `pairs` pairs of words of `s`.
pub open spec fn checksum_of(s: Seq<u8>, pairs: nat, big_endian: bool, c: (int, int)) -> (int, int)
    decreases pairs,
{
    if pairs == 0 {
        c
    } else {
        let (a, b) = checksum_of(s, (pairs - 1) as nat, big_endian, c);
        let x = word_at(s, 8 * (pairs - 1), big_endian);
        let y = word_at(s, 8 * (pairs - 1) + 4, big_endian);
        let a2 = sum3(a, x, b);
        (a2, sum3(b, y, a2))
    }
}

/// A pair of words as mathematical integers.
pub open spec fn ints(c: (u32, u32)) -> (int, int) {
    (c.0 as int, c.1 as int)
}

/// The checksum `c` carried on over the whole of `s`.
pub open spec fn checksum_all(s: Seq<u8>, big_endian: bool, c: (int, int)) -> (int, int) {
    checksum_of(s, s.len() / 8, big_endian, c)
}

fn read_word(buf: &[u8], pos: usize, big_endian: bool) -> (r: u32)
    requires
        pos + 4 <= buf@.len(),
    ensures
        r == word_at(buf@, pos as int, big_endian),
{
    if big_endian {
        read_be32(buf, pos)
    } else {
        read_le32(buf, pos)
    }
}

/// Adds three words, modulo 2^32.
fn add3(a: u32, b: u32, c: u32) -> (r: u32)
    ensures
        r == sum3(a as int, b as int, c as int),
{
    ((a as u64 + b as u64 + c as u64) % 0x1_0000_0000) as u32
}

/// Carries the checksum `input` on over `buf`, whose length is a multiple of eight.
pub fn checksum_wal(buf: &[u8], big_endian: bool, input: (u32, u32)) -> (r: (u32, u32))
    requires
        buf@.len() % 8 == 0,
    ensures
        ints(r) == checksum_all(buf@, big_endian, ints(input)),
{
    let n: usize = buf.len();
    let pairs: usize = n / 8;
    let mut s0: u32 = input.0;
    let mut s1: u32 = input.1;
    let mut i: usize = 0;
    while i < pairs
        invariant
            i <= pairs,
            8 * pairs == n,
            n == buf@.len(),
            (s0 as int, s1 as int) == checksum_of(buf@, i as nat, big_endian, ints(input)),
        decreases pairs - i,
    {
        let x: u32 = read_word(buf, 8 * i, big_endian);
        let y: u32 = read_word(buf, 8 * i + 4, big_endian);
        s0 = add3(s0, x, s1);
        s1 = add3(s1, y, s0);
        i = i + 1;
    }
    (s0, s1)
}

/// Checksums chain: carrying one on over two pieces in turn is carrying it on
/// over their concatenation.
pub proof fn law_checksum_chains(s: Seq<u8>, t: Seq<u8>, big_endian: bool, c: (int, int))
    requires
        s.len() % 8 == 0,
        t.len() % 8 == 0,
    ensures
        checksum_all(s + t, big_endian, c) == checksum_all(t, big_endian, checksum_all(s, big_endian, c)),
{
    lemma_checksum_prefix(s, t, s.len() / 8, big_endian, c);
    lemma_checksum_suffix(s, t, t.len() / 8, big_endian, c);
}

proof fn lemma_checksum_prefix(s: Seq<u8>, t: Seq<u8>, n: nat, big_endian: bool, c: (int, int))
    requires
        8 * n <= s.len(),
    ensures
        checksum_of(s + t, n, big_endian, c) == checksum_of(s, n, big_endian, c),
    decreases n,
{
    if n > 0 {
        lemma_checksum_prefix(s, t, (n - 1) as nat, big_endian, c);
    }
}

proof fn lemma_checksum_suffix(s: Seq<u8>, t: Seq<u8>, n: nat, big_endian: bool, c: (int, int))
    requires
        s.len() % 8 == 0,
        8 * n <= t.len(),
    ensures
        checksum_of(s + t, s.len() / 8 + n, big_endian, c) == checksum_of(
            t,
            n,
            big_endian,
            checksum_all(s, big_endian, c),
        ),
    decreases n,
{
    lemma_checksum_prefix(s, t, s.len() / 8, big_endian, c);
    if n > 0 {
        lemma_checksum_suffix(s, t, (n - 1) as nat, big_endian, c);
        let k = s.len() / 8 + n;
        assert(8 * (k - 1) == s.len() + 8 * (n - 1));
        assert((k - 1) as nat == s.len() / 8 + (n - 1) as nat);
        assert(forall|i: int| 0 <= i < t.len() ==> (s + t)[s.len() + i] == t[i]);
    }
}

/// The log's header.
#[derive(Debug, Clone, Copy, PartialEq, Eq, Structural)]
pub struct WalHeader {
    pub magic: u32,
    pub file_format: u32,
    pub page_size: u32,
    pub checkpoint_seq: u32,
    pub salt_1: u32,
    pub salt_2: u32,
    pub checksum_1: u32,
    pub checksum_2: u32,
}

impl WalHeader {
    /// The header of a log that nothing was written to.
    pub open spec fn blank(big_endian: bool) -> WalHeader {
        WalHeader {
            magic: if big_endian {
                WAL_MAGIC_BE
            } else {
                WAL_MAGIC_LE
            },
            file_format: WAL_FILE_FORMAT,
            page_size: 0,
            checkpoint_seq: 0,
            salt_1: 0,
            salt_2: 0,
            checksum_1: 0,
            checksum_2: 0,
        }
    }

    /// The header of a log that nothing was written to.
    pub fn new(big_endian: bool) -> (r: WalHeader)
        ensures
            r == WalHeader::blank(big_endian),
    {
        WalHeader {
            magic: if big_endian {
                WAL_MAGIC_BE
            } else {
                WAL_MAGIC_LE
            },
            file_format: WAL_FILE_FORMAT,
            page_size: 0,
            checkpoint_seq: 0,
            salt_1: 0,
            salt_2: 0,
            checksum_1: 0,
            checksum_2: 0,
        }
    }

    /// The header's first 24 bytes on disk, which its checksum covers.
    pub open spec fn prefix(self) -> Seq<u8> {
        be32_bytes(self.magic) + be32_bytes(self.file_format) + be32_bytes(self.page_size)
            + be32_bytes(self.checkpoint_seq) + be32_bytes(self.salt_1) + be32_bytes(self.salt_2)
    }

    /// The header's bytes on disk.
    pub open spec fn encoded(self) -> Seq<u8> {
        self.prefix() + be32_bytes(self.checksum_1) + be32_bytes(self.checksum_2)
    }

    /// The header in 32 bytes.
    pub open spec fn decoded(s: Seq<u8>) -> WalHeader {
        WalHeader {
            magic: be32(s, 0) as u32,
            file_format: be32(s, 4) as u32,
            page_size: be32(s, 8) as u32,
            checkpoint_seq: be32(s, 12) as u32,
            salt_1: be32(s, 16) as u32,
            salt_2: be32(s, 20) as u32,
            checksum_1: be32(s, 24) as u32,
            checksum_2: be32(s, 28) as u32,
        }
    }

    /// Whether the log's checksums read words as big-endian.
    pub open spec fn big_endian(self) -> bool {
        self.magic % 2 == 1
    }

    /// The header with the checksum that belongs to its other fields.
    pub open spec fn sealed(self) -> WalHeader {
        let (c1, c2) = checksum_all(self.prefix(), self.big_endian(), (0, 0));
        WalHeader { checksum_1: c1 as u32, checksum_2: c2 as u32, ..self }
    }

    /// Whether the log's checksums read words as big-endian.
    pub fn is_big_endian(&self) -> (r: bool)
        ensures
            r == self.big_endian(),
    {
        self.magic % 2 == 1
    }

    /// The header's first 24 bytes on disk.
    fn prefix_bytes(&self) -> (v: Vec<u8>)
        ensures
            v@ == self.prefix(),
            v@.len() == 24,
    {
        let mut v: Vec<u8> = Vec::new();
        push_be32(&mut v, self.magic);
        push_be32(&mut v, self.file_format);
        push_be32(&mut v, self.page_size);
        push_be32(&mut v, self.checkpoint_seq);
        push_be32(&mut v, self.salt_1);
        push_be32(&mut v, self.salt_2);
        assert(v@ =~= self.prefix());
        v
    }

    /// The header's bytes on disk.
    pub fn as_bytes(&self) -> (v: Vec<u8>)
        ensures
            v@ == self.encoded(),
            v@.len() == WAL_HEADER_SIZE,
    {
        let mut v = self.prefix_bytes();
        push_be32(&mut v, self.checksum_1);
        push_be32(&mut v, self.checksum_2);
        assert(v@ =~= self.encoded());
        v
    }

    /// Reads a header.
    pub fn parse(buf: &[u8]) -> (r: WalHeader)
        requires
            buf@.len() >= WAL_HEADER_SIZE,
        ensures
            r == WalHeader::decoded(buf@),
    {
        WalHeader {
            magic: read_be32(buf, 0),
            file_format: read_be32(buf, 4),
            page_size: read_be32(buf, 8),
            checkpoint_seq: read_be32(buf, 12),
            salt_1: read_be32(buf, 16),
            salt_2: read_be32(buf, 20),
            checksum_1: read_be32(buf, 24),
            checksum_2: read_be32(buf, 28),
        }
    }

    /// The checksum of the header's other fields.
    pub fn compute_checksum(&self) -> (r: (u32, u32))
        ensures
            self.sealed() == (WalHeader { checksum_1: r.0, checksum_2: r.1, ..*self }),
            ints(r) == checksum_all(self.prefix(), self.big_endian(), (0, 0)),
    {
        let prefix = self.prefix_bytes();
        checksum_wal(prefix.as_slice(), self.is_big_endian(), (0, 0))
    }
}

/// Eight 32-bit integers written one after the other.
pub open spec fn words8(a: u32, b: u32, c: u32, d: u32, e: u32, f: u32, g: u32, h: u32) -> Seq<u8> {
    be32_bytes(a) + be32_bytes(b) + be32_bytes(c) + be32_bytes(d) + be32_bytes(e) + be32_bytes(f)
        + be32_bytes(g) + be32_bytes(h)
}

/// Each of eight pieces of four bytes is found again in their concatenation.
proof fn lemma_pieces(
    p: Seq<u8>,
    a: Seq<u8>,
    b: Seq<u8>,
    c: Seq<u8>,
    d: Seq<u8>,
    e: Seq<u8>,
    f: Seq<u8>,
    g: Seq<u8>,
    h: Seq<u8>,
)
    requires
        a.len() == 4,
        b.len() == 4,
        c.len() == 4,
        d.len() == 4,
        e.len() == 4,
        f.len() == 4,
        g.len() == 4,
        h.len() == 4,
        p == a + b + c + d + e + f + g + h,
    ensures
        p.len() == 32,
        p.subrange(0, 4) == a,
        p.subrange(4, 8) == b,
        p.subrange(8, 12) == c,
        p.subrange(12, 16) == d,
        p.subrange(16, 20) == e,
        p.subrange(20, 24) == f,
        p.subrange(24, 28) == g,
        p.subrange(28, 32) == h,
{
    assert(p.subrange(0, 4) =~= a);
    assert(p.subrange(4, 8) =~= b);
    assert(p.subrange(8, 12) =~= c);
    assert(p.subrange(12, 16) =~= d);
    assert(p.subrange(16, 20) =~= e);
    assert(p.subrange(20, 24) =~= f);
    assert(p.subrange(24, 28) =~= g);
    assert(p.subrange(28, 32) =~= h);
}

/// Reading eight words gives back those that were written.
proof fn lemma_words8(p: Seq<u8>, a: u32, b: u32, c: u32, d: u32, e: u32, f: u32, g: u32, h: u32)
    requires
        p == words8(a, b, c, d, e, f, g, h),
    ensures
        p.len() == 32,
        be32(p, 0) == a,
        be32(p, 4) == b,
        be32(p, 8) == c,
        be32(p, 12) == d,
        be32(p, 16) == e,
        be32(p, 20) == f,
        be32(p, 24) == g,
        be32(p, 28) == h,
{
    lemma_pieces(
        p,
        be32_bytes(a),
        be32_bytes(b),
        be32_bytes(c),
        be32_bytes(d),
        be32_bytes(e),
        be32_bytes(f),
        be32_bytes(g),
        be32_bytes(h),
    );
    lemma_be32_at(p, 0, a);
    lemma_be32_at(p, 4, b);
    lemma_be32_at(p, 8, c);
    lemma_be32_at(p, 12, d);
    lemma_be32_at(p, 16, e);
    lemma_be32_at(p, 20, f);
    lemma_be32_at(p, 24, g);
    lemma_be32_at(p, 28, h);
}

/// Writing eight words that were read gives the bytes that they were read from.
proof fn lemma_words8_of(p: Seq<u8>)
    requires
        p.len() == 32,
    ensures
        words8(
            be32(p, 0) as u32,
            be32(p, 4) as u32,
            be32(p, 8) as u32,
            be32(p, 12) as u32,
            be32(p, 16) as u32,
            be32(p, 20) as u32,
            be32(p, 24) as u32,
            be32(p, 28) as u32,
        ) == p,
{
    lemma_be32_bytes_of(p, 0);
    lemma_be32_bytes_of(p, 4);
    lemma_be32_bytes_of(p, 8);
    lemma_be32_bytes_of(p, 12);
    lemma_be32_bytes_of(p, 16);
    lemma_be32_bytes_of(p, 20);
    lemma_be32_bytes_of(p, 24);
    lemma_be32_bytes_of(p, 28);
    assert(p.subrange(0, 4) + p.subrange(4, 8) + p.subrange(8, 12) + p.subrange(12, 16)
        + p.subrange(16, 20) + p.subrange(20, 24) + p.subrange(24, 28) + p.subrange(28, 32) =~= p);
}

/// Reading a header gives back what was written, and writing back a header
/// that was read gives the bytes that it was read from.
pub proof fn law_wal_header_round_trip(header: WalHeader, bytes: Seq<u8>)
    requires
        bytes.len() == WAL_HEADER_SIZE,
    ensures
        header.encoded().len() == WAL_HEADER_SIZE,
        WalHeader::decoded(header.encoded()) == header,
        WalHeader::decoded(bytes).encoded() == bytes,
{
    lemma_words8(
        header.encoded(),
        header.magic,
        header.file_format,
        header.page_size,
        header.checkpoint_seq,
        header.salt_1,
        header.salt_2,
        header.checksum_1,
        header.checksum_2,
    );
    lemma_words8_of(bytes);
}

/// Appends the four bytes of `x`, most significant first.
fn push_be32(v: &mut Vec<u8>, x: u32)
    ensures
        final(v)@ == old(v)@ + be32_bytes(x),
{
    v.push((x / 0x100_0000) as u8);
    v.push(((x / 0x1_0000) % 0x100) as u8);
    v.push(((x / 0x100) % 0x100) as u8);
    v.push((x % 0x100) as u8);
    assert(v@ =~= old(v)@ + be32_bytes(x));
}

/// A frame's header.
#[derive(Debug, Clone, Copy, PartialEq, Eq, Structural)]
pub struct WalFrameHeader {
    pub page_number: u32,
    /// The database's size in pages after a commit; 0 on a frame that commits nothing.
    pub db_size: u32,
    pub salt_1: u32,
    pub salt_2: u32,
    pub checksum_1: u32,
    pub checksum_2: u32,
}

impl WalFrameHeader {
    /// The frame header's first eight bytes, which the frame's checksum covers.
    pub open spec fn prefix(page_number: u32, db_size: u32) -> Seq<u8> {
        be32_bytes(page_number) + be32_bytes(db_size)
    }

    /// The frame header's bytes on disk.
    pub open spec fn encoded(self) -> Seq<u8> {
        WalFrameHeader::prefix(self.page_number, self.db_size) + be32_bytes(self.salt_1)
            + be32_bytes(self.salt_2) + be32_bytes(self.checksum_1) + be32_bytes(self.checksum_2)
    }

    /// The frame header in 24 bytes.
    pub open spec fn decoded(s: Seq<u8>) -> WalFrameHeader {
        WalFrameHeader {
            page_number: be32(s, 0) as u32,
            db_size: be32(s, 4) as u32,
            salt_1: be32(s, 8) as u32,
            salt_2: be32(s, 12) as u32,
            checksum_1: be32(s, 16) as u32,
            checksum_2: be32(s, 20) as u32,
        }
    }

    /// Whether the frame is the last of a commit.
    pub fn is_commit_frame(&self) -> (r: bool)
        ensures
            r == (self.db_size > 0),
    {
        self.db_size > 0
    }
}

/// Reading a frame's header gives back what was written.
pub proof fn law_frame_header_round_trip(header: WalFrameHeader, rest: Seq<u8>)
    ensures
        header.encoded().len() == WAL_FRAME_HEADER_SIZE,
        WalFrameHeader::decoded(header.encoded() + rest) == header,
{
    let p = header.encoded() + be32_bytes(0) + be32_bytes(0);
    let e = header.encoded() + rest;
    lemma_words8(
        p,
        header.page_number,
        header.db_size,
        header.salt_1,
        header.salt_2,
        header.checksum_1,
        header.checksum_2,
        0,
        0,
    );
    assert(header.encoded().len() == 24);
    assert(forall|i: int| 0 <= i < 24 ==> e[i] == p[i]);
}

/// Reads a frame's header.
pub fn parse_wal_frame_header(frame: &[u8]) -> (r: WalFrameHeader)
    requires
        frame@.len() >= WAL_FRAME_HEADER_SIZE,
    ensures
        r == WalFrameHeader::decoded(frame@),
{
    WalFrameHeader {
        page_number: read_be32(frame, 0),
        db_size: read_be32(frame, 4),
        salt_1: read_be32(frame, 8),
        salt_2: read_be32(frame, 12),
        checksum_1: read_be32(frame, 16),
        checksum_2: read_be32(frame, 20),
    }
}

/// The log's checksum after a frame: carried on over the frame header's first
/// eight bytes and the page.
pub open spec fn frame_checksum(
    header: WalHeader,
    previous: (int, int),
    page_number: u32,
    db_size: u32,
    page: Seq<u8>,
) -> (int, int) {
    let be = header.big_endian();
    checksum_all(page, be, checksum_all(WalFrameHeader::prefix(page_number, db_size), be, previous))
}

/// A frame's bytes on disk.
pub open spec fn frame_bytes(
    header: WalHeader,
    previous: (int, int),
    page_number: u32,
    db_size: u32,
    page: Seq<u8>,
) -> Seq<u8> {
    let (c1, c2) = frame_checksum(header, previous, page_number, db_size, page);
    WalFrameHeader {
        page_number,
        db_size,
        salt_1: header.salt_1,
        salt_2: header.salt_2,
        checksum_1: c1 as u32,
        checksum_2: c2 as u32,
    }.encoded() + page
}

/// Builds a frame: its checksum, carried on from that of the frame before it, and its bytes.
pub fn prepare_wal_frame(
    header: &WalHeader,
    prev_checksums: (u32, u32),
    page_number: u32,
    db_size: u32,
    page: &[u8],
) -> (r: ((u32, u32), Vec<u8>))
    requires
        page@.len() % 8 == 0,
    ensures
        ints(r.0) == frame_checksum(*header, ints(prev_checksums), page_number, db_size, page@),
        r.1@ == frame_bytes(*header, ints(prev_checksums), page_number, db_size, page@),
        r.1@.len() == WAL_FRAME_HEADER_SIZE + page@.len(),
{
    let mut frame: Vec<u8> = Vec::new();
    push_be32(&mut frame, page_number);
    push_be32(&mut frame, db_size);
    assert(frame@ =~= WalFrameHeader::prefix(page_number, db_size));
    let be = header.is_big_endian();
    let header_checksum = checksum_wal(frame.as_slice(), be, prev_checksums);
    let checksum = checksum_wal(page, be, header_checksum);
    push_be32(&mut frame, header.salt_1);
    push_be32(&mut frame, header.salt_2);
    push_be32(&mut frame, checksum.0);
    push_be32(&mut frame, checksum.1);
    frame.extend_from_slice(page);
    assert(frame@ =~= frame_bytes(
        *header,
        ints(prev_checksums),
        page_number,
        db_size,
        page@,
    ));
    (checksum, frame)
}

/// How a frame is laid out, most significant bytes first: four bytes each for its page, for the
/// database's size, for the log's two salts and for the two halves of the checksum that was carried
/// on over the first eight bytes and the page; then the page.
pub proof fn law_frame_layout(
    header: WalHeader,
    previous: (int, int),
    page_number: u32,
    db_size: u32,
    page: Seq<u8>,
)
    ensures
        ({
            let frame = frame_bytes(header, previous, page_number, db_size, page);
            let covered = frame.subrange(0, 8) + page;
            &&& frame.len() == 24 + page.len()
            &&& be32(frame, 0) == page_number
            &&& be32(frame, 4) == db_size
            &&& be32(frame, 8) == header.salt_1
            &&& be32(frame, 12) == header.salt_2
            &&& frame.subrange(24, frame.len() as int) == page
            &&& page.len() % 8 == 0 ==> {
                let (c1, c2) = checksum_all(covered, header.magic % 2 == 1, previous);
                be32(frame, 16) == c1 as u32 && be32(frame, 20) == c2 as u32
            }
        }),
{
    let frame = frame_bytes(header, previous, page_number, db_size, page);
    let (c1, c2) = frame_checksum(header, previous, page_number, db_size, page);
    let h = WalFrameHeader {
        page_number,
        db_size,
        salt_1: header.salt_1,
        salt_2: header.salt_2,
        checksum_1: c1 as u32,
        checksum_2: c2 as u32,
    };
    law_frame_header_round_trip(h, page);
    lemma_be32_bytes_of(frame, 0);
    lemma_be32_bytes_of(frame, 4);
    lemma_be32_bytes_of(frame, 8);
    lemma_be32_bytes_of(frame, 12);
    lemma_be32_bytes_of(frame, 16);
    lemma_be32_bytes_of(frame, 20);
    assert(frame.subrange(24, frame.len() as int) =~= page);
    if page.len() % 8 == 0 {
        let prefix = WalFrameHeader::prefix(page_number, db_size);
        assert(frame.subrange(0, 8) =~= prefix);
        law_checksum_chains(prefix, page, header.big_endian(), previous);
    }
}

/// Where a frame starts in the log.
pub open spec fn frame_position(frame_id: int, page_size: int) -> int {
    32 + (frame_id - 1) * (page_size + 24)
}

/// Frames lie one after the other: the first one starts right behind the 32 bytes of the log's
/// header, and each ends, 24 bytes and a page later, where the next one starts.
pub proof fn law_frames_are_adjacent(frame_id: int, page_size: int)
    requires
        1 <= frame_id,
        0 <= page_size,
    ensures
        frame_position(frame_id, page_size) + WAL_FRAME_HEADER_SIZE + page_size == frame_position(
            frame_id + 1,
            page_size,
        ),
        WAL_HEADER_SIZE <= frame_position(frame_id, page_size),
        frame_position(1, page_size) == 32,
        WAL_HEADER_SIZE == 32,
        WAL_FRAME_HEADER_SIZE == 24,
{
    assert(frame_id * (page_size + 24) == (frame_id - 1) * (page_size + 24) + (page_size + 24))
        by (nonlinear_arith);
    assert(0 <= (frame_id - 1) * (page_size + 24)) by (nonlinear_arith)
        requires
            1 <= frame_id,
            0 <= page_size,
    ;
}

} // verus!
