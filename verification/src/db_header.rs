//! The database header: the first hundred bytes of page 1.

use vstd::prelude::*;
use crate::bytes::{be16, be16_bytes, be32, be32_bytes, copy_bytes, lemma_be16_bytes_of,
    lemma_be16_of_bytes, lemma_be32_at, lemma_be32_bytes_of, read_be16, read_be32, splice};
use crate::ondisk::PageSize;
use crate::page::{PageInner, DATABASE_HEADER_SIZE};

verus! {

/// 32-bit integers written one after the other, each most significant byte first.
pub open spec fn words_bytes(words: Seq<u32>) -> Seq<u8>
    decreases words.len(),
{
    if words.len() == 0 {
        Seq::empty()
    } else {
        words_bytes(words.drop_last()) + be32_bytes(words.last())
    }
}

proof fn lemma_words_len(words: Seq<u32>)
    ensures
        words_bytes(words).len() == 4 * words.len(),
    decreases words.len(),
{
    if words.len() > 0 {
        lemma_words_len(words.drop_last());
    }
}

/// Reading a word gives back the one that was written.
proof fn lemma_word_at(words: Seq<u32>, k: int)
    requires
        0 <= k < words.len(),
    ensures
        words_bytes(words).len() == 4 * words.len(),
        be32(words_bytes(words), 4 * k) == words[k],
    decreases words.len(),
{
    let rest = words.drop_last();
    let all = words_bytes(words);
    lemma_words_len(words);
    lemma_words_len(rest);
    if k + 1 == words.len() {
        assert(all.subrange(4 * k, 4 * k + 4) =~= be32_bytes(words.last()));
        lemma_be32_at(all, 4 * k, words.last());
    } else {
        lemma_word_at(rest, k);
        let part = words_bytes(rest);
        assert(rest[k] == words[k]);
        assert(all[4 * k] == part[4 * k] && all[4 * k + 1] == part[4 * k + 1] && all[4 * k + 2]
            == part[4 * k + 2] && all[4 * k + 3] == part[4 * k + 3]);
    }
}

/// The words that are in `s` from `pos` on.
pub open spec fn words_at(s: Seq<u8>, pos: int, n: nat) -> Seq<u32> {
    Seq::new(n, |k: int| be32(s, pos + 4 * k) as u32)
}

/// Writing words that were read gives the bytes that they were read from.
proof fn lemma_words_of(s: Seq<u8>, pos: int, n: nat)
    requires
        0 <= pos,
        pos + 4 * n <= s.len(),
    ensures
        words_bytes(words_at(s, pos, n)) == s.subrange(pos, pos + 4 * n),
    decreases n,
{
    let w = words_at(s, pos, n);
    if n > 0 {
        lemma_words_of(s, pos, (n - 1) as nat);
        assert(w.drop_last() =~= words_at(s, pos, (n - 1) as nat));
        lemma_be32_bytes_of(s, pos + 4 * (n - 1));
        assert(s.subrange(pos, pos + 4 * (n - 1)) + s.subrange(
            pos + 4 * (n - 1),
            pos + 4 * n,
        ) =~= s.subrange(pos, pos + 4 * n));
    } else {
        assert(s.subrange(pos, pos) =~= Seq::empty());
    }
}

/// The database header.
#[derive(Debug, Clone, Copy)]
pub struct DatabaseHeader {
    pub magic: [u8; 16],
    pub page_size: PageSize,
    pub write_version: u8,
    pub read_version: u8,
    /// Bytes at the end of each page that are not used for content.
    pub reserved_space: u8,
    pub max_embed_frac: u8,
    pub min_embed_frac: u8,
    pub leaf_frac: u8,
    pub change_counter: u32,
    /// The database's size in pages.
    pub database_size: u32,
    /// The first trunk page of the freelist; 0 if it is empty.
    pub freelist_trunk_page: u32,
    /// How many pages are on the freelist.
    pub freelist_pages: u32,
    pub schema_cookie: u32,
    pub schema_format: u32,
    pub default_page_cache_size: u32,
    /// The largest root page, if the database has autovacuum; else 0.
    pub vacuum_mode_largest_root_page: u32,
    pub text_encoding: u32,
    pub user_version: u32,
    pub incremental_vacuum_enabled: u32,
    pub application_id: u32,
    pub unused: [u8; 20],
    pub version_valid_for: u32,
    pub version_number: u32,
}

impl DatabaseHeader {
    /// The page that carries the header.
    pub const PAGE_ID: usize = 1;
    /// Bytes of the header.
    pub const SIZE: usize = 100;

    /// The header's words at 24.
    pub open spec fn words(self) -> Seq<u32> {
        seq![
            self.change_counter,
            self.database_size,
            self.freelist_trunk_page,
            self.freelist_pages,
            self.schema_cookie,
            self.schema_format,
            self.default_page_cache_size,
            self.vacuum_mode_largest_root_page,
            self.text_encoding,
            self.user_version,
            self.incremental_vacuum_enabled,
            self.application_id,
        ]
    }

    /// The header's words at 92.
    pub open spec fn versions(self) -> Seq<u32> {
        seq![self.version_valid_for, self.version_number]
    }

    /// The header's single bytes at 18.
    pub open spec fn singles(self) -> Seq<u8> {
        seq![
            self.write_version,
            self.read_version,
            self.reserved_space,
            self.max_embed_frac,
            self.min_embed_frac,
            self.leaf_frac,
        ]
    }

    /// The header's bytes.
    #[verifier::opaque]
    pub open spec fn encoded(self) -> Seq<u8> {
        self.magic@ + be16_bytes(self.page_size.0) + self.singles() + words_bytes(self.words())
            + self.unused@ + words_bytes(self.versions())
    }

    /// Whether this is the header in the first hundred bytes of `s`.
    pub open spec fn is_in(self, s: Seq<u8>) -> bool {
        &&& s.len() >= DATABASE_HEADER_SIZE
        &&& s.subrange(0, 100) == self.encoded()
    }

    /// The header in the first hundred bytes of `s`.
    pub open spec fn decoded(s: Seq<u8>) -> DatabaseHeader {
        choose|h: DatabaseHeader| h.is_in(s)
    }

    /// Bytes of a page that are used for content.
    pub open spec fn usable(self) -> int {
        self.page_size.bytes() - self.reserved_space
    }

    /// The length and the pieces of the header's bytes.
    proof fn lemma_encoded(self)
        ensures
            self.encoded().len() == 100,
            self.encoded().subrange(0, 16) == self.magic@,
            self.encoded().subrange(16, 18) == be16_bytes(self.page_size.0),
            self.encoded().subrange(18, 24) == self.singles(),
            self.encoded().subrange(24, 72) == words_bytes(self.words()),
            self.encoded().subrange(72, 92) == self.unused@,
            self.encoded().subrange(92, 100) == words_bytes(self.versions()),
    {
        reveal(DatabaseHeader::encoded);
        lemma_words_len(self.words());
        lemma_words_len(self.versions());
        let e = self.encoded();
        assert(e.subrange(0, 16) =~= self.magic@);
        assert(e.subrange(16, 18) =~= be16_bytes(self.page_size.0));
        assert(e.subrange(18, 24) =~= self.singles());
        assert(e.subrange(24, 72) =~= words_bytes(self.words()));
        assert(e.subrange(72, 92) =~= self.unused@);
        assert(e.subrange(92, 100) =~= words_bytes(self.versions()));
    }

    /// What the header's fields are in its bytes.
    proof fn lemma_fields(self, s: Seq<u8>)
        requires
            self.is_in(s),
        ensures
            forall|i: int| 0 <= i < 16 ==> self.magic@[i] == s[i],
            be16(s, 16) == self.page_size.0,
            s[18] == self.write_version,
            s[19] == self.read_version,
            s[20] == self.reserved_space,
            s[21] == self.max_embed_frac,
            s[22] == self.min_embed_frac,
            s[23] == self.leaf_frac,
            be32(s, 24) == self.change_counter,
            be32(s, 28) == self.database_size,
            be32(s, 32) == self.freelist_trunk_page,
            be32(s, 36) == self.freelist_pages,
            be32(s, 40) == self.schema_cookie,
            be32(s, 44) == self.schema_format,
            be32(s, 48) == self.default_page_cache_size,
            be32(s, 52) == self.vacuum_mode_largest_root_page,
            be32(s, 56) == self.text_encoding,
            be32(s, 60) == self.user_version,
            be32(s, 64) == self.incremental_vacuum_enabled,
            be32(s, 68) == self.application_id,
            forall|i: int| 0 <= i < 20 ==> self.unused@[i] == s[72 + i],
            be32(s, 92) == self.version_valid_for,
            be32(s, 96) == self.version_number,
    {
        self.lemma_encoded();
        let e = s.subrange(0, 100);
        assert forall|i: int| 0 <= i < 16 implies self.magic@[i] == s[i] by {
            assert(e.subrange(0, 16)[i] == e[i]);
        }
        assert forall|i: int| 0 <= i < 20 implies self.unused@[i] == s[72 + i] by {
            assert(e.subrange(72, 92)[i] == e[72 + i]);
        }
        lemma_be16_of_bytes(self.page_size.0);
        let p = e.subrange(16, 18);
        assert(p[0] == s[16] && p[1] == s[17]);
        let b = e.subrange(18, 24);
        assert(b[0] == s[18] && b[1] == s[19] && b[2] == s[20] && b[3] == s[21] && b[4] == s[22]
            && b[5] == s[23]);
        let w = e.subrange(24, 72);
        assert forall|k: int| 0 <= k < 12 implies #[trigger] be32(s, 24 + 4 * k) == self.words()[k] by {
            lemma_word_at(self.words(), k);
            assert(w[4 * k] == s[24 + 4 * k] && w[4 * k + 1] == s[24 + 4 * k + 1] && w[4 * k + 2]
                == s[24 + 4 * k + 2] && w[4 * k + 3] == s[24 + 4 * k + 3]);
        }
        assert(be32(s, 24 + 4 * 0int) == self.words()[0]);
        assert(be32(s, 24 + 4 * 1int) == self.words()[1]);
        assert(be32(s, 24 + 4 * 2int) == self.words()[2]);
        assert(be32(s, 24 + 4 * 3int) == self.words()[3]);
        assert(be32(s, 24 + 4 * 4int) == self.words()[4]);
        assert(be32(s, 24 + 4 * 5int) == self.words()[5]);
        assert(be32(s, 24 + 4 * 6int) == self.words()[6]);
        assert(be32(s, 24 + 4 * 7int) == self.words()[7]);
        assert(be32(s, 24 + 4 * 8int) == self.words()[8]);
        assert(be32(s, 24 + 4 * 9int) == self.words()[9]);
        assert(be32(s, 24 + 4 * 10int) == self.words()[10]);
        assert(be32(s, 24 + 4 * 11int) == self.words()[11]);
        let v = e.subrange(92, 100);
        lemma_word_at(self.versions(), 0);
        lemma_word_at(self.versions(), 1);
        assert(v[0] == s[92] && v[1] == s[93] && v[2] == s[94] && v[3] == s[95] && v[4] == s[96]
            && v[5] == s[97] && v[6] == s[98] && v[7] == s[99]);
    }

    /// A sequence of bytes holds at most one header.
    proof fn lemma_unique(a: DatabaseHeader, b: DatabaseHeader, s: Seq<u8>)
        requires
            a.is_in(s),
            b.is_in(s),
        ensures
            a == b,
    {
        a.lemma_fields(s);
        b.lemma_fields(s);
        assert(a.magic@ =~= b.magic@) by {
            assert forall|i: int| 0 <= i < 16 implies a.magic@[i] == b.magic@[i] by {
                assert(a.magic@[i] == s[i]);
            }
        }
        assert(a.unused@ =~= b.unused@) by {
            assert forall|i: int| 0 <= i < 20 implies a.unused@[i] == b.unused@[i] by {
                assert(a.unused@[i] == s[72 + i]);
            }
        }
        assert(a.magic =~= b.magic);
        assert(a.unused =~= b.unused);
    }

    /// Reads the header at the start of a page.
    pub fn parse(buf: &[u8]) -> (r: DatabaseHeader)
        requires
            buf@.len() >= DATABASE_HEADER_SIZE,
        ensures
            r == DatabaseHeader::decoded(buf@),
            r.is_in(buf@),
    {
        let magic: [u8; 16] = [
            buf[0],
            buf[1],
            buf[2],
            buf[3],
            buf[4],
            buf[5],
            buf[6],
            buf[7],
            buf[8],
            buf[9],
            buf[10],
            buf[11],
            buf[12],
            buf[13],
            buf[14],
            buf[15],
        ];
        let unused: [u8; 20] = [
            buf[72],
            buf[73],
            buf[74],
            buf[75],
            buf[76],
            buf[77],
            buf[78],
            buf[79],
            buf[80],
            buf[81],
            buf[82],
            buf[83],
            buf[84],
            buf[85],
            buf[86],
            buf[87],
            buf[88],
            buf[89],
            buf[90],
            buf[91],
        ];
        let header = DatabaseHeader {
            magic,
            page_size: PageSize(read_be16(buf, 16)),
            write_version: buf[18],
            read_version: buf[19],
            reserved_space: buf[20],
            max_embed_frac: buf[21],
            min_embed_frac: buf[22],
            leaf_frac: buf[23],
            change_counter: read_be32(buf, 24),
            database_size: read_be32(buf, 28),
            freelist_trunk_page: read_be32(buf, 32),
            freelist_pages: read_be32(buf, 36),
            schema_cookie: read_be32(buf, 40),
            schema_format: read_be32(buf, 44),
            default_page_cache_size: read_be32(buf, 48),
            vacuum_mode_largest_root_page: read_be32(buf, 52),
            text_encoding: read_be32(buf, 56),
            user_version: read_be32(buf, 60),
            incremental_vacuum_enabled: read_be32(buf, 64),
            application_id: read_be32(buf, 68),
            unused,
            version_valid_for: read_be32(buf, 92),
            version_number: read_be32(buf, 96),
        };
        proof {
            let s = buf@;
            reveal(DatabaseHeader::encoded);
            lemma_be16_bytes_of(s, 16);
            lemma_words_of(s, 24, 12);
            lemma_words_of(s, 92, 2);
            assert(header.words() =~= words_at(s, 24, 12));
            assert(header.versions() =~= words_at(s, 92, 2));
            assert(header.magic@ =~= s.subrange(0, 16));
            assert(header.unused@ =~= s.subrange(72, 92));
            assert(header.singles() =~= s.subrange(18, 24));
            assert(s.subrange(0, 16) + s.subrange(16, 18) + s.subrange(18, 24) + s.subrange(24, 72)
                + s.subrange(72, 92) + s.subrange(92, 100) =~= s.subrange(0, 100));
            assert(header.is_in(s));
            DatabaseHeader::lemma_unique(header, DatabaseHeader::decoded(s), s);
        }
        header
    }

    /// The header's bytes.
    pub fn as_bytes(&self) -> (v: Vec<u8>)
        ensures
            v@ == self.encoded(),
            v@.len() == DATABASE_HEADER_SIZE,
    {
        let mut v: Vec<u8> = Vec::new();
        v.extend_from_slice(&self.magic);
        let ps: u16 = self.page_size.0;
        v.push((ps / 0x100) as u8);
        v.push((ps % 0x100) as u8);
        v.push(self.write_version);
        v.push(self.read_version);
        v.push(self.reserved_space);
        v.push(self.max_embed_frac);
        v.push(self.min_embed_frac);
        v.push(self.leaf_frac);
        assert(v@ =~= self.magic@ + be16_bytes(self.page_size.0) + self.singles());
        let words: [u32; 12] = [
            self.change_counter,
            self.database_size,
            self.freelist_trunk_page,
            self.freelist_pages,
            self.schema_cookie,
            self.schema_format,
            self.default_page_cache_size,
            self.vacuum_mode_largest_root_page,
            self.text_encoding,
            self.user_version,
            self.incremental_vacuum_enabled,
            self.application_id,
        ];
        assert(words@ =~= self.words());
        push_words(&mut v, &words);
        v.extend_from_slice(&self.unused);
        let versions: [u32; 2] = [self.version_valid_for, self.version_number];
        assert(versions@ =~= self.versions());
        push_words(&mut v, &versions);
        proof {
            reveal(DatabaseHeader::encoded);
            assert(v@ =~= self.encoded());
            self.lemma_encoded();
        }
        v
    }

    /// Bytes of a page that are used for content.
    pub fn usable_space(&self) -> (r: usize)
        requires
            self.page_size.valid(),
        ensures
            r == self.usable(),
    {
        self.page_size.get() as usize - self.reserved_space as usize
    }
}

/// Appends words, each most significant byte first.
fn push_words(v: &mut Vec<u8>, words: &[u32])
    ensures
        final(v)@ == old(v)@ + words_bytes(words@),
{
    let mut i: usize = 0;
    assert(words@.take(0) =~= Seq::empty());
    assert(v@ =~= old(v)@ + words_bytes(words@.take(0)));
    while i < words.len()
        invariant
            i <= words@.len(),
            v@ == old(v)@ + words_bytes(words@.take(i as int)),
        decreases words@.len() - i,
    {
        let x: u32 = words[i];
        let ghost before = v@;
        v.push((x / 0x100_0000) as u8);
        v.push(((x / 0x1_0000) % 0x100) as u8);
        v.push(((x / 0x100) % 0x100) as u8);
        v.push((x % 0x100) as u8);
        assert(words@.take(i + 1).drop_last() =~= words@.take(i as int));
        assert(v@ =~= before + be32_bytes(x));
        i = i + 1;
        assert(v@ =~= old(v)@ + words_bytes(words@.take(i as int)));
    }
    assert(words@.take(words@.len() as int) =~= words@);
}

impl DatabaseHeader {
    /// Whether this is the header of a database with nothing in it.
    pub open spec fn is_initial(self) -> bool {
        &&& self.magic@ == seq![
            0x53u8,
            0x51,
            0x4c,
            0x69,
            0x74,
            0x65,
            0x20,
            0x66,
            0x6f,
            0x72,
            0x6d,
            0x61,
            0x74,
            0x20,
            0x33,
            0,
        ]
        &&& self.unused@ == Seq::new(20, |i: int| 0u8)
        &&& self == (DatabaseHeader {
            magic: self.magic,
            page_size: PageSize(4096),
            write_version: 2,
            read_version: 2,
            reserved_space: 0,
            max_embed_frac: 64,
            min_embed_frac: 32,
            leaf_frac: 32,
            change_counter: 1,
            database_size: 0,
            freelist_trunk_page: 0,
            freelist_pages: 0,
            schema_cookie: 0,
            schema_format: 4,
            default_page_cache_size: 500,
            vacuum_mode_largest_root_page: 0,
            text_encoding: 1,
            user_version: 0,
            incremental_vacuum_enabled: 0,
            application_id: 0,
            unused: self.unused,
            version_valid_for: 3047000,
            version_number: 3047000,
        })
    }
}

impl Default for DatabaseHeader {
    /// The header of a database with nothing in it.
    fn default() -> (r: DatabaseHeader)
        ensures
            r.is_initial(),
    {
        let r = DatabaseHeader {
            magic: [
                0x53,
                0x51,
                0x4c,
                0x69,
                0x74,
                0x65,
                0x20,
                0x66,
                0x6f,
                0x72,
                0x6d,
                0x61,
                0x74,
                0x20,
                0x33,
                0,
            ],
            page_size: PageSize(4096),
            write_version: 2,
            read_version: 2,
            reserved_space: 0,
            max_embed_frac: 64,
            min_embed_frac: 32,
            leaf_frac: 32,
            change_counter: 1,
            database_size: 0,
            freelist_trunk_page: 0,
            freelist_pages: 0,
            schema_cookie: 0,
            schema_format: 4,
            default_page_cache_size: 500,
            vacuum_mode_largest_root_page: 0,
            text_encoding: 1,
            user_version: 0,
            incremental_vacuum_enabled: 0,
            application_id: 0,
            unused: [0; 20],
            version_valid_for: 3047000,
            version_number: 3047000,
        };
        assert(r.unused@ =~= Seq::new(20, |i: int| 0u8));
        r
    }
}

impl PageInner {
    /// Writes the database header into the first hundred bytes.
    pub fn write_database_header(&mut self, header: &DatabaseHeader)
        requires
            old(self)@.buffer is Some,
            old(self)@.data().len() >= DATABASE_HEADER_SIZE,
        ensures
            final(self)@ == old(self)@.with_data(
                splice(old(self)@.data(), 0, header.encoded()),
            ),
            DatabaseHeader::decoded(final(self)@.data()) == *header,
    {
        let bytes = header.as_bytes();
        let ghost before = self@.data();
        let buf = self.as_ptr();
        copy_bytes(buf, 0, bytes.as_slice());
        proof {
            let after = splice(before, 0, header.encoded());
            assert(after.subrange(0, 100) =~= header.encoded());
            assert(header.is_in(after));
            DatabaseHeader::lemma_unique(*header, DatabaseHeader::decoded(after), after);
        }
    }
}

/// Reading a header gives back what was written, and writing back a header
/// that is in a page leaves the page as it is.
pub proof fn law_database_header_round_trip(header: DatabaseHeader, page: Seq<u8>)
    requires
        page.len() >= DATABASE_HEADER_SIZE,
    ensures
        header.encoded().len() == DATABASE_HEADER_SIZE,
        DatabaseHeader::decoded(splice(page, 0, header.encoded())) == header,
        header.is_in(page) ==> splice(page, 0, header.encoded()) == page
            && DatabaseHeader::decoded(page) == header,
{
    header.lemma_encoded();
    let after = splice(page, 0, header.encoded());
    assert(after.subrange(0, 100) =~= header.encoded());
    assert(header.is_in(after));
    DatabaseHeader::lemma_unique(header, DatabaseHeader::decoded(after), after);
    if header.is_in(page) {
        assert forall|i: int| 0 <= i < 100 implies header.encoded()[i] == page[i] by {
            assert(page.subrange(0, 100)[i] == page[i]);
        }
        assert(after =~= page);
    }
}

/// Every hundred bytes hold a header.
proof fn lemma_holds_header(s: Seq<u8>)
    requires
        s.len() >= DATABASE_HEADER_SIZE,
    ensures
        DatabaseHeader::decoded(s).is_in(s),
{
    let magic: [u8; 16] = [
        s[0],
        s[1],
        s[2],
        s[3],
        s[4],
        s[5],
        s[6],
        s[7],
        s[8],
        s[9],
        s[10],
        s[11],
        s[12],
        s[13],
        s[14],
        s[15],
    ];
    let unused: [u8; 20] = [
        s[72],
        s[73],
        s[74],
        s[75],
        s[76],
        s[77],
        s[78],
        s[79],
        s[80],
        s[81],
        s[82],
        s[83],
        s[84],
        s[85],
        s[86],
        s[87],
        s[88],
        s[89],
        s[90],
        s[91],
    ];
    let header = DatabaseHeader {
        magic,
        page_size: PageSize(be16(s, 16) as u16),
        write_version: s[18],
        read_version: s[19],
        reserved_space: s[20],
        max_embed_frac: s[21],
        min_embed_frac: s[22],
        leaf_frac: s[23],
        change_counter: be32(s, 24) as u32,
        database_size: be32(s, 28) as u32,
        freelist_trunk_page: be32(s, 32) as u32,
        freelist_pages: be32(s, 36) as u32,
        schema_cookie: be32(s, 40) as u32,
        schema_format: be32(s, 44) as u32,
        default_page_cache_size: be32(s, 48) as u32,
        vacuum_mode_largest_root_page: be32(s, 52) as u32,
        text_encoding: be32(s, 56) as u32,
        user_version: be32(s, 60) as u32,
        incremental_vacuum_enabled: be32(s, 64) as u32,
        application_id: be32(s, 68) as u32,
        unused,
        version_valid_for: be32(s, 92) as u32,
        version_number: be32(s, 96) as u32,
    };
    reveal(DatabaseHeader::encoded);
    lemma_be16_bytes_of(s, 16);
    lemma_words_of(s, 24, 12);
    lemma_words_of(s, 92, 2);
    assert(header.words() =~= words_at(s, 24, 12));
    assert(header.versions() =~= words_at(s, 92, 2));
    assert(header.magic@ =~= s.subrange(0, 16));
    assert(header.unused@ =~= s.subrange(72, 92));
    assert(header.singles() =~= s.subrange(18, 24));
    assert(s.subrange(0, 16) + s.subrange(16, 18) + s.subrange(18, 24) + s.subrange(24, 72)
        + s.subrange(72, 92) + s.subrange(92, 100) =~= s.subrange(0, 100));
    assert(header.is_in(s));
}

/// The header's fields are where the file format puts them, whatever a page holds: the page size
/// at 16, the reserved bytes at 20, the size of the database at 28, the freelist's first trunk
/// page at 32 and its length at 36, the schema cookie at 40, the largest root page at 52, and so on
/// up to the version at 96, all most significant byte first.
pub proof fn law_header_fields_are_in_place(page: Seq<u8>)
    requires
        page.len() >= 100,
    ensures
        ({
            let h = DatabaseHeader::decoded(page);
            &&& h.magic@ == page.subrange(0, 16)
            &&& h.page_size.0 == page[16] * 256 + page[17]
            &&& h.write_version == page[18]
            &&& h.read_version == page[19]
            &&& h.reserved_space == page[20]
            &&& h.max_embed_frac == page[21]
            &&& h.min_embed_frac == page[22]
            &&& h.leaf_frac == page[23]
            &&& h.change_counter == be32(page, 24)
            &&& h.database_size == be32(page, 28)
            &&& h.freelist_trunk_page == be32(page, 32)
            &&& h.freelist_pages == be32(page, 36)
            &&& h.schema_cookie == be32(page, 40)
            &&& h.schema_format == be32(page, 44)
            &&& h.default_page_cache_size == be32(page, 48)
            &&& h.vacuum_mode_largest_root_page == be32(page, 52)
            &&& h.text_encoding == be32(page, 56)
            &&& h.user_version == be32(page, 60)
            &&& h.incremental_vacuum_enabled == be32(page, 64)
            &&& h.application_id == be32(page, 68)
            &&& h.unused@ == page.subrange(72, 92)
            &&& h.version_valid_for == be32(page, 92)
            &&& h.version_number == be32(page, 96)
        }),
{
    lemma_holds_header(page);
    let h = DatabaseHeader::decoded(page);
    h.lemma_fields(page);
    assert(h.magic@ =~= page.subrange(0, 16));
    assert(h.unused@ =~= page.subrange(72, 92));
}

/// Writing a header changes the first hundred bytes of a page and no others, and puts each field
/// where it is read from.
pub proof fn law_header_is_written_in_place(header: DatabaseHeader, page: Seq<u8>)
    requires
        page.len() >= 100,
    ensures
        ({
            let after = splice(page, 0, header.encoded());
            &&& after.len() == page.len()
            &&& forall|i: int| 100 <= i < page.len() ==> after[i] == page[i]
            &&& after[16] * 256 + after[17] == header.page_size.0
            &&& after[20] == header.reserved_space
            &&& be32(after, 24) == header.change_counter
            &&& be32(after, 28) == header.database_size
            &&& be32(after, 32) == header.freelist_trunk_page
            &&& be32(after, 36) == header.freelist_pages
            &&& be32(after, 40) == header.schema_cookie
            &&& be32(after, 52) == header.vacuum_mode_largest_root_page
            &&& be32(after, 56) == header.text_encoding
            &&& be32(after, 60) == header.user_version
            &&& be32(after, 64) == header.incremental_vacuum_enabled
        }),
{
    law_database_header_round_trip(header, page);
    let after = splice(page, 0, header.encoded());
    law_header_fields_are_in_place(after);
}

/// The header of a database with nothing in it: it starts with the words of the format, says that
/// pages have 4096 bytes, none of them reserved, and that the database has no pages, no freelist and
/// text in UTF-8.
pub proof fn law_initial_header(header: DatabaseHeader, page: Seq<u8>)
    requires
        header.is_initial(),
        header.is_in(page),
    ensures
        page.subrange(0, 16) == seq![
            83u8,
            81u8,
            76u8,
            105u8,
            116u8,
            101u8,
            32u8,
            102u8,
            111u8,
            114u8,
            109u8,
            97u8,
            116u8,
            32u8,
            51u8,
            0u8,
        ],
        page[16] * 256 + page[17] == 4096,
        page[18] == 2 && page[19] == 2,
        page[20] == 0,
        page[21] == 64 && page[22] == 32 && page[23] == 32,
        be32(page, 28) == 0,
        be32(page, 32) == 0,
        be32(page, 36) == 0,
        be32(page, 40) == 0,
        be32(page, 52) == 0,
        be32(page, 56) == 1,
        forall|i: int| 72 <= i < 92 ==> page[i] == 0,
{
    header.lemma_fields(page);
    assert(page.subrange(0, 16) =~= header.magic@);
    assert forall|i: int| 72 <= i < 92 implies page[i] == 0 by {
        assert(header.unused@[i - 72] == page[72 + (i - 72)]);
    }
}

} // verus!
