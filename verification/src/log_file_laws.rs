//! What the log's file gives back of what was written to it.

use vstd::prelude::*;
use crate::commit::{are_batches, batch_count, batch_pages, batch_start, CommitMode, CommitStep};
use crate::commit_laws::{law_next_reader_finds_committed_pages, lemma_batches_before,
    lemma_batches_in_order};
use crate::error::LimboError;
use crate::pager::PagerView;
use crate::read::ReadPlan;
use crate::wal::{Snapshot, WalFile};
use crate::wal_append::{batch_checksum, size_in_frame, PreparedFrames, IOV_MAX};
use crate::wal_format::{frame_bytes, frame_checksum, frame_position, ints,
    law_frame_header_round_trip, law_frames_are_adjacent, WalFrameHeader, WalHeader,
    WAL_FRAME_HEADER_SIZE};
use crate::wal_shared::SharedView;

verus! {

/// A file after bytes were written at an offset. What lies between the file's old end and the
/// offset is zero.
pub open spec fn after_write(file: Seq<u8>, offset: int, bytes: Seq<u8>) -> Seq<u8> {
    let end = offset + bytes.len();
    Seq::new(
        if file.len() < end {
            end as nat
        } else {
            file.len()
        },
        |i: int|
            if offset <= i < end {
                bytes[i - offset]
            } else if i < file.len() {
                file[i]
            } else {
                0u8
            },
    )
}

/// The bytes of a batch's frames, one frame after the other.
pub open spec fn joined(bufs: Seq<Vec<u8>>) -> Seq<u8>
    decreases bufs.len(),
{
    if bufs.len() == 0 {
        Seq::empty()
    } else {
        joined(bufs.drop_last()) + bufs.last()@
    }
}

/// The log's file after batches were written, one after the other, each where it belongs.
pub open spec fn log_after(file: Seq<u8>, batches: Seq<PreparedFrames>) -> Seq<u8>
    decreases batches.len(),
{
    if batches.len() == 0 {
        file
    } else {
        after_write(
            log_after(file, batches.drop_last()),
            batches.last().offset as int,
            joined(batches.last().bufs@),
        )
    }
}

/// Each page to be written has the log's page size.
pub open spec fn whole_pages(pages: Seq<(u32, Seq<u8>)>, page_size: int) -> bool {
    forall|i: int| 0 <= i < pages.len() ==> (#[trigger] pages[i]).1.len() == page_size
}

/// Frames of one size lie next to each other.
proof fn lemma_joined(bufs: Seq<Vec<u8>>, size: int, k: int)
    requires
        forall|i: int| 0 <= i < bufs.len() ==> (#[trigger] bufs[i])@.len() == size,
        0 <= k < bufs.len(),
    ensures
        joined(bufs).len() == bufs.len() * size,
        0 <= k * size,
        (k + 1) * size <= joined(bufs).len(),
        joined(bufs).subrange(k * size, (k + 1) * size) == bufs[k]@,
    decreases bufs.len(),
{
    let rest = bufs.drop_last();
    let n = bufs.len() as int;
    lemma_joined_len(bufs, size);
    lemma_joined_len(rest, size);
    assert(bufs[k]@.len() == size);
    assert(0 <= k * size) by (nonlinear_arith)
        requires
            0 <= k,
            0 <= size,
    ;
    assert((k + 1) * size == k * size + size) by (nonlinear_arith);
    assert((k + 1) * size <= n * size) by (nonlinear_arith)
        requires
            k + 1 <= n,
            0 <= size,
    ;
    if k + 1 == n {
        assert(joined(bufs).subrange(k * size, (k + 1) * size) =~= bufs[k]@);
    } else {
        lemma_joined(rest, size, k);
        assert(joined(bufs).subrange(k * size, (k + 1) * size) =~= joined(rest).subrange(
            k * size,
            (k + 1) * size,
        ));
    }
}

proof fn lemma_joined_len(bufs: Seq<Vec<u8>>, size: int)
    requires
        forall|i: int| 0 <= i < bufs.len() ==> (#[trigger] bufs[i])@.len() == size,
    ensures
        joined(bufs).len() == bufs.len() * size,
    decreases bufs.len(),
{
    if bufs.len() > 0 {
        lemma_joined_len(bufs.drop_last(), size);
        let n = bufs.len() as int;
        assert(bufs.last()@.len() == size);
        assert((n - 1) * size + size == n * size) by (nonlinear_arith);
    }
}

/// Where the frames of a batch lie, counted from its first.
proof fn lemma_position(first: int, k: int, page_size: int)
    requires
        0 <= k,
        0 <= page_size,
    ensures
        frame_position(first + k, page_size) == frame_position(first, page_size) + k * (page_size
            + WAL_FRAME_HEADER_SIZE),
        frame_position(first, page_size) <= frame_position(first + k, page_size),
{
    assert((first + k - 1) * (page_size + 24) == (first - 1) * (page_size + 24) + k * (page_size
        + 24)) by (nonlinear_arith);
    assert(0 <= k * (page_size + 24)) by (nonlinear_arith)
        requires
            0 <= k,
            0 <= page_size,
    ;
}

/// The bytes of one frame of a batch, in the file that the batch was written to.
proof fn lemma_written_buf(file: Seq<u8>, offset: int, bufs: Seq<Vec<u8>>, size: int, k: int)
    requires
        forall|i: int| 0 <= i < bufs.len() ==> (#[trigger] bufs[i])@.len() == size,
        0 <= k < bufs.len(),
        0 <= offset,
    ensures
        ({
            let log = after_write(file, offset, joined(bufs));
            let at = offset + k * size;
            &&& offset <= at
            &&& at + size <= log.len()
            &&& log.subrange(at, at + size) == bufs[k]@
        }),
{
    let bytes = joined(bufs);
    let log = after_write(file, offset, bytes);
    let at = offset + k * size;
    lemma_joined(bufs, size, k);
    assert((k + 1) * size == k * size + size) by (nonlinear_arith);
    assert(log.subrange(at, at + size) =~= bytes.subrange(k * size, (k + 1) * size));
}

/// A write leaves the bytes before it as they are.
proof fn lemma_spared(file: Seq<u8>, offset: int, bytes: Seq<u8>, from: int, to: int)
    requires
        0 <= from <= to,
        to <= offset,
        to <= file.len(),
    ensures
        file.len() <= after_write(file, offset, bytes).len(),
        after_write(file, offset, bytes).subrange(from, to) == file.subrange(from, to),
{
    assert(after_write(file, offset, bytes).subrange(from, to) =~= file.subrange(from, to));
}

/// A frame holds its header and its page.
proof fn lemma_frame_parts(
    header: WalHeader,
    previous: (int, int),
    page: u32,
    db_size: u32,
    data: Seq<u8>,
)
    ensures
        ({
            let buf = frame_bytes(header, previous, page, db_size, data);
            let (c1, c2) = frame_checksum(header, previous, page, db_size, data);
            &&& buf.len() == WAL_FRAME_HEADER_SIZE + data.len()
            &&& buf.subrange(WAL_FRAME_HEADER_SIZE as int, buf.len() as int) == data
            &&& WalFrameHeader::decoded(buf) == (WalFrameHeader {
                page_number: page,
                db_size,
                salt_1: header.salt_1,
                salt_2: header.salt_2,
                checksum_1: c1 as u32,
                checksum_2: c2 as u32,
            })
        }),
{
    let buf = frame_bytes(header, previous, page, db_size, data);
    let (c1, c2) = frame_checksum(header, previous, page, db_size, data);
    law_frame_header_round_trip(
        WalFrameHeader {
            page_number: page,
            db_size,
            salt_1: header.salt_1,
            salt_2: header.salt_2,
            checksum_1: c1 as u32,
            checksum_2: c2 as u32,
        },
        data,
    );
    assert(buf.subrange(WAL_FRAME_HEADER_SIZE as int, buf.len() as int) =~= data);
}

/// The page in a frame of a batch, and the frame's header.
proof fn lemma_batch_frame(
    batch: PreparedFrames,
    s: SharedView,
    pages: Seq<(u32, Seq<u8>)>,
    last: u32,
    c: (u32, u32),
    first: int,
    k: int,
)
    requires
        batch.is_batch_of(s, pages, last, c, first),
        0 <= k < pages.len(),
    ensures
        ({
            let buf = batch.bufs@[k]@;
            &&& buf.len() == WAL_FRAME_HEADER_SIZE + pages[k].1.len()
            &&& buf.subrange(WAL_FRAME_HEADER_SIZE as int, buf.len() as int) == pages[k].1
            &&& WalFrameHeader::decoded(buf) == (WalFrameHeader {
                page_number: pages[k].0,
                db_size: size_in_frame(pages.len(), k, last),
                salt_1: s.header.salt_1,
                salt_2: s.header.salt_2,
                checksum_1: batch.metadata@[k].checksum.0,
                checksum_2: batch.metadata@[k].checksum.1,
            })
        }),
{
    let previous = batch_checksum(s.header, pages, last, ints(c), k as nat);
    let db_size = size_in_frame(pages.len(), k, last);
    lemma_frame_parts(s.header, previous, pages[k].0, db_size, pages[k].1);
    assert(batch.bufs@[k]@ == frame_bytes(
        s.header,
        previous,
        pages[k].0,
        db_size,
        pages[k].1,
    ));
    assert(ints(batch.metadata@[k].checksum) == frame_checksum(
        s.header,
        previous,
        pages[k].0,
        db_size,
        pages[k].1,
    ));
}

/// A frame is read where it was written: after a batch was written to the log's file, each of its
/// pages is behind its frame's header, and the header tells the page, the database's size, the log's
/// salts and the checksum so far.
pub proof fn law_frame_is_read_where_written(
    file: Seq<u8>,
    batch: PreparedFrames,
    s: SharedView,
    pages: Seq<(u32, Seq<u8>)>,
    last: u32,
    c: (u32, u32),
    first: int,
    k: int,
)
    requires
        batch.is_batch_of(s, pages, last, c, first),
        whole_pages(pages, s.header.page_size as int),
        0 <= k < pages.len(),
    ensures
        ({
            let log = after_write(file, batch.offset as int, joined(batch.bufs@));
            let at = frame_position(first + k, s.header.page_size as int);
            let page_at = at + WAL_FRAME_HEADER_SIZE;
            let end = page_at + s.header.page_size;
            &&& 0 <= at
            &&& end <= log.len()
            &&& log.subrange(page_at, end) == pages[k].1
            &&& WalFrameHeader::decoded(log.subrange(at, end)) == (WalFrameHeader {
                page_number: pages[k].0,
                db_size: size_in_frame(pages.len(), k, last),
                salt_1: s.header.salt_1,
                salt_2: s.header.salt_2,
                checksum_1: batch.metadata@[k].checksum.0,
                checksum_2: batch.metadata@[k].checksum.1,
            })
        }),
{
    let size = s.header.page_size as int;
    let whole = size + WAL_FRAME_HEADER_SIZE;
    let bufs = batch.bufs@;
    assert forall|i: int| 0 <= i < bufs.len() implies (#[trigger] bufs[i])@.len() == whole by {
        lemma_batch_frame(batch, s, pages, last, c, first, i);
        assert(pages[i].1.len() == size);
    }
    lemma_batch_frame(batch, s, pages, last, c, first, k);
    lemma_written_buf(file, batch.offset as int, bufs, whole, k);
    lemma_position(first, k, size);
    let log = after_write(file, batch.offset as int, joined(bufs));
    let at = frame_position(first + k, size);
    lemma_tail(log, at, WAL_FRAME_HEADER_SIZE as int, at + whole);
}

/// The end of a part of a file.
proof fn lemma_tail(file: Seq<u8>, at: int, skip: int, end: int)
    requires
        0 <= at,
        0 <= skip,
        at + skip <= end <= file.len(),
    ensures
        file.subrange(at + skip, end) == file.subrange(at, end).subrange(skip, end - at),
{
    assert(file.subrange(at + skip, end) =~= file.subrange(at, end).subrange(skip, end - at));
}

/// Appending leaves the frames before the batch as they are.
pub proof fn law_append_spares_earlier_frames(
    file: Seq<u8>,
    batch: PreparedFrames,
    s: SharedView,
    pages: Seq<(u32, Seq<u8>)>,
    last: u32,
    c: (u32, u32),
    first: int,
    frame: int,
)
    requires
        batch.is_batch_of(s, pages, last, c, first),
        1 <= frame < first,
        frame_position(frame + 1, s.header.page_size as int) <= file.len(),
    ensures
        ({
            let log = after_write(file, batch.offset as int, joined(batch.bufs@));
            let at = frame_position(frame, s.header.page_size as int);
            let end = frame_position(frame + 1, s.header.page_size as int);
            &&& file.len() <= log.len()
            &&& log.subrange(at, end) == file.subrange(at, end)
        }),
{
    let size = s.header.page_size as int;
    let at = frame_position(frame, size);
    let end = frame_position(frame + 1, size);
    lemma_position(frame + 1, first - frame - 1, size);
    law_frames_are_adjacent(frame, size);
    lemma_spared(file, batch.offset as int, joined(batch.bufs@), at, end);
}

/// The last of several batches: where it starts, and what it holds.
proof fn lemma_last_batch(
    batches: Seq<PreparedFrames>,
    n: int,
    s: SharedView,
    pages: Seq<(u32, Seq<u8>)>,
    db_size: u32,
    wal: WalFile,
) -> (r: ((u32, u32), u32))
    requires
        are_batches(batches, n, s, pages, db_size, wal),
        0 < n <= batch_count(pages.len() as int),
    ensures
        batches.last().is_batch_of(
            s,
            batch_pages(pages, n - 1),
            r.1,
            r.0,
            wal.max_frame + (n - 1) * IOV_MAX + 1,
        ),
{
    lemma_batches_before(batches, n, s, pages, db_size, wal);
    lemma_batches_in_order(batches.drop_last(), n - 1, s, pages, db_size, wal);
    let (checksum, start) = batch_start(batches, n - 1, wal);
    assert(start == wal.max_frame + (n - 1) * IOV_MAX);
    let last = if n == batch_count(pages.len() as int) {
        db_size
    } else {
        0
    };
    assert(batches.last() == batches[n - 1]);
    (checksum, last)
}

/// The file has, at the place of frame `frame`, a page of these bytes.
spec fn page_is_at(log: Seq<u8>, frame: int, page_size: int, page: Seq<u8>) -> bool {
    let page_at = frame_position(frame, page_size) + WAL_FRAME_HEADER_SIZE;
    &&& 0 <= page_at
    &&& page_at + page_size <= log.len()
    &&& log.subrange(page_at, page_at + page_size) == page
}

/// A page in the file stays when a batch of later frames is written.
proof fn lemma_page_stays(
    log: Seq<u8>,
    batch: PreparedFrames,
    first: int,
    frame: int,
    page_size: int,
    page: Seq<u8>,
)
    requires
        page_is_at(log, frame, page_size, page),
        batch.offset == frame_position(first, page_size),
        1 <= frame < first,
        0 <= page_size,
    ensures
        page_is_at(
            after_write(log, batch.offset as int, joined(batch.bufs@)),
            frame,
            page_size,
            page,
        ),
{
    law_frames_are_adjacent(frame, page_size);
    lemma_position(frame + 1, first - frame - 1, page_size);
    let page_at = frame_position(frame, page_size) + WAL_FRAME_HEADER_SIZE;
    lemma_spared(
        log,
        batch.offset as int,
        joined(batch.bufs@),
        page_at,
        page_at + page_size,
    );
}

/// A page of the last batch is in the file once the batch was written.
proof fn lemma_page_of_last_batch(
    log: Seq<u8>,
    batch: PreparedFrames,
    s: SharedView,
    pages: Seq<(u32, Seq<u8>)>,
    i: int,
    last: u32,
    c: (u32, u32),
    first: int,
    k: int,
)
    requires
        batch.is_batch_of(s, batch_pages(pages, i), last, c, first),
        whole_pages(pages, s.header.page_size as int),
        0 <= i < batch_count(pages.len() as int),
        i * IOV_MAX <= k < pages.len(),
        k < (i + 1) * IOV_MAX,
    ensures
        page_is_at(
            after_write(log, batch.offset as int, joined(batch.bufs@)),
            first + k - i * IOV_MAX,
            s.header.page_size as int,
            pages[k].1,
        ),
{
    let part = batch_pages(pages, i);
    let j = k - i * IOV_MAX;
    assert(part[j] == pages[k]);
    assert forall|m: int| 0 <= m < part.len() implies (#[trigger] part[m]).1.len()
        == s.header.page_size by {
        assert(part[m] == pages[i * IOV_MAX + m]);
    }
    law_frame_is_read_where_written(log, batch, s, part, last, c, first, j);
}

/// After the first batches were written, the file has the bytes of each page of theirs.
proof fn lemma_log_holds(
    file: Seq<u8>,
    batches: Seq<PreparedFrames>,
    n: int,
    s: SharedView,
    pages: Seq<(u32, Seq<u8>)>,
    db_size: u32,
    wal: WalFile,
    k: int,
)
    requires
        are_batches(batches, n, s, pages, db_size, wal),
        whole_pages(pages, s.header.page_size as int),
        0 <= n <= batch_count(pages.len() as int),
        0 <= k < pages.len(),
        k < n * IOV_MAX,
    ensures
        page_is_at(
            log_after(file, batches),
            wal.max_frame + 1 + k,
            s.header.page_size as int,
            pages[k].1,
        ),
    decreases n,
{
    let rest = batches.drop_last();
    let batch = batches.last();
    let first = wal.max_frame + (n - 1) * IOV_MAX + 1;
    let (checksum, last) = lemma_last_batch(batches, n, s, pages, db_size, wal);
    let before = log_after(file, rest);
    if k < (n - 1) * IOV_MAX {
        lemma_batches_before(batches, n, s, pages, db_size, wal);
        lemma_log_holds(file, rest, n - 1, s, pages, db_size, wal, k);
        lemma_page_stays(
            before,
            batch,
            first,
            wal.max_frame + 1 + k,
            s.header.page_size as int,
            pages[k].1,
        );
    } else {
        lemma_page_of_last_batch(before, batch, s, pages, n - 1, last, checksum, first, k);
    }
}

/// A page that is found in a frame of the file is read from there.
proof fn lemma_page_is_read(
    reader: PagerView,
    t: SharedView,
    log: Seq<u8>,
    id: u32,
    frame: u64,
    page: Seq<u8>,
)
    requires
        reader.frame_for(t, id as int, None) == Some(frame),
        page_is_at(log, frame as int, t.header.page_size as int, page),
        page.len() == t.header.page_size,
        frame_position(frame as int, t.header.page_size as int) + WAL_FRAME_HEADER_SIZE <= u64::MAX,
    ensures
        reader.reads_from(t, log, id, frame, page),
{
}

impl PagerView {
    /// Page `id` is planned to be read from a frame of the log's file, the file has `page` there, and
    /// the page has these contents once they have come.
    pub open spec fn reads_from(
        self,
        t: SharedView,
        log: Seq<u8>,
        id: u32,
        frame: u64,
        page: Seq<u8>,
    ) -> bool {
        let plan = self.plan_for(t, id as int, None);
        plan matches ReadPlan::Frame { frame_id, offset } && {
            let bytes = log.subrange(offset as int, offset + t.header.page_size);
            &&& frame_id == frame
            &&& offset + t.header.page_size <= log.len()
            &&& bytes == page
            &&& self.page_read(t, id as usize, plan, Ok((bytes, bytes.len() as usize))).0.buffer
                == Some(page)
        }
    }
}

/// What was committed is what is read: once the batches of a commit were written to the log's file
/// and made visible, a connection that begins to read then reads each committed page at an
/// offset of the file where the page's bytes are, and they become the page's contents.
pub proof fn law_committed_page_is_read_back(
    v: PagerView,
    s: SharedView,
    mode: CommitMode,
    pages: Seq<(u32, Seq<u8>)>,
    db_size: u32,
    w: PagerView,
    t: SharedView,
    r: Result<CommitStep, LimboError>,
    file: Seq<u8>,
    reader: PagerView,
    wal: WalFile,
    slot: usize,
    k: int,
)
    requires
        v.frames_visible(s, mode, w, t, r),
        are_batches(
            v.commit_info.prepared_frames@,
            batch_count(pages.len() as int),
            s,
            pages,
            db_size,
            v.wal->0,
        ),
        s.nbackfills <= v.wal->0.max_frame,
        v.wal->0.max_frame + pages.len() < u64::MAX,
        frame_position(v.wal->0.max_frame + pages.len() + 1, s.header.page_size as int) <= u64::MAX,
        whole_pages(pages, s.header.page_size as int),
        forall|i: int, j: int|
            0 <= i < j < pages.len() ==> (#[trigger] pages[i]).0 != (#[trigger] pages[j]).0,
        0 <= k < pages.len(),
        reader.wal == Some(wal.reading(Snapshot::of(t), slot)),
    ensures
        reader.reads_from(
            t,
            log_after(file, v.commit_info.prepared_frames@),
            pages[k].0,
            (v.wal->0.max_frame + 1 + k) as u64,
            pages[k].1,
        ),
{
    let batches = v.commit_info.prepared_frames@;
    let n = batch_count(pages.len() as int);
    let size = s.header.page_size as int;
    let frame = v.wal->0.max_frame + 1 + k;
    assert(t.header == s.header);
    assert(reader.frame_for(t, pages[k].0 as int, None) == Some(frame as u64)) by {
        law_next_reader_finds_committed_pages(
            v,
            s,
            mode,
            pages,
            db_size,
            w,
            t,
            r,
            wal,
            slot,
            k,
        );
    }
    lemma_log_holds(file, batches, n, s, pages, db_size, v.wal->0, k);
    law_frames_are_adjacent(frame, size);
    lemma_position(frame + 1, pages.len() - k - 1, size);
    assert(pages[k].1.len() == size);
    lemma_page_is_read(reader, t, log_after(file, batches), pages[k].0, frame as u64, pages[k].1);
}

} // verus!
