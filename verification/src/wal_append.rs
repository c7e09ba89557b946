//! Appending to the log: building frames, making them visible, taking them back.

use vstd::prelude::*;
use crate::bytes::{bytes_equal, copy_range};
use crate::checkpoint_state::OngoingView;
use crate::error::{BadArgument, CompletionError, Corruption, LimboError};
use crate::frame_index::{distinct_pages, first_occurrences, rolled_back, with_frame, Frames};
use crate::ondisk::{is_page_size, PageSize};
use crate::page::{Page, PageView};
use crate::rwlock::NO_LOCK_HELD;
use crate::wal::{RollbackTo, WalFile};
use crate::wal_format::{frame_bytes, frame_checksum, frame_position, ints, parse_wal_frame_header,
    prepare_wal_frame, WalFrameHeader, WalHeader, WAL_FRAME_HEADER_SIZE, WAL_HEADER_SIZE,
    WAL_MAGIC_BE, WAL_MAGIC_LE};
use crate::wal_shared::{SharedView, WalFileShared};

verus! {

/// Frames that may be written at once.
pub const IOV_MAX: usize = 1024;

/// A page to be appended, with its bytes as they go to disk.
#[derive(Debug)]
pub struct FrameInput {
    pub page_id: u32,
    pub data: Vec<u8>,
}

impl View for FrameInput {
    type V = (u32, Seq<u8>);

    open spec fn view(&self) -> (u32, Seq<u8>) {
        (self.page_id, self.data@)
    }
}

/// The pages to be appended.
pub open spec fn inputs(pages: Seq<FrameInput>) -> Seq<(u32, Seq<u8>)> {
    Seq::new(pages.len(), |i: int| pages[i]@)
}

/// A frame of a batch: its page, its number, and the log's checksum after it.
#[derive(Debug, Clone, Copy, PartialEq, Eq)]
pub struct FrameMeta {
    pub page_id: u32,
    pub frame_id: u64,
    pub checksum: (u32, u32),
}

/// Frames that will be appended to the log by one write.
#[derive(Debug)]
pub struct PreparedFrames {
    /// Where the first frame goes in the log's file.
    pub offset: u64,
    /// The frames' bytes.
    pub bufs: Vec<Vec<u8>>,
    pub metadata: Vec<FrameMeta>,
    /// The log's checksum after all of them.
    pub final_checksum: (u32, u32),
    /// The last of them.
    pub final_max_frame: u64,
    /// The log's epoch when they were built.
    pub epoch: u32,
}

/// The database size in frame `k` of `n`: only the last one carries it.
pub open spec fn size_in_frame(n: nat, k: int, last: u32) -> u32 {
    if k + 1 == n {
        last
    } else {
        0
    }
}

/// The log's checksum after the first `k` frames of a batch that starts at checksum `c`.
pub open spec fn batch_checksum(
    header: WalHeader,
    pages: Seq<(u32, Seq<u8>)>,
    last: u32,
    c: (int, int),
    k: nat,
) -> (int, int)
    decreases k,
{
    if k == 0 {
        c
    } else {
        frame_checksum(
            header,
            batch_checksum(header, pages, last, c, (k - 1) as nat),
            pages[k - 1].0,
            size_in_frame(pages.len(), k - 1, last),
            pages[k - 1].1,
        )
    }
}

impl PreparedFrames {
    /// The first `n` frames are those of `pages`, chained from checksum `c`, with
    /// numbers from `first` on and `last` as the database size in the last one.
    pub open spec fn holds(
        bufs: Seq<Vec<u8>>,
        metadata: Seq<FrameMeta>,
        n: int,
        header: WalHeader,
        pages: Seq<(u32, Seq<u8>)>,
        last: u32,
        c: (int, int),
        first: int,
    ) -> bool {
        &&& bufs.len() == n
        &&& metadata.len() == n
        &&& forall|k: int|
            #![trigger bufs[k]]
            0 <= k < n ==> bufs[k]@ == frame_bytes(
                header,
                batch_checksum(header, pages, last, c, k as nat),
                pages[k].0,
                size_in_frame(pages.len(), k, last),
                pages[k].1,
            )
        &&& forall|k: int|
            #![trigger metadata[k]]
            0 <= k < n ==> {
                &&& metadata[k].page_id == pages[k].0
                &&& metadata[k].frame_id == first + k
                &&& ints(metadata[k].checksum) == batch_checksum(
                    header,
                    pages,
                    last,
                    c,
                    (k + 1) as nat,
                )
            }
    }

    /// The batch is that of `pages`, chained from checksum `c`, with numbers from `first` on.
    pub open spec fn is_batch_of(
        &self,
        s: SharedView,
        pages: Seq<(u32, Seq<u8>)>,
        last: u32,
        c: (u32, u32),
        first: int,
    ) -> bool {
        &&& PreparedFrames::holds(
            self.bufs@,
            self.metadata@,
            pages.len() as int,
            s.header,
            pages,
            last,
            ints(c),
            first,
        )
        &&& self.offset == frame_position(first, s.header.page_size as int)
        &&& ints(self.final_checksum) == batch_checksum(
            s.header,
            pages,
            last,
            ints(c),
            pages.len(),
        )
        &&& self.final_max_frame == first + pages.len() - 1
        &&& self.epoch == s.epoch
    }
}

/// The index after the frames of a batch were added.
pub open spec fn with_frames(frames: Frames, metadata: Seq<FrameMeta>) -> Frames
    decreases metadata.len(),
{
    if metadata.len() == 0 {
        frames
    } else {
        with_frame(
            with_frames(frames, metadata.drop_last()),
            metadata.last().page_id as u64,
            metadata.last().frame_id,
        )
    }
}

/// The index after the frames of several batches were added.
pub open spec fn with_batches(frames: Frames, batches: Seq<PreparedFrames>) -> Frames
    decreases batches.len(),
{
    if batches.len() == 0 {
        frames
    } else {
        with_frames(with_batches(frames, batches.drop_last()), batches.last().metadata@)
    }
}

/// A batch that follows another, as part of the same transaction, has the checksums that
/// it would have if both were one batch: where a batch ends does not show in the log.
pub proof fn law_batches_chain(
    header: WalHeader,
    a: Seq<(u32, Seq<u8>)>,
    b: Seq<(u32, Seq<u8>)>,
    last: u32,
    c: (int, int),
    k: nat,
)
    requires
        k <= b.len(),
        b.len() > 0,
    ensures
        batch_checksum(header, a + b, last, c, a.len() + k) == batch_checksum(
            header,
            b,
            last,
            batch_checksum(header, a, 0, c, a.len()),
            k,
        ),
    decreases k,
{
    if k == 0 {
        lemma_batch_prefix(header, a, b, last, c, a.len());
    } else {
        law_batches_chain(header, a, b, last, c, (k - 1) as nat);
        let n = a.len() + k;
        assert((n - 1) as nat == a.len() + (k - 1) as nat);
        assert((a + b)[n - 1] == b[k - 1]);
        assert(size_in_frame((a + b).len(), n - 1, last) == size_in_frame(b.len(), k - 1, last));
    }
}

proof fn lemma_batch_prefix(
    header: WalHeader,
    a: Seq<(u32, Seq<u8>)>,
    b: Seq<(u32, Seq<u8>)>,
    last: u32,
    c: (int, int),
    k: nat,
)
    requires
        k <= a.len(),
        b.len() > 0,
    ensures
        batch_checksum(header, a + b, last, c, k) == batch_checksum(header, a, 0, c, k),
    decreases k,
{
    if k > 0 {
        lemma_batch_prefix(header, a, b, last, c, (k - 1) as nat);
        assert((a + b)[k - 1] == a[k - 1]);
    }
}

/// What is to be done to write a raw frame.
#[derive(Debug)]
pub enum RawFrameStep {
    /// The log's header has to be on disk first.
    PrepareHeader,
    /// The frame is in the log: its page, at this offset, has to be compared.
    Compare { offset: u64, len: usize },
    /// The frame is to be written at this offset.
    Append { offset: u64, frame: Vec<u8>, checksum: (u32, u32) },
}

impl WalFile {
    /// Where a frame starts in the log's file.
    pub fn frame_offset(&self, shared: &WalFileShared, frame_id: u64) -> (r: u64)
        requires
            frame_id >= 1,
            frame_position(frame_id as int, shared@.header.page_size as int) <= u64::MAX,
        ensures
            r == frame_position(frame_id as int, shared@.header.page_size as int),
    {
        let frame_size: u64 = shared.page_size() as u64 + WAL_FRAME_HEADER_SIZE as u64;
        assert(0 <= (frame_id - 1) * frame_size) by (nonlinear_arith)
            requires
                frame_id >= 1,
        ;
        WAL_HEADER_SIZE as u64 + (frame_id - 1) * frame_size
    }

    /// The first step of an append: builds the frames of up to 1024 pages, without changing
    /// the log. The first batch of a transaction goes on from the connection's state, a
    /// later one from the batch before it. The last frame carries the database size, if
    /// the batch commits. The caller writes and syncs the frames before it makes
    /// them visible.
    pub fn prepare_frames(
        &self,
        shared: &WalFileShared,
        pages: &Vec<FrameInput>,
        page_sz: PageSize,
        db_size_on_commit: Option<u32>,
        prev: Option<&PreparedFrames>,
    ) -> (r: PreparedFrames)
        requires
            pages@.len() <= IOV_MAX,
            shared@.initialized,
            page_sz.valid(),
            shared@.header.page_size == page_sz.bytes(),
            forall|i: int| 0 <= i < pages@.len() ==> (#[trigger] pages@[i]).data@.len() == page_sz.bytes(),
            ({
                let first = 1 + (match prev {
                    Some(p) => p.final_max_frame,
                    None => self.max_frame,
                });
                &&& first + pages@.len() <= u64::MAX
                &&& frame_position(first as int, page_sz.bytes()) <= u64::MAX
            }),
        ensures
            r.is_batch_of(
                shared@,
                inputs(pages@),
                match db_size_on_commit {
                    Some(n) => n,
                    None => 0,
                },
                match prev {
                    Some(p) => p.final_checksum,
                    None => self.last_checksum,
                },
                1 + (match prev {
                    Some(p) => p.final_max_frame,
                    None => self.max_frame,
                }),
            ),
    {
        let header = shared.wal_header;
        let epoch: u32 = shared.epoch;
        let (start_checksum, start_frame) = match prev {
            Some(p) => (p.final_checksum, p.final_max_frame),
            None => (self.last_checksum, self.max_frame),
        };
        let last: u32 = match db_size_on_commit {
            Some(n) => n,
            None => 0,
        };
        let first_frame_id: u64 = start_frame + 1;
        let mut rolling_checksum: (u32, u32) = start_checksum;
        let mut next_frame_id: u64 = first_frame_id;
        let mut bufs: Vec<Vec<u8>> = Vec::new();
        let mut metadata: Vec<FrameMeta> = Vec::new();
        let ghost all = inputs(pages@);
        let mut idx: usize = 0;
        while idx < pages.len()
            invariant
                idx <= pages@.len(),
                all == inputs(pages@),
                header == shared@.header,
                page_sz.valid(),
                forall|i: int|
                    0 <= i < pages@.len() ==> (#[trigger] pages@[i]).data@.len() == page_sz.bytes(),
                first_frame_id + pages@.len() <= u64::MAX,
                next_frame_id == first_frame_id + idx,
                ints(rolling_checksum) == batch_checksum(
                    header,
                    all,
                    last,
                    ints(start_checksum),
                    idx as nat,
                ),
                PreparedFrames::holds(
                    bufs@,
                    metadata@,
                    idx as int,
                    header,
                    all,
                    last,
                    ints(start_checksum),
                    first_frame_id as int,
                ),
            decreases pages@.len() - idx,
        {
            let frame_db_size: u32 = if idx + 1 == pages.len() {
                last
            } else {
                0
            };
            assert(pages@[idx as int]@ == all[idx as int]);
            assert(page_sz.bytes() % 8 == 0);
            let (checksum, frame_buf) = prepare_wal_frame(
                &header,
                rolling_checksum,
                pages[idx].page_id,
                frame_db_size,
                pages[idx].data.as_slice(),
            );
            bufs.push(frame_buf);
            metadata.push(
                FrameMeta { page_id: pages[idx].page_id, frame_id: next_frame_id, checksum },
            );
            rolling_checksum = checksum;
            next_frame_id = next_frame_id + 1;
            idx = idx + 1;
        }
        let offset: u64 = self.frame_offset(shared, first_frame_id);
        PreparedFrames {
            offset,
            bufs,
            metadata,
            final_checksum: rolling_checksum,
            final_max_frame: next_frame_id - 1,
            epoch,
        }
    }

    /// Adds a frame to the index and moves the connection on to it.
    pub fn complete_append_frame(
        &mut self,
        shared: &mut WalFileShared,
        page_id: u64,
        frame_id: u64,
        checksums: (u32, u32),
    )
        ensures
            *final(self) == (WalFile {
                last_checksum: checksums,
                max_frame: frame_id,
                ..*old(self)
            }),
            final(shared)@ == (SharedView {
                frames: with_frame(old(shared)@.frames, page_id, frame_id),
                ..old(shared)@
            }),
    {
        self.last_checksum = checksums;
        self.max_frame = frame_id;
        let ghost before = shared@;
        shared.frame_cache.append(page_id, frame_id);
        assert(shared@ =~= (SharedView {
            frames: with_frame(before.frames, page_id, frame_id),
            ..before
        }));
    }

    /// Adds the frames of one batch to the index.
    fn complete_batch(&mut self, shared: &mut WalFileShared, metadata: &Vec<FrameMeta>)
        ensures
            *final(self) == (if metadata@.len() == 0 {
                *old(self)
            } else {
                (WalFile {
                    last_checksum: metadata@.last().checksum,
                    max_frame: metadata@.last().frame_id,
                    ..*old(self)
                })
            }),
            final(shared)@ == (SharedView {
                frames: with_frames(old(shared)@.frames, metadata@),
                ..old(shared)@
            }),
    {
        let ghost before = shared@;
        let mut i: usize = 0;
        assert(metadata@.take(0) =~= Seq::empty());
        assert(shared@ =~= (SharedView { frames: before.frames, ..before }));
        while i < metadata.len()
            invariant
                i <= metadata@.len(),
                *self == (if i == 0 {
                    *old(self)
                } else {
                    (WalFile {
                        last_checksum: metadata@[i - 1].checksum,
                        max_frame: metadata@[i - 1].frame_id,
                        ..*old(self)
                    })
                }),
                shared@ == (SharedView {
                    frames: with_frames(before.frames, metadata@.take(i as int)),
                    ..before
                }),
            decreases metadata@.len() - i,
        {
            let m = metadata[i];
            assert(metadata@.take(i + 1).drop_last() =~= metadata@.take(i as int));
            self.complete_append_frame(shared, m.page_id as u64, m.frame_id, m.checksum);
            i = i + 1;
        }
        assert(metadata@.take(metadata@.len() as int) =~= metadata@);
    }

    /// The last step of an append, once the frames are on disk: adds them to the index and
    /// moves the connection on to them.
    pub fn commit_prepared_frames(
        &mut self,
        shared: &mut WalFileShared,
        prepared: &Vec<PreparedFrames>,
    )
        ensures
            *final(self) == (if prepared@.len() == 0 {
                *old(self)
            } else {
                (WalFile {
                    last_checksum: prepared@.last().final_checksum,
                    max_frame: prepared@.last().final_max_frame,
                    ..*old(self)
                })
            }),
            final(shared)@ == (SharedView {
                frames: with_batches(old(shared)@.frames, prepared@),
                ..old(shared)@
            }),
    {
        let ghost before = shared@;
        let mut i: usize = 0;
        assert(prepared@.take(0) =~= Seq::empty());
        assert(shared@ =~= (SharedView { frames: before.frames, ..before }));
        while i < prepared.len()
            invariant
                i <= prepared@.len(),
                *self == (if i == 0 {
                    *old(self)
                } else {
                    (WalFile {
                        last_checksum: prepared@[i - 1].final_checksum,
                        max_frame: prepared@[i - 1].final_max_frame,
                        ..*old(self)
                    })
                }),
                shared@ == (SharedView {
                    frames: with_batches(before.frames, prepared@.take(i as int)),
                    ..before
                }),
            decreases prepared@.len() - i,
        {
            assert(prepared@.take(i + 1).drop_last() =~= prepared@.take(i as int));
            self.complete_batch(shared, &prepared[i].metadata);
            self.last_checksum = prepared[i].final_checksum;
            self.max_frame = prepared[i].final_max_frame;
            i = i + 1;
        }
        assert(prepared@.take(prepared@.len() as int) =~= prepared@);
    }

    /// Appends frames outside of a commit, as a spill does: builds them and adds
    /// them to the index at once. The caller writes them.
    pub fn append_frames_vectored(
        &mut self,
        shared: &mut WalFileShared,
        pages: &Vec<FrameInput>,
        page_sz: PageSize,
    ) -> (r: PreparedFrames)
        requires
            pages@.len() <= IOV_MAX,
            old(shared)@.initialized,
            page_sz.valid(),
            old(shared)@.header.page_size == page_sz.bytes(),
            forall|i: int| 0 <= i < pages@.len() ==> (#[trigger] pages@[i]).data@.len() == page_sz.bytes(),
            old(self).max_frame + 1 + pages@.len() <= u64::MAX,
            frame_position(old(self).max_frame + 1, page_sz.bytes()) <= u64::MAX,
        ensures
            r.is_batch_of(
                old(shared)@,
                inputs(pages@),
                0,
                old(self).last_checksum,
                old(self).max_frame + 1,
            ),
            *final(self) == (WalFile {
                last_checksum: r.final_checksum,
                max_frame: r.final_max_frame,
                ..*old(self)
            }),
            final(shared)@ == (SharedView {
                frames: with_frames(old(shared)@.frames, r.metadata@),
                ..old(shared)@
            }),
    {
        let prepared = self.prepare_frames(shared, pages, page_sz, None, None);
        self.complete_batch(shared, &prepared.metadata);
        self.last_checksum = prepared.final_checksum;
        self.max_frame = prepared.final_max_frame;
        prepared
    }

    /// Makes the appended frames the end of the log for everybody.
    pub fn finish_append_frames_commit(&mut self, shared: &mut WalFileShared)
        requires
            old(self).transaction_count < u64::MAX,
        ensures
            *final(self) == (WalFile {
                transaction_count: (old(self).transaction_count + 1) as u64,
                ..*old(self)
            }),
            final(shared)@ == (SharedView {
                max_frame: old(self).max_frame,
                last_checksum: old(self).last_checksum,
                transaction_count: (old(self).transaction_count + 1) as u64,
                ..old(shared)@
            }),
    {
        let ghost before = shared@;
        shared.max_frame = self.max_frame;
        shared.last_checksum = self.last_checksum;
        self.transaction_count = self.transaction_count + 1;
        shared.transaction_count = self.transaction_count;
        assert(shared@.slots =~= before.slots);
    }

    /// Drops everything about locks and checkpoints that the connection remembers.
    pub fn reset_internal_states(&mut self)
        ensures
            *final(self) == (WalFile {
                max_frame_read_lock_index: NO_LOCK_HELD,
                syncing: false,
                ongoing_checkpoint: final(self).ongoing_checkpoint,
                ..*old(self)
            }),
            final(self).ongoing_checkpoint@ == OngoingView::idle(),
            final(self).wf(),
    {
        self.max_frame_read_lock_index = NO_LOCK_HELD;
        self.ongoing_checkpoint.reset();
        self.syncing = false;
    }

    /// Takes back the frames that were appended after the given one; without one, those
    /// that were not committed.
    pub fn rollback(&mut self, shared: &mut WalFileShared, rollback_to: Option<RollbackTo>)
        ensures
            ({
                let (frame, checksum) = match rollback_to {
                    Some(to) => (to.frame, to.checksum),
                    None => (old(shared)@.max_frame, old(shared)@.last_checksum),
                };
                &&& *final(self) == (WalFile {
                    max_frame: frame,
                    last_checksum: checksum,
                    max_frame_read_lock_index: NO_LOCK_HELD,
                    syncing: false,
                    ongoing_checkpoint: final(self).ongoing_checkpoint,
                    ..*old(self)
                })
                &&& final(shared)@ == (SharedView {
                    frames: rolled_back(old(shared)@.frames, frame),
                    ..old(shared)@
                })
            }),
            final(self).ongoing_checkpoint@ == OngoingView::idle(),
            final(self).wf(),
    {
        let (max_frame, last_checksum) = match rollback_to {
            Some(to) => (to.frame, to.checksum),
            None => (shared.max_frame, shared.last_checksum),
        };
        let ghost before = shared@;
        shared.frame_cache.roll_back(max_frame);
        assert(shared@ =~= (SharedView {
            frames: rolled_back(before.frames, max_frame),
            ..before
        }));
        self.last_checksum = last_checksum;
        self.max_frame = max_frame;
        self.reset_internal_states();
    }

    /// Gives up a checkpoint under way and its locks.
    pub fn abort_checkpoint(&mut self, shared: &mut WalFileShared)
        requires
            old(shared)@.wf(),
            old(self).checkpoint_guard matches Some(g) ==> g.held(old(shared)@),
        ensures
            final(shared)@.wf(),
            final(shared)@ == (match old(self).checkpoint_guard {
                Some(g) => g.given_up(old(shared)@),
                None => old(shared)@,
            }),
            *final(self) == (WalFile {
                checkpoint_guard: None,
                max_frame_read_lock_index: NO_LOCK_HELD,
                syncing: false,
                ongoing_checkpoint: final(self).ongoing_checkpoint,
                ..*old(self)
            }),
            final(self).ongoing_checkpoint@ == OngoingView::idle(),
            final(self).wf(),
    {
        if let Some(guard) = self.checkpoint_guard.take() {
            guard.release(shared);
        }
        self.reset_internal_states();
    }

    /// The header for a log that starts now: the magic number of this machine, the page
    /// size and the salts unless they are set, and the checksum that belongs to these.
    pub open spec fn started_header(
        header: WalHeader,
        page_size: u32,
        big_endian: bool,
        salts: (u32, u32),
    ) -> WalHeader {
        let fresh = header.salt_1 == 0 && header.salt_2 == 0;
        WalHeader {
            magic: if big_endian {
                WAL_MAGIC_BE
            } else {
                WAL_MAGIC_LE
            },
            page_size: if header.page_size == 0 {
                page_size
            } else {
                header.page_size
            },
            salt_1: if fresh {
                salts.0
            } else {
                header.salt_1
            },
            salt_2: if fresh {
                salts.1
            } else {
                header.salt_2
            },
            ..header
        }.sealed()
    }

    /// Makes the log's header ready for the first frame, unless it is on disk already,
    /// and gives the bytes that are to be written at the start of the log's file.
    /// `salts` are random numbers.
    pub fn prepare_wal_start(
        &mut self,
        shared: &mut WalFileShared,
        page_size: PageSize,
        big_endian: bool,
        salts: (u32, u32),
    ) -> (r: Option<Vec<u8>>)
        requires
            page_size.valid(),
        ensures
            old(shared)@.initialized ==> {
                &&& r is None
                &&& final(shared)@ == old(shared)@
                &&& *final(self) == *old(self)
            },
            !old(shared)@.initialized ==> {
                let header = WalFile::started_header(
                    old(shared)@.header,
                    page_size.bytes() as u32,
                    big_endian,
                    salts,
                );
                &&& r matches Some(bytes) && bytes@ == header.encoded()
                &&& final(shared)@ == (SharedView {
                    header,
                    last_checksum: (header.checksum_1, header.checksum_2),
                    ..old(shared)@
                })
                &&& *final(self) == (WalFile {
                    last_checksum: (header.checksum_1, header.checksum_2),
                    max_frame: 0,
                    ..*old(self)
                })
            },
    {
        if shared.initialized {
            return None;
        }
        let ghost before = shared@;
        let mut hdr = shared.wal_header;
        hdr.magic = if big_endian {
            WAL_MAGIC_BE
        } else {
            WAL_MAGIC_LE
        };
        if hdr.page_size == 0 {
            hdr.page_size = page_size.get();
        }
        if hdr.salt_1 == 0 && hdr.salt_2 == 0 {
            hdr.salt_1 = salts.0;
            hdr.salt_2 = salts.1;
        }
        let (c1, c2) = hdr.compute_checksum();
        hdr.checksum_1 = c1;
        hdr.checksum_2 = c2;
        shared.wal_header = hdr;
        shared.last_checksum = (c1, c2);
        self.last_checksum = (c1, c2);
        self.max_frame = 0;
        assert(shared@.slots =~= before.slots);
        Some(hdr.as_bytes())
    }

    /// Notes that the log's header is on disk.
    pub fn prepare_wal_finish(&self, shared: &mut WalFileShared)
        ensures
            final(shared)@ == (SharedView { initialized: true, ..old(shared)@ }),
    {
        let ghost before = shared@;
        shared.initialized = true;
        assert(shared@.slots =~= before.slots);
    }

    /// Begins to read a frame into a page: locks the page, and gives where in the log's
    /// file the page's bytes are.
    pub fn read_frame(&self, shared: &WalFileShared, frame_id: u64, page: &mut Page) -> (r: u64)
        requires
            shared@.enabled,
            frame_id >= 1,
            frame_position(frame_id as int, shared@.header.page_size as int)
                + WAL_FRAME_HEADER_SIZE <= u64::MAX,
        ensures
            r == frame_position(frame_id as int, shared@.header.page_size as int)
                + WAL_FRAME_HEADER_SIZE,
            final(page)@ == (PageView { locked: true, ..old(page)@ }),
    {
        let offset: u64 = self.frame_offset(shared, frame_id);
        page.set_locked();
        offset + WAL_FRAME_HEADER_SIZE as u64
    }

    /// Ends a read of a frame into a page. If all bytes are there the page is loaded and
    /// tagged with the frame; otherwise it is only unlocked.
    pub fn complete_read_frame(
        shared: &WalFileShared,
        frame_id: u64,
        offset: u64,
        page: &mut Page,
        res: Result<(Vec<u8>, usize), CompletionError>,
    ) -> (r: Result<(), CompletionError>)
        ensures
            match res {
                Err(e) => {
                    &&& r == Err::<(), CompletionError>(e)
                    &&& final(page)@ == (PageView {
                        locked: false,
                        wal_tag: crate::page::TAG_UNSET,
                        ..old(page)@
                    })
                },
                Ok((buf, bytes_read)) => if bytes_read != buf@.len() {
                    &&& r == Err::<(), CompletionError>(
                        CompletionError::ShortReadWalFrame {
                            offset,
                            expected: buf@.len() as usize,
                            actual: bytes_read,
                        },
                    )
                    &&& final(page)@ == (PageView {
                        locked: false,
                        wal_tag: crate::page::TAG_UNSET,
                        ..old(page)@
                    })
                } else {
                    &&& r == Ok::<(), CompletionError>(())
                    &&& final(page)@ == (PageView {
                        locked: false,
                        loaded: true,
                        buffer: Some(buf@),
                        ..old(page)@
                    }).tagged(frame_id, shared@.epoch)
                },
            },
    {
        match res {
            Err(e) => {
                page.clear_locked();
                page.clear_wal_tag();
                Err(e)
            },
            Ok((buf, bytes_read)) => {
                let buf_len: usize = buf.len();
                if bytes_read != buf_len {
                    page.clear_locked();
                    page.clear_wal_tag();
                    return Err(
                        CompletionError::ShortReadWalFrame {
                            offset,
                            expected: buf_len,
                            actual: bytes_read,
                        },
                    );
                }
                page.finish_read(buf);
                page.set_wal_tag(frame_id, shared.epoch);
                Ok(())
            },
        }
    }

    /// Where in the log's file a raw frame, header and page, is to be read.
    pub fn read_frame_raw(&self, shared: &WalFileShared, frame_id: u64) -> (r: u64)
        requires
            shared@.enabled,
            frame_id >= 1,
            frame_position(frame_id as int, shared@.header.page_size as int) <= u64::MAX,
        ensures
            r == frame_position(frame_id as int, shared@.header.page_size as int),
    {
        self.frame_offset(shared, frame_id)
    }

    /// Ends a read of a raw frame: copies the frame, and gives its header. If bytes are
    /// missing, nothing is copied.
    pub fn complete_read_frame_raw(
        offset: u64,
        frame: &mut Vec<u8>,
        res: Result<(Vec<u8>, usize), CompletionError>,
    ) -> (r: Result<WalFrameHeader, CompletionError>)
        requires
            old(frame)@.len() >= WAL_FRAME_HEADER_SIZE,
            res matches Ok((buf, _)) ==> buf@.len() >= old(frame)@.len(),
        ensures
            match res {
                Err(e) => {
                    &&& r == Err::<WalFrameHeader, CompletionError>(e)
                    &&& final(frame)@ == old(frame)@
                },
                Ok((buf, bytes_read)) => if bytes_read != buf@.len() {
                    &&& r == Err::<WalFrameHeader, CompletionError>(
                        CompletionError::ShortReadWalFrame {
                            offset,
                            expected: buf@.len() as usize,
                            actual: bytes_read,
                        },
                    )
                    &&& final(frame)@ == old(frame)@
                } else {
                    &&& final(frame)@ == buf@.take(old(frame)@.len() as int)
                    &&& r == Ok::<WalFrameHeader, CompletionError>(
                        WalFrameHeader::decoded(final(frame)@),
                    )
                },
            },
    {
        match res {
            Err(e) => Err(e),
            Ok((buf, bytes_read)) => {
                let expected: usize = buf.len();
                if bytes_read != expected {
                    return Err(
                        CompletionError::ShortReadWalFrame { offset, expected, actual: bytes_read },
                    );
                }
                let len: usize = frame.len();
                *frame = copy_range(buf.as_slice(), 0, len);
                assert(frame@ =~= buf@.take(len as int));
                Ok(parse_wal_frame_header(frame.as_slice()))
            },
        }
    }

    /// Puts the decrypted page in place of the one in a raw frame.
    pub fn decrypted_frame_raw(frame: &mut Vec<u8>, page: &Vec<u8>)
        requires
            old(frame)@.len() == WAL_FRAME_HEADER_SIZE + page@.len(),
        ensures
            final(frame)@ == old(frame)@.take(WAL_FRAME_HEADER_SIZE as int) + page@,
    {
        let ghost before = frame@;
        let mut out: Vec<u8> = copy_range(frame.as_slice(), 0, WAL_FRAME_HEADER_SIZE);
        let mut i: usize = 0;
        while i < page.len()
            invariant
                i <= page@.len(),
                before.len() >= WAL_FRAME_HEADER_SIZE,
                out@ =~= before.take(WAL_FRAME_HEADER_SIZE as int) + page@.take(i as int),
            decreases page@.len() - i,
        {
            out.push(page[i]);
            i += 1;
        }
        assert(page@.take(i as int) =~= page@);
        *frame = out;
    }

    /// How a raw frame is written.
    pub open spec fn raw_frame_step(
        &self,
        s: SharedView,
        frame_id: u64,
        page_id: u32,
        db_size: u32,
        page: Seq<u8>,
        r: Result<RawFrameStep, LimboError>,
    ) -> bool {
        if !is_page_size(page.len() as int) {
            r matches Err(e) && e == LimboError::Corrupt(
                Corruption::InvalidPageSize { len: page.len() as usize },
            )
        } else if !s.initialized {
            r matches Ok(RawFrameStep::PrepareHeader)
        } else if s.header.page_size != 0 && page.len() != s.header.page_size {
            r matches Err(e) && e == LimboError::InvalidArgument(
                BadArgument::FramePageSize {
                    got: page.len() as usize,
                    expected: s.header.page_size,
                },
            )
        } else if frame_id > self.max_frame + 1 {
            r matches Err(e) && e == LimboError::InvalidArgument(
                BadArgument::FrameBeyondNext { frame_id, max_frame: self.max_frame },
            )
        } else if frame_id <= self.max_frame {
            r matches Ok(RawFrameStep::Compare { offset, len }) && offset == frame_position(
                frame_id as int,
                s.header.page_size as int,
            ) + WAL_FRAME_HEADER_SIZE && len == page.len()
        } else {
            r matches Ok(RawFrameStep::Append { offset, frame, checksum }) && offset
                == frame_position(frame_id as int, s.header.page_size as int) && frame@
                == frame_bytes(
                s.header,
                ints(self.last_checksum),
                page_id,
                db_size,
                page,
            ) && ints(checksum) == frame_checksum(
                s.header,
                ints(self.last_checksum),
                page_id,
                db_size,
                page,
            )
        }
    }

    /// Decides how a raw frame is written. It has to hold a page of the log's size and to
    /// leave no gap; a frame that is in the log already must hold the same page.
    pub fn write_frame_raw(
        &self,
        shared: &WalFileShared,
        frame_id: u64,
        page_id: u32,
        db_size: u32,
        page: &Vec<u8>,
    ) -> (r: Result<RawFrameStep, LimboError>)
        requires
            frame_id >= 1,
            self.max_frame < u64::MAX,
            frame_position(self.max_frame + 1, shared@.header.page_size as int) <= u64::MAX,
        ensures
            self.raw_frame_step(shared@, frame_id, page_id, db_size, page@, r),
    {
        let len: usize = page.len();
        if len > 0xffff_ffff {
            return Err(LimboError::Corrupt(Corruption::InvalidPageSize { len }));
        }
        if PageSize::new(len as u32).is_none() {
            return Err(LimboError::Corrupt(Corruption::InvalidPageSize { len }));
        }
        if !shared.initialized {
            return Ok(RawFrameStep::PrepareHeader);
        }
        let expected: u32 = shared.page_size();
        if expected != 0 && len != expected as usize {
            return Err(
                LimboError::InvalidArgument(BadArgument::FramePageSize { got: len, expected }),
            );
        }
        if frame_id > self.max_frame + 1 {
            return Err(
                LimboError::InvalidArgument(
                    BadArgument::FrameBeyondNext { frame_id, max_frame: self.max_frame },
                ),
            );
        }
        proof {
            lemma_earlier_frame(
                frame_id as int,
                self.max_frame + 1,
                shared@.header.page_size as int,
            );
        }
        let offset: u64 = self.frame_offset(shared, frame_id);
        if frame_id <= self.max_frame {
            return Ok(RawFrameStep::Compare { offset: offset + WAL_FRAME_HEADER_SIZE as u64, len });
        }
        assert(page@.len() % 8 == 0);
        let (checksum, frame) = prepare_wal_frame(
            &shared.wal_header,
            self.last_checksum,
            page_id,
            db_size,
            page.as_slice(),
        );
        Ok(RawFrameStep::Append { offset, frame, checksum })
    }

    /// Compares the page of a raw frame with the one that was read from the log.
    pub fn compare_frame_raw(
        frame_id: u64,
        offset: u64,
        page: &Vec<u8>,
        res: Result<(Vec<u8>, usize), CompletionError>,
    ) -> (r: Result<(), LimboError>)
        ensures
            r == (match res {
                Err(e) => Err::<(), LimboError>(LimboError::CompletionError(e)),
                Ok((buf, bytes_read)) => if bytes_read != buf@.len() {
                    Err::<(), LimboError>(
                        LimboError::CompletionError(
                            CompletionError::ShortReadWalFrame {
                                offset,
                                expected: buf@.len() as usize,
                                actual: bytes_read,
                            },
                        ),
                    )
                } else if buf@ != page@ {
                    Err::<(), LimboError>(LimboError::Conflict { frame_id })
                } else {
                    Ok::<(), LimboError>(())
                },
            }),
    {
        match res {
            Err(e) => Err(LimboError::CompletionError(e)),
            Ok((buf, bytes_read)) => {
                let expected: usize = buf.len();
                if bytes_read != expected {
                    return Err(
                        LimboError::CompletionError(
                            CompletionError::ShortReadWalFrame {
                                offset,
                                expected,
                                actual: bytes_read,
                            },
                        ),
                    );
                }
                if bytes_equal(buf.as_slice(), page.as_slice()) {
                    Ok(())
                } else {
                    Err(LimboError::Conflict { frame_id })
                }
            },
        }
    }

    /// Ends the write of a raw frame: adds it to the index and, if it carries a database
    /// size, commits.
    pub fn finish_frame_raw(
        &mut self,
        shared: &mut WalFileShared,
        frame_id: u64,
        page_id: u32,
        db_size: u32,
        checksum: (u32, u32),
    )
        requires
            old(self).transaction_count < u64::MAX,
        ensures
            ({
                let w = WalFile { last_checksum: checksum, max_frame: frame_id, ..*old(self) };
                let s = SharedView {
                    frames: with_frame(old(shared)@.frames, page_id as u64, frame_id),
                    ..old(shared)@
                };
                if db_size > 0 {
                    &&& *final(self) == (WalFile {
                        transaction_count: (w.transaction_count + 1) as u64,
                        ..w
                    })
                    &&& final(shared)@ == (SharedView {
                        max_frame: frame_id,
                        last_checksum: checksum,
                        transaction_count: (w.transaction_count + 1) as u64,
                        ..s
                    })
                } else {
                    &&& *final(self) == w
                    &&& final(shared)@ == s
                }
            }),
    {
        self.complete_append_frame(shared, page_id as u64, frame_id, checksum);
        if db_size > 0 {
            self.finish_append_frames_commit(shared);
        }
    }

    /// The distinct pages among the frames after the watermark, which were read from
    /// the log up to the last one that the connection reads.
    pub fn changed_pages_after(&self, frame_watermark: u64, frames: &Vec<Vec<u8>>) -> (r: Vec<u32>)
        requires
            frame_watermark <= self.max_frame,
            frames@.len() == self.max_frame - frame_watermark,
            forall|i: int|
                0 <= i < frames@.len() ==> (#[trigger] frames@[i])@.len() >= WAL_FRAME_HEADER_SIZE,
        ensures
            r@ == first_occurrences(
                Seq::new(
                    frames@.len(),
                    |i: int| WalFrameHeader::decoded(frames@[i]@).page_number,
                ),
            ),
    {
        let mut pages: Vec<u32> = Vec::new();
        let mut i: usize = 0;
        while i < frames.len()
            invariant
                i <= frames@.len(),
                forall|j: int|
                    0 <= j < frames@.len() ==> (#[trigger] frames@[j])@.len()
                        >= WAL_FRAME_HEADER_SIZE,
                pages@.len() == i,
                forall|j: int|
                    #![trigger pages@[j]]
                    0 <= j < i ==> pages@[j] == WalFrameHeader::decoded(frames@[j]@).page_number,
            decreases frames@.len() - i,
        {
            let header = parse_wal_frame_header(frames[i].as_slice());
            pages.push(header.page_number);
            i = i + 1;
        }
        assert(pages@ =~= Seq::new(
            frames@.len(),
            |i: int| WalFrameHeader::decoded(frames@[i]@).page_number,
        ));
        distinct_pages(&pages)
    }
}

/// An earlier frame lies earlier in the log.
pub proof fn lemma_earlier_frame(a: int, b: int, page_size: int)
    requires
        1 <= a <= b,
        0 <= page_size,
    ensures
        32 <= frame_position(a, page_size) <= frame_position(b, page_size),
        a < b ==> frame_position(a, page_size) + page_size + 24 <= frame_position(b, page_size),
{
    let n = page_size + 24;
    assert(0 <= (a - 1) * n <= (b - 1) * n) by (nonlinear_arith)
        requires
            1 <= a <= b,
            0 < n,
    ;
    if a < b {
        assert((a - 1) * n + n <= (b - 1) * n) by (nonlinear_arith)
            requires
                1 <= a < b,
                0 < n,
        ;
    }
}

} // verus!
