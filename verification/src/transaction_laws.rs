//! What a transaction sees when it begins, and what it leaves when it ends.

use vstd::prelude::*;
use crate::bytes::{be32, be32_bytes, lemma_be32_at};
use crate::checkpoint_state::CheckpointMode;
use crate::commit::{CommitMode, CommitStep};
use crate::commit_tx::{CommitTxStep, TxResult};
use crate::error::LimboError;
use crate::frame_index::{ascending, law_find_gives_the_latest, law_rollback_keeps_older_frames,
    page_frame};
use crate::page_cache::PageMap;
use crate::pager::PagerView;
use crate::pager_checkpoint::CheckpointArgs;
use crate::pager_state::{AllocatePageState, FreePageState, IOResult, IoOutcome};
use crate::rwlock::{NO_LOCK_HELD, READMARK_NOT_USED};
use crate::transaction::all_unpinned;
use crate::wal::{backoff_after, lemma_best_slot, lemma_busy_elsewhere, lemma_first_busy,
    lemma_first_free, ReadBackoff, Snapshot, WalFile};
use crate::wal_append::FrameInput;
use crate::wal_format::{checksum_all, WalHeader, WAL_MAGIC_BE, WAL_MAGIC_LE};
use crate::wal_shared::{SharedView, READ_SLOTS};

verus! {

/// A reader that begins reads up to the log's end, from the first frame that is not in the database
/// file: it finds a page in the latest of its frames there, and not in the log if it has none.
pub proof fn law_reader_reads_up_to_the_end(w: WalFile, s: SharedView, slot: usize, page: u64)
    requires
        s.nbackfills < u64::MAX,
        ascending(s.frames),
    ensures
        ({
            let reader = w.reading(Snapshot::of(s), slot);
            &&& reader.max_frame == s.max_frame
            &&& reader.min_frame == s.nbackfills + 1
            &&& reader.max_frame_read_lock_index == slot
            &&& match reader.found_frame(s, page, None) {
                Some(f) => {
                    &&& s.frames.contains_key(page) && s.frames[page].contains(f)
                    &&& s.nbackfills < f <= s.max_frame
                    &&& forall|g: u64|
                        s.frames[page].contains(g) && g <= s.max_frame ==> g <= f
                },
                None => s.frames.contains_key(page) ==> forall|g: u64|
                    s.frames[page].contains(g) ==> !(s.nbackfills < g <= s.max_frame),
            }
        }),
{
    law_find_gives_the_latest(s.frames, page, (s.nbackfills + 1) as u64, s.max_frame);
}

/// With a watermark, a page is found in the latest of its frames up to the watermark.
pub proof fn law_watermark_bounds_the_search(w: WalFile, s: SharedView, page: u64, mark: u64)
    requires
        ascending(s.frames),
        !(w.max_frame_read_lock_index == 0 && w.max_frame < w.min_frame),
    ensures
        match w.found_frame(s, page, Some(mark)) {
            Some(f) => {
                &&& s.frames.contains_key(page) && s.frames[page].contains(f)
                &&& f <= mark
                &&& forall|g: u64| s.frames[page].contains(g) && g <= mark ==> g <= f
            },
            None => s.frames.contains_key(page) ==> forall|g: u64|
                s.frames[page].contains(g) ==> g > mark,
        },
{
    law_find_gives_the_latest(s.frames, page, 0, mark);
}

/// A connection notices every change of the log since it took note of it: a commit, a rollback
/// behind its back, frames that were copied, a log that was started over.
pub proof fn law_change_is_noticed(w: WalFile, s: SharedView, slot: usize, t: SharedView)
    requires
        s.nbackfills < u64::MAX,
    ensures
        w.reading(Snapshot::of(s), slot).sees_change(t) <==> {
            ||| t.max_frame != s.max_frame
            ||| t.last_checksum != s.last_checksum
            ||| t.header.checkpoint_seq != s.header.checkpoint_seq
            ||| t.transaction_count != s.transaction_count
            ||| t.nbackfills != s.nbackfills
        },
{
}

/// A connection becomes the writer only if nobody else is, and only if the log is as it was when the
/// connection began to read; then it holds the write lock. Otherwise nothing changes.
pub proof fn law_writer_goes_on_from_its_snapshot(
    reader: WalFile,
    seen: SharedView,
    slot: usize,
    pager: PagerView,
    s: SharedView,
    salt_2: u32,
    v: PagerView,
    t: SharedView,
    r: Result<IOResult<()>, LimboError>,
)
    requires
        seen.nbackfills < u64::MAX,
        s.wf(),
        pager.wal == Some(reader.reading(Snapshot::of(seen), slot)),
        pager.writer_begun(s, salt_2, v, t, r),
    ensures
        r is Ok <==> {
            &&& !s.write_lock.writer && s.write_lock.readers == 0
            &&& s.max_frame == seen.max_frame
            &&& s.last_checksum == seen.last_checksum
            &&& s.header.checkpoint_seq == seen.header.checkpoint_seq
            &&& s.transaction_count == seen.transaction_count
            &&& s.nbackfills == seen.nbackfills
        },
        r is Ok ==> {
            &&& v.wal is Some && v.wal->0.write_lock_held
            &&& t.write_lock.writer
            &&& v.cache == pager.cache && v.dirty == pager.dirty
            &&& t.transaction_count == s.transaction_count
        },
        r is Err ==> v == pager && t == s,
{
}

/// Rolling a writer back leaves nothing of its changes: its cache is empty, nothing is dirty, and
/// the log ends for it where it ends for everybody. No frame behind that end is in the index, and
/// every page is found as before.
pub proof fn law_rollback_leaves_no_change(
    pager: PagerView,
    s: SharedView,
    v: PagerView,
    t: SharedView,
    page: u64,
    lo: u64,
)
    requires
        pager.wal is Some,
        pager.rolled_back(s, true, v, t),
        ascending(s.frames),
    ensures
        v.cache.pages == PageMap::empty(),
        v.dirty == Set::<u32>::empty(),
        v.wal is Some && v.wal->0.max_frame == s.max_frame && v.wal->0.last_checksum
            == s.last_checksum,
        t.max_frame == s.max_frame,
        t.nbackfills == s.nbackfills,
        forall|p: u64, i: int|
            #![trigger t.frames[p][i]]
            t.frames.contains_key(p) && 0 <= i < t.frames[p].len() ==> t.frames[p][i]
                <= s.max_frame,
        page_frame(t.frames, page, lo, s.max_frame) == page_frame(
            s.frames,
            page,
            lo,
            s.max_frame,
        ),
{
    law_rollback_keeps_older_frames(s.frames, s.max_frame, page, lo, s.max_frame);
    let reset = choose|reset: PagerView| #[trigger]
        pager.without_changes(true).states_reset(reset);
    lemma_nothing_pinned();
    assert(v.cache.pages =~= PageMap::empty());
}

/// Taking pins away puts no page in an empty cache.
proof fn lemma_nothing_pinned()
    ensures
        forall|list: Seq<usize>| #[trigger]
            all_unpinned(PageMap::empty(), list) == PageMap::empty(),
{
    assert forall|list: Seq<usize>| #[trigger]
        all_unpinned(PageMap::empty(), list) == PageMap::empty() by {
        lemma_unpinned_empty(list);
    }
}

proof fn lemma_unpinned_empty(list: Seq<usize>)
    ensures
        all_unpinned(PageMap::empty(), list) == PageMap::empty(),
    decreases list.len(),
{
    if list.len() > 0 {
        lemma_unpinned_empty(list.drop_last());
    }
}

/// A transaction whose pages are committed gives up the write lock and its slot as a reader, and
/// leaves the log's frames and its end as the commit made them.
pub proof fn law_committed_transaction_lets_go(
    pager: PagerView,
    s: SharedView,
    v: PagerView,
    t: SharedView,
    r: TxResult,
)
    requires
        s.wf(),
        pager.wal is Some,
        pager.wal->0.locks_held(s),
        pager.wal->0.write_lock_held,
        pager.tx_ended(s, v, t, r),
    ensures
        v.wal is Some && !v.wal->0.write_lock_held && v.wal->0.max_frame_read_lock_index
            == NO_LOCK_HELD,
        v.wal->0.max_frame == pager.wal->0.max_frame,
        !t.write_lock.writer && t.write_lock.readers == 0,
        pager.wal->0.max_frame_read_lock_index != NO_LOCK_HELD ==> {
            let i = pager.wal->0.max_frame_read_lock_index as int;
            t.slots[i].readers + 1 == s.slots[i].readers
        },
        t.max_frame == s.max_frame,
        t.frames == s.frames,
        v.cache == pager.cache,
        v.dirty == pager.dirty,
        r matches Ok(CommitTxStep::Committed { .. }),
{
    if pager.wal->0.max_frame_read_lock_index != NO_LOCK_HELD {
        let i = pager.wal->0.max_frame_read_lock_index as int;
        assert(s.slots[i].wf());
    }
}

/// The header of a log, as it is on disk: eight numbers of four bytes, most significant byte first.
pub proof fn law_log_header_layout(header: WalHeader)
    ensures
        ({
            let bytes = header.encoded();
            &&& bytes.len() == 32
            &&& be32(bytes, 0) == header.magic
            &&& be32(bytes, 4) == header.file_format
            &&& be32(bytes, 8) == header.page_size
            &&& be32(bytes, 12) == header.checkpoint_seq
            &&& be32(bytes, 16) == header.salt_1
            &&& be32(bytes, 20) == header.salt_2
            &&& be32(bytes, 24) == header.checksum_1
            &&& be32(bytes, 28) == header.checksum_2
        }),
{
    let bytes = header.encoded();
    assert(bytes.subrange(0, 4) =~= be32_bytes(header.magic));
    assert(bytes.subrange(4, 8) =~= be32_bytes(header.file_format));
    assert(bytes.subrange(8, 12) =~= be32_bytes(header.page_size));
    assert(bytes.subrange(12, 16) =~= be32_bytes(header.checkpoint_seq));
    assert(bytes.subrange(16, 20) =~= be32_bytes(header.salt_1));
    assert(bytes.subrange(20, 24) =~= be32_bytes(header.salt_2));
    assert(bytes.subrange(24, 28) =~= be32_bytes(header.checksum_1));
    assert(bytes.subrange(28, 32) =~= be32_bytes(header.checksum_2));
    lemma_be32_at(bytes, 0, header.magic);
    lemma_be32_at(bytes, 4, header.file_format);
    lemma_be32_at(bytes, 8, header.page_size);
    lemma_be32_at(bytes, 12, header.checkpoint_seq);
    lemma_be32_at(bytes, 16, header.salt_1);
    lemma_be32_at(bytes, 20, header.salt_2);
    lemma_be32_at(bytes, 24, header.checksum_1);
    lemma_be32_at(bytes, 28, header.checksum_2);
}

/// The bytes before the checksum are those that the checksum covers.
proof fn lemma_covered(header: WalHeader)
    ensures
        header.encoded().subrange(0, 24) == header.prefix(),
{
    assert(header.prefix().len() == 24);
    assert(header.encoded().subrange(0, 24) =~= header.prefix());
}

/// A header is sealed by the checksum of its first 24 bytes, from zero on, in its last eight.
pub proof fn law_log_header_is_sealed(header: WalHeader)
    ensures
        ({
            let bytes = header.sealed().encoded();
            let (c1, c2) = checksum_all(bytes.subrange(0, 24), header.magic % 2 == 1, (0, 0));
            &&& bytes.subrange(0, 24) == header.encoded().subrange(0, 24)
            &&& be32(bytes, 24) == c1 as u32
            &&& be32(bytes, 28) == c2 as u32
        }),
{
    let sealed = header.sealed();
    lemma_covered(header);
    lemma_covered(sealed);
    assert(sealed.prefix() == header.prefix());
    law_log_header_layout(sealed);
}

/// A log that starts keeps the salts and the page size that it has, and takes those that it is given
/// only where it has none. Its magic number tells how its checksums read words.
pub proof fn law_started_log_has_its_salts(
    header: WalHeader,
    page_size: u32,
    big_endian: bool,
    salts: (u32, u32),
)
    ensures
        ({
            let h = WalFile::started_header(header, page_size, big_endian, salts);
            &&& h.magic == (if big_endian {
                0x377f_0683u32
            } else {
                0x377f_0682u32
            })
            &&& (h.magic % 2 == 1) == big_endian
            &&& h.file_format == header.file_format
            &&& h.checkpoint_seq == header.checkpoint_seq
            &&& header.page_size != 0 ==> h.page_size == header.page_size
            &&& header.page_size == 0 ==> h.page_size == page_size
            &&& header.salt_1 != 0 || header.salt_2 != 0 ==> h.salt_1 == header.salt_1 && h.salt_2
                == header.salt_2
            &&& header.salt_1 == 0 && header.salt_2 == 0 ==> (h.salt_1, h.salt_2) == salts
        }),
{
}

/// A header that is sealed has the checksum that belongs to it.
pub proof fn law_sealed_header_stays(header: WalHeader)
    ensures
        header.sealed().sealed() == header.sealed(),
{
    let h = header.sealed();
    assert(h.magic == header.magic && h.file_format == header.file_format && h.page_size
        == header.page_size && h.checkpoint_seq == header.checkpoint_seq && h.salt_1
        == header.salt_1 && h.salt_2 == header.salt_2);
}

/// The header of a log that starts has the checksum that belongs to it.
pub proof fn law_started_log_is_sealed(
    header: WalHeader,
    page_size: u32,
    big_endian: bool,
    salts: (u32, u32),
)
    ensures
        ({
            let h = WalFile::started_header(header, page_size, big_endian, salts);
            h.sealed() == h
        }),
{
    let fresh = header.salt_1 == 0 && header.salt_2 == 0;
    law_sealed_header_stays(
        WalHeader {
            magic: if big_endian {
                WAL_MAGIC_BE
            } else {
                WAL_MAGIC_LE
            },
            page_size: if header.page_size == 0 {
                page_size
            } else {
                header.page_size
            },
            salt_1: if fresh {
                salts.0
            } else {
                header.salt_1
            },
            salt_2: if fresh {
                salts.1
            } else {
                header.salt_2
            },
            ..header
        },
    );
}

/// Starting the log over makes the next header: the sequence number and the first salt go up by
/// one, around at 2^32, the second salt is the one given, and the rest stays. The frames in the
/// file from before are then of another log.
pub proof fn law_log_started_over_has_next_header(s: SharedView, salt_2: u32)
    ensures
        ({
            let t = s.restarted(salt_2);
            &&& t.header.salt_1 == (s.header.salt_1 + 1) % 0x1_0000_0000
            &&& t.header.checkpoint_seq == (s.header.checkpoint_seq + 1) % 0x1_0000_0000
            &&& t.header.salt_2 == salt_2
            &&& t.header.magic == s.header.magic
            &&& t.header.file_format == s.header.file_format
            &&& t.header.page_size == s.header.page_size
            &&& !t.initialized
            &&& t.max_frame == 0 && t.nbackfills == 0
            &&& t.slots[0].value == 0
            &&& t.transaction_count == s.transaction_count
        }),
{
}

/// After a rollback nothing is under way any more.
pub proof fn law_rollback_stops_everything(
    pager: PagerView,
    s: SharedView,
    is_write: bool,
    v: PagerView,
    t: SharedView,
)
    requires
        pager.rollback_base(is_write).rolled_back(s, is_write, v, t),
    ensures
        v.commit_info.idle(),
        v.allocate_page_state == AllocatePageState::Start,
        v.free_page_state == FreePageState::Start,
        v.spill_state is Idle,
        v.checkpoint_state.phase is NotCheckpointing,
        !v.syncing,
        is_write ==> v.savepoints.len() == 0,
        is_write ==> (v.journal matches Some(j) ==> j.data.len() == 0),
        !is_write ==> v.dirty == pager.dirty && v.wal == pager.wal,
{
}

/// A cache that is out of date is emptied, and the schema cookie forgotten.
pub proof fn law_outdated_cache_is_emptied(v: PagerView, id: usize)
    ensures
        !v.outdated().cache.pages.contains_key(id),
        v.outdated().schema_cookie == 0xffff_ffff_ffff_ffff,
        v.outdated().dirty == v.dirty,
{
}

/// A reader that finds all of the log in the database file goes to slot 0, and only such a reader
/// does. Any other one gets a mark at the log's end if a slot is free for it, and else shares the
/// greatest mark that is not beyond the log's end.
pub proof fn law_reader_gets_the_best_mark(s: SharedView, j: int)
    requires
        s.wf(),
        s.max_frame < READMARK_NOT_USED,
    ensures
        (WalFile::entry(s) matches Some((slot, _, _)) && slot == 0) <==> s.max_frame
            == s.nbackfills,
        s.max_frame != s.nbackfills && 1 <= j < READ_SLOTS && s.slots[j].free() ==> (WalFile::entry(
            s,
        ) matches Some((_, Some(mark), _)) && mark == s.max_frame),
        s.max_frame != s.nbackfills && 1 <= j < READ_SLOTS && s.slots[j].value
            != READMARK_NOT_USED && 0 < s.slots[j].value <= s.max_frame ==> (WalFile::entry(
            s,
        ) matches Some((_, Some(mark), _)) && s.slots[j].value <= mark <= s.max_frame),
{
    lemma_first_free(s.slots, 1);
    lemma_best_slot(s.slots, s.max_frame as u32, READ_SLOTS as int);
}

/// Attempts to begin a read are repeated at once at first, then after yielding, then after waits
/// that grow by 78 microseconds more each time from 39 on, and given up after a hundred.
pub proof fn law_waits_grow(attempts: u32)
    requires
        attempts < u32::MAX,
    ensures
        backoff_after(attempts) is Busy <==> attempts > 100,
        backoff_after(attempts) is Again <==> attempts <= 5,
        backoff_after(attempts) is Yield <==> 5 < attempts < 10,
        backoff_after(10) == (ReadBackoff::Sleep { micros: 39 }),
        10 <= attempts < 100 ==> backoff_after((attempts + 1) as u32)->micros
            == backoff_after(attempts)->micros + 39 + 78 * (attempts - 9),
{
    if 10 <= attempts < 100 {
        let n = attempts - 9;
        assert((n + 1) * (n + 1) * 39 == n * n * 39 + 39 + 78 * n) by (nonlinear_arith);
        assert(0 <= n * n * 39 <= 91 * 91 * 39) by (nonlinear_arith)
            requires
                0 <= n <= 91,
        ;
        assert(0 <= (n + 1) * (n + 1) * 39 <= 92 * 92 * 39) by (nonlinear_arith)
            requires
                0 <= n <= 91,
        ;
    }
}

/// A log that is started over before a write leaves the locks as they were: the writer is the one
/// reader of slot 0, and the other slots are free. The writer then knows the log as it is.
pub proof fn law_restart_gives_locks_back(w: WalFile, s: SharedView, salt_2: u32, i: int)
    requires
        s.wf(),
        w.restart_works(s),
        w.checkpoint_seq == s.header.checkpoint_seq,
    ensures
        ({
            let t = w.restart_before_write(s, salt_2);
            let after = w.after_restart(s);
            &&& t.slots[0].readers == 1 && !t.slots[0].writer
            &&& 1 <= i < READ_SLOTS ==> t.slots[i].free()
            &&& t.write_lock == s.write_lock
            &&& t.max_frame == 0 && t.nbackfills == 0
            &&& after.max_frame == t.max_frame
            &&& after.last_checksum == t.last_checksum
            &&& after.checkpoint_seq == t.header.checkpoint_seq
            &&& t.epoch != s.epoch
        }),
{
    let locked = s.with_slot(0, s.slots[0].upgraded());
    lemma_first_busy(s.slots, 1);
    lemma_first_busy(locked.slots, 1);
    lemma_busy_elsewhere(s.slots, locked.slots, 1);
    if 1 <= i < READ_SLOTS {
        assert(s.slots[i].free());
    }
}

/// The checkpoint after a commit waits for nobody, has no bound, and keeps the cache.
pub proof fn law_checkpoint_after_commit_waits_for_nobody(
    mode: CommitMode,
    salt_2: u32,
    db_file_size: u64,
)
    ensures
        ({
            let args = PagerView::auto_checkpoint(mode, salt_2, db_file_size);
            &&& args.mode == (CheckpointMode::Passive { upper_bound_inclusive: None })
            &&& !args.clear_page_cache
            &&& args.sync_mode == mode.sync_mode
        }),
{
}

/// A new log is empty, and nobody holds any of its locks.
pub proof fn law_new_log_is_empty(enabled: bool, big_endian: bool, page: u64, i: int)
    ensures
        ({
            let s = SharedView::fresh(enabled, big_endian);
            &&& s.wf()
            &&& s.max_frame == 0 && s.nbackfills == 0
            &&& !s.frames.contains_key(page)
            &&& !s.initialized
            &&& s.header.file_format == 3007000
            &&& s.write_lock.free() && s.checkpoint_lock.free()
            &&& 0 <= i < READ_SLOTS ==> s.slots[i].free()
        }),
{
}

/// A transaction keeps the write lock until its pages are committed: no step gives it up but the one
/// that ends the commit, and after a failed one it is still held, so that the transaction can be
/// rolled back.
pub proof fn law_write_lock_is_held_until_the_end(
    pager: PagerView,
    s: SharedView,
    mode: CommitMode,
    encoded: Seq<FrameInput>,
    outcome: IoOutcome,
    v: PagerView,
    t: SharedView,
    r: TxResult,
)
    requires
        s.wf(),
        pager.wal is Some,
        pager.spill_state is Idle,
        pager.wal->0.write_lock_held,
        pager.wal->0.locks_held(s),
        pager.tx_step(s, mode, encoded, outcome, v, t, r),
    ensures
        v.wal is Some,
        r matches Ok(CommitTxStep::Committed { .. }) ==> !v.wal->0.write_lock_held
            && !t.write_lock.writer && v.dirty.is_empty(),
        !(r matches Ok(CommitTxStep::Committed { .. })) ==> v.wal->0.write_lock_held
            && t.write_lock == s.write_lock,
        r is Err ==> v.dirty == pager.dirty && t.max_frame == s.max_frame,
{
    let (u, p, q) = choose|u: PagerView, p: SharedView, q: Result<CommitStep, LimboError>| #[trigger]
        pager.commit_called(s, mode, encoded, outcome, u, p, q) && match q {
            Err(e) => r == Err::<CommitTxStep, LimboError>(e) && v == u && t == p,
            Ok(CommitStep::Continue) => {
                r == Ok::<CommitTxStep, LimboError>(CommitTxStep::Continue) && v == u && t == p
            },
            Ok(CommitStep::Io(io)) => {
                r == Ok::<CommitTxStep, LimboError>(CommitTxStep::Io(io)) && v == u && t == p
            },
            Ok(CommitStep::Done) => u.tx_ended(p, v, t, r),
        };
    lemma_commit_keeps_lock(pager, s, mode, encoded, outcome, u, p, q);
}

proof fn lemma_commit_keeps_lock(
    pager: PagerView,
    s: SharedView,
    mode: CommitMode,
    encoded: Seq<FrameInput>,
    outcome: IoOutcome,
    u: PagerView,
    p: SharedView,
    q: Result<CommitStep, LimboError>,
)
    requires
        pager.wal is Some,
        pager.spill_state is Idle,
        pager.commit_called(s, mode, encoded, outcome, u, p, q),
    ensures
        u.wal is Some,
        u.wal->0.write_lock_held == pager.wal->0.write_lock_held,
        p.write_lock == s.write_lock,
        q is Err ==> u.dirty == pager.dirty && p.max_frame == s.max_frame,
        q == Ok::<CommitStep, LimboError>(CommitStep::Done) ==> u.dirty.is_empty(),
{
}

/// That a checkpoint after a commit fails is no error: the transaction is committed all the same.
pub proof fn law_failed_checkpoint_is_no_error(
    pager: PagerView,
    s: SharedView,
    args: CheckpointArgs,
    v: PagerView,
    t: SharedView,
    r: TxResult,
)
    requires
        pager.after_commit(s, args, v, t, r),
    ensures
        r is Ok,
        r == Ok::<CommitTxStep, LimboError>(CommitTxStep::Done) ==> v.commit_info.idle(),
{
}

/// A reader that has taken its slot goes on only if the log is still as it took note of it.
pub proof fn law_snapshot_is_current_while_nothing_changed(s: SharedView, t: SharedView)
    ensures
        Snapshot::of(s).current(t) <==> {
            &&& t.max_frame == s.max_frame
            &&& t.nbackfills == s.nbackfills
            &&& t.last_checksum == s.last_checksum
            &&& t.header.checkpoint_seq == s.header.checkpoint_seq
        },
{
}

} // verus!
