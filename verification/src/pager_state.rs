//! The states of the pager's operations that wait for input or output in between.

use vstd::prelude::*;
use crate::checkpoint_state::{CheckpointMode, CheckpointResult};
use crate::error::CompletionError;
use crate::ondisk::PageSize;
use crate::read::ReadPlan;
use crate::wal::WalFile;
use crate::wal_append::{FrameInput, FrameMeta, PreparedFrames};
use crate::wal_checkpoint::CheckpointIo;
use crate::wal_format::WalHeader;

verus! {

/// How carefully writes are made durable.
#[derive(Debug, Clone, Copy, PartialEq, Eq, Structural)]
pub enum SyncMode {
    /// Never sync.
    Off,
    /// Sync when the log is copied or started over.
    Normal,
    /// Also sync on each commit.
    Full,
}

/// What has to be done outside before an operation can go on.
#[derive(Debug)]
pub enum IoRequest {
    /// Nothing is to be done, but others have to go on first.
    Yield,
    /// The page has to be brought into the cache.
    ReadPage { page_no: usize },
    /// These bytes are to be written at the start of the log's file.
    WriteWalHeader { bytes: Vec<u8> },
    /// The log's file is to be synced.
    SyncWal,
    /// The log's file is to be cut down to nothing.
    TruncateWal,
    /// The database file is to be synced.
    SyncDb,
    /// The database file is to be cut down to this size.
    TruncateDb { size: u64 },
    /// The frames are to be written to the log's file.
    WriteFrames { frames: PreparedFrames },
    /// The frames of the commit under way are to be written to the log's file.
    WriteCommitFrames,
    /// The pages of the commit under way that are not in the cache are to be read.
    ReadEvicted,
    /// The pages are to be written to the database file.
    WriteDbPages { pages: Vec<FrameInput> },
    /// The reads and writes of a checkpoint.
    Checkpoint { io: Vec<CheckpointIo> },
}

/// The outcome of an operation: done, or something has to be done outside first.
#[derive(Debug)]
pub enum IOResult<T> {
    Done(T),
    IO(IoRequest),
}

/// What came of the last request.
#[derive(Debug, Clone, Copy, PartialEq, Eq, Structural)]
pub enum IoOutcome {
    /// It is not over yet.
    Pending,
    Succeeded,
    Failed(CompletionError),
}

/// What the header of a new log is made from: the machine's byte order and two random numbers.
#[derive(Debug, Clone, Copy, PartialEq, Eq, Structural)]
pub struct LogStart {
    pub big_endian: bool,
    pub salt_1: u32,
    pub salt_2: u32,
}

impl LogStart {
    /// The header of a log that starts now.
    pub open spec fn header(self, header: WalHeader, page_size: PageSize) -> WalHeader {
        WalFile::started_header(
            header,
            page_size.bytes() as u32,
            self.big_endian,
            (self.salt_1, self.salt_2),
        )
    }
}

/// Where a commit is.
#[derive(Debug, Clone, Copy, PartialEq, Eq, Structural)]
pub enum CommitState {
    /// The log's header is to be made ready, if need be.
    PrepareWal,
    /// The log's header was written and is to be synced.
    PrepareWalSync,
    /// The log's header is being synced.
    WaitWalSync,
    /// The database's size is to be found out.
    GetDbSize,
    /// The dirty pages are to be listed, and those not in the cache read.
    ScanAndIssueReads { db_size: u32 },
    /// Pages that are not in the cache are being read.
    WaitBatchedReads { db_size: u32 },
    /// The frames are to be built.
    PrepareFrames { db_size: u32 },
    /// The frames are being written.
    WaitWrites,
    /// The log is being synced.
    WaitSync,
    /// All is on disk: the frames can be made visible.
    WalCommitDone,
    /// The commit is over, and a checkpoint is due.
    AutoCheckpoint,
}

/// Where a dirty page's bytes come from.
#[derive(Debug)]
pub enum PageSource {
    /// The page is in the cache.
    Cached(usize),
    /// The page has left the cache and is read again, as planned; what came of it, once it is known.
    Evicted {
        page_id: usize,
        plan: ReadPlan,
        data: Option<Result<Vec<u8>, CompletionError>>,
    },
}

impl PageSource {
    /// The page.
    pub open spec fn page(self) -> usize {
        match self {
            PageSource::Cached(id) => id,
            PageSource::Evicted { page_id, .. } => page_id,
        }
    }
}

/// The commit under way.
#[derive(Debug)]
pub struct CommitInfo {
    pub state: CommitState,
    pub page_sources: Vec<PageSource>,
    pub prepared_frames: Vec<PreparedFrames>,
}

impl CommitInfo {
    /// Whether no commit is under way.
    pub open spec fn idle(self) -> bool {
        &&& self.state == CommitState::PrepareWal
        &&& self.page_sources@.len() == 0
        &&& self.prepared_frames@.len() == 0
    }

    /// No commit under way.
    pub fn new() -> (r: CommitInfo)
        ensures
            r.idle(),
    {
        CommitInfo {
            state: CommitState::PrepareWal,
            page_sources: Vec::new(),
            prepared_frames: Vec::new(),
        }
    }

    /// Drops everything about a commit.
    pub fn reset(&mut self)
        ensures
            final(self).idle(),
    {
        self.state = CommitState::PrepareWal;
        self.page_sources.clear();
        self.prepared_frames.clear();
    }

    /// Makes ready for a new list of pages.
    pub fn initialize(&mut self)
        ensures
            final(self).page_sources@ == Seq::<PageSource>::empty(),
            final(self).state == old(self).state,
            final(self).prepared_frames == old(self).prepared_frames,
    {
        self.page_sources.clear();
    }
}

/// Where a checkpoint, with all that follows it, is.
#[derive(Debug, Clone, Copy, PartialEq, Eq, Structural)]
pub enum CheckpointPhase {
    NotCheckpointing,
    /// The log is being copied.
    Checkpoint { mode: CheckpointMode, sync_mode: SyncMode, clear_page_cache: bool },
    /// The database file is cut down to its size, if it is larger.
    TruncateDbFile {
        sync_mode: SyncMode,
        clear_page_cache: bool,
        /// Whether page 1 was dropped from the cache: the one in there may be older
        /// than the one that was copied to the file.
        page1_invalidated: bool,
    },
    /// The database file is synced.
    SyncDbFile { clear_page_cache: bool },
    /// The log's file is cut down to nothing, after the database file was synced.
    TruncateWalFile { clear_page_cache: bool },
    /// The locks are given up.
    Finalize { clear_page_cache: bool },
}

/// A checkpoint, with all that follows it.
#[derive(Debug)]
pub struct PagerCheckpoint {
    pub phase: CheckpointPhase,
    /// Set once the log was copied.
    pub result: Option<CheckpointResult>,
    pub mode: Option<CheckpointMode>,
}

impl PagerCheckpoint {
    /// No checkpoint.
    pub open spec fn none() -> PagerCheckpoint {
        PagerCheckpoint { phase: CheckpointPhase::NotCheckpointing, result: None, mode: None }
    }

    /// No checkpoint.
    pub fn new() -> (r: PagerCheckpoint)
        ensures
            r == PagerCheckpoint::none(),
    {
        PagerCheckpoint { phase: CheckpointPhase::NotCheckpointing, result: None, mode: None }
    }
}

/// Which page a btree wants.
#[derive(Debug, Clone, Copy, PartialEq, Eq, Structural)]
pub enum BtreePageAllocMode {
    /// Any page.
    Any,
    /// This page, typically for a root.
    Exact(u32),
    /// A page up to this one.
    Le(u32),
}

/// Whether the database keeps a pointer map.
#[derive(Debug, Clone, Copy, PartialEq, Eq, Structural)]
pub enum AutoVacuumMode {
    Disabled,
    Full,
    Incremental,
}

impl AutoVacuumMode {
    /// The number that stands for the mode.
    pub open spec fn number(self) -> u8 {
        match self {
            AutoVacuumMode::Disabled => 0,
            AutoVacuumMode::Full => 1,
            AutoVacuumMode::Incremental => 2,
        }
    }

    /// The number that stands for the mode.
    pub fn as_u8(self) -> (r: u8)
        ensures
            r == self.number(),
    {
        match self {
            AutoVacuumMode::Disabled => 0,
            AutoVacuumMode::Full => 1,
            AutoVacuumMode::Incremental => 2,
        }
    }

    /// The mode that a number stands for.
    pub fn from_u8(value: u8) -> (r: AutoVacuumMode)
        requires
            value <= 2,
        ensures
            r.number() == value,
    {
        match value {
            0 => AutoVacuumMode::Disabled,
            1 => AutoVacuumMode::Full,
            _ => AutoVacuumMode::Incremental,
        }
    }
}

/// Where a lookup in the pointer map is.
#[derive(Debug, Clone, Copy, PartialEq, Eq, Structural)]
pub enum PtrMapGetState {
    Start,
    Deserialize { ptrmap_page: usize, offset_in_ptrmap_page: usize },
}

/// Where an update of the pointer map is.
#[derive(Debug, Clone, Copy, PartialEq, Eq, Structural)]
pub enum PtrMapPutState {
    Start,
    Deserialize { ptrmap_page: usize, offset_in_ptrmap_page: usize },
}

/// Where the creation of a btree is, in a database with full autovacuum.
#[derive(Debug, Clone, Copy, PartialEq, Eq, Structural)]
pub enum BtreeCreateVacuumFullState {
    Start,
    AllocatePage { root_page_num: u32 },
    PtrMapPut { allocated_page_id: u32 },
}

/// Where the operations on the pointer map are.
#[derive(Debug, Clone, Copy, PartialEq, Eq, Structural)]
pub struct VacuumState {
    pub ptrmap_get_state: PtrMapGetState,
    pub ptrmap_put_state: PtrMapPutState,
    pub btree_create_vacuum_full_state: BtreeCreateVacuumFullState,
}

impl VacuumState {
    /// Nothing is under way.
    pub open spec fn idle() -> VacuumState {
        VacuumState {
            ptrmap_get_state: PtrMapGetState::Start,
            ptrmap_put_state: PtrMapPutState::Start,
            btree_create_vacuum_full_state: BtreeCreateVacuumFullState::Start,
        }
    }

    /// Nothing is under way.
    pub fn new() -> (r: VacuumState)
        ensures
            r == VacuumState::idle(),
    {
        VacuumState {
            ptrmap_get_state: PtrMapGetState::Start,
            ptrmap_put_state: PtrMapPutState::Start,
            btree_create_vacuum_full_state: BtreeCreateVacuumFullState::Start,
        }
    }
}

/// Where the allocation of a page is.
#[derive(Debug, Clone, Copy, PartialEq, Eq, Structural)]
pub enum AllocatePageState {
    Start,
    /// The first trunk page of the freelist is looked at: one of its leaves is taken or,
    /// if it has none, the trunk page itself.
    SearchAvailableFreeListLeaf { trunk_page: usize },
    /// A leaf is taken off the trunk page.
    ReuseFreelistLeaf { trunk_page: usize, leaf_page: usize, number_of_freelist_leaves: u32 },
    /// The freelist is empty, and the database grows.
    AllocateNewPage { current_db_size: u32 },
}

/// Where the creation of page 1 is.
#[derive(Debug)]
pub enum AllocatePage1State {
    Start,
    Writing { page: crate::page::Page },
    Done,
}

/// Where the freeing of a page is.
#[derive(Debug, Clone, Copy, PartialEq, Eq, Structural)]
pub enum FreePageState {
    Start,
    /// The page is added to the first trunk page, if there is room.
    AddToTrunk { page: usize },
    /// The page becomes the first trunk page.
    NewTrunk { page: usize },
}

/// Where a spill is.
#[derive(Debug)]
pub enum SpillState {
    /// None is under way.
    Idle,
    /// The log's header is being written.
    WritingHeader,
    /// The log's header is being synced.
    SyncingHeader,
    /// Pages are being written to the log, as these frames.
    WritingToWal { frames: Vec<FrameMeta>, epoch: u32 },
    /// Pages are being written to the database file of a database without a log.
    WritingToDisk { pages: Vec<usize> },
}

/// The pages that a flush has gathered.
#[derive(Debug)]
pub struct CollectingState {
    pub dirty_ids: Vec<u32>,
    pub current_idx: usize,
    pub collected_pages: Vec<FrameInput>,
}

/// Where a flush is.
#[derive(Debug)]
pub enum CacheFlushState {
    Init,
    /// The log's header is being written.
    WalPrepareStart { dirty_ids: Vec<u32> },
    /// The log's header is being synced.
    WalPrepareFinish { dirty_ids: Vec<u32> },
    /// Pages are gathered and appended.
    Collecting(CollectingState),
    /// A page that is not in the cache is being read.
    WaitingForRead { state: CollectingState, page_id: usize },
}

/// What kind of btree is to be created.
#[derive(Debug, Clone, Copy, PartialEq, Eq, Structural)]
pub struct CreateBTreeFlags(pub u8);

impl CreateBTreeFlags {
    pub const TABLE: u8 = 0b0001;

    pub const INDEX: u8 = 0b0010;

    /// Whether the flag of a table is set.
    pub open spec fn table(self) -> bool {
        self.0 % 2 == 1
    }

    /// Whether the flag of an index is set.
    pub open spec fn index(self) -> bool {
        self.0 / 2 % 2 == 1
    }

    /// A table.
    pub fn new_table() -> (r: CreateBTreeFlags)
        ensures
            r.0 == CreateBTreeFlags::TABLE,
            r.table(),
            !r.index(),
    {
        CreateBTreeFlags(CreateBTreeFlags::TABLE)
    }

    /// An index.
    pub fn new_index() -> (r: CreateBTreeFlags)
        ensures
            r.0 == CreateBTreeFlags::INDEX,
            r.index(),
            !r.table(),
    {
        CreateBTreeFlags(CreateBTreeFlags::INDEX)
    }

    /// Whether the flag of a table is set.
    pub fn is_table(&self) -> (r: bool)
        ensures
            r == self.table(),
    {
        let f: u8 = self.0;
        assert((f & 1u8 != 0) == (f % 2 == 1)) by (bit_vector);
        (self.0 & CreateBTreeFlags::TABLE) != 0
    }

    /// Whether the flag of an index is set.
    pub fn is_index(&self) -> (r: bool)
        ensures
            r == self.index(),
    {
        let f: u8 = self.0;
        assert((f & 2u8 != 0) == (f / 2 % 2 == 1)) by (bit_vector);
        (self.0 & CreateBTreeFlags::INDEX) != 0
    }

    /// The flags.
    pub fn get_flags(&self) -> (r: u8)
        ensures
            r == self.0,
    {
        self.0
    }
}

} // verus!
