//! The pager: the pages of a database as one connection sees them.

use vstd::prelude::*;
use crate::bitmap::PageSet;
use crate::bytes::{be32_bytes, zeroed};
use crate::db_header::DatabaseHeader;
use crate::error::LimboError;
use crate::ondisk::{is_page_size, PageSize};
use crate::page::{Page, PageView, DATABASE_HEADER_SIZE};
use crate::page_cache::{pages_wf, CacheResizeResult, CacheView, PageCache};
use crate::pager_state::{AllocatePage1State, AllocatePageState, AutoVacuumMode, CacheFlushState,
    CommitInfo, FreePageState, IOResult, IoRequest, PagerCheckpoint, SpillState, VacuumState};
use crate::savepoint::{JournalView, Savepoint, SavepointView, Subjournal};
use crate::wal::WalFile;

verus! {

/// The most pages that a database has unless it is told otherwise.
pub const DEFAULT_MAX_PAGE_COUNT: u32 = 1073741823;
/// Stands for a reserved space that is not known.
pub const RESERVED_SPACE_NOT_SET: u16 = 0xffff;
/// Stands for a schema cookie that is not known.
pub const SCHEMA_COOKIE_NOT_SET: u64 = 0xffff_ffff_ffff_ffff;
/// The byte whose page is never used.
pub const PENDING_BYTE: u32 = 0x4000_0000;

/// The pages of a database as one connection sees them.
#[derive(Debug)]
pub struct Pager {
    /// The connection's part of the log. A database in memory has none.
    pub wal: Option<WalFile>,
    pub page_cache: PageCache,
    /// The pages with changes that were not committed.
    pub dirty_pages: PageSet,
    pub subjournal: Option<Subjournal>,
    pub savepoints: Vec<Savepoint>,
    pub commit_info: CommitInfo,
    pub checkpoint_state: PagerCheckpoint,
    pub syncing: bool,
    pub auto_vacuum_mode: AutoVacuumMode,
    pub allocate_page_state: AllocatePageState,
    pub allocate_page1_state: AllocatePage1State,
    /// The page size in bytes; 0 if it is not known.
    pub page_size: u32,
    pub reserved_space: u16,
    pub schema_cookie: u64,
    pub free_page_state: FreePageState,
    pub spill_state: SpillState,
    pub cacheflush_state: CacheFlushState,
    pub max_page_count: u32,
    pub vacuum_state: VacuumState,
    pub enable_encryption: bool,
    /// Page 1 of a database that has nothing on disk yet.
    pub init_page_1: Option<Page>,
}

/// What a pager is.
#[verifier::ext_equal]
pub struct PagerView {
    pub wal: Option<WalFile>,
    pub cache: CacheView,
    pub dirty: Set<u32>,
    pub journal: Option<JournalView>,
    pub savepoints: Seq<SavepointView>,
    pub commit_info: CommitInfo,
    pub checkpoint_state: PagerCheckpoint,
    pub syncing: bool,
    pub auto_vacuum_mode: AutoVacuumMode,
    pub allocate_page_state: AllocatePageState,
    pub allocate_page1_state: AllocatePage1State,
    pub page_size: u32,
    pub reserved_space: u16,
    pub schema_cookie: u64,
    pub free_page_state: FreePageState,
    pub spill_state: SpillState,
    pub cacheflush_state: CacheFlushState,
    pub max_page_count: u32,
    pub vacuum_state: VacuumState,
    pub enable_encryption: bool,
    pub init_page_1: Option<PageView>,
}

impl View for Pager {
    type V = PagerView;

    open spec fn view(&self) -> PagerView {
        PagerView {
            wal: self.wal,
            cache: self.page_cache@,
            dirty: self.dirty_pages@,
            journal: match self.subjournal {
                Some(j) => Some(j@),
                None => None,
            },
            savepoints: Seq::new(self.savepoints@.len(), |i: int| self.savepoints@[i]@),
            commit_info: self.commit_info,
            checkpoint_state: self.checkpoint_state,
            syncing: self.syncing,
            auto_vacuum_mode: self.auto_vacuum_mode,
            allocate_page_state: self.allocate_page_state,
            allocate_page1_state: self.allocate_page1_state,
            page_size: self.page_size,
            reserved_space: self.reserved_space,
            schema_cookie: self.schema_cookie,
            free_page_state: self.free_page_state,
            spill_state: self.spill_state,
            cacheflush_state: self.cacheflush_state,
            max_page_count: self.max_page_count,
            vacuum_state: self.vacuum_state,
            enable_encryption: self.enable_encryption,
            init_page_1: match self.init_page_1 {
                Some(p) => Some(p@),
                None => None,
            },
        }
    }
}

/// A page as it is newly made: loaded, all zeros.
pub open spec fn blank_page(id: usize, page_size: nat) -> PageView {
    PageView {
        loaded: true,
        buffer: Some(Seq::new(page_size, |i: int| 0u8)),
        ..PageView::fresh(id)
    }
}

impl PagerView {
    /// The journal fits the savepoints: there is at most one, it starts at the journal's
    /// start, and goes on at its end. Every page is where its number says, and every loaded
    /// page has its bytes.
    pub open spec fn wf(self) -> bool {
        &&& self.savepoints.len() <= 1
        &&& self.savepoints.len() == 1 ==> {
            &&& self.journal is Some
            &&& self.savepoints[0].start_offset == 0
            &&& self.savepoints[0].write_offset == self.journal->0.data.len()
        }
        &&& pages_wf(self.cache.pages)
        &&& self.init_page_1 matches Some(p) ==> p.id == 1 && p.loaded && p.buffer is Some
    }

    /// The same with another cache.
    pub open spec fn with_cache(self, cache: CacheView) -> PagerView {
        PagerView { cache, ..self }
    }

    /// The same with another page `id` in the cache.
    pub open spec fn with_cached(self, id: usize, page: PageView) -> PagerView {
        self.with_cache(self.cache.with_pages(self.cache.pages.insert(id, page)))
    }

    /// Whether page `id` is in the cache and loaded.
    pub open spec fn has(self, id: usize) -> bool {
        self.cache.pages.contains_key(id) && self.cache.pages[id].loaded
    }

    /// Page `id` in the cache.
    pub open spec fn page(self, id: usize) -> PageView {
        self.cache.pages[id]
    }

    /// Whether a page's image goes to the journal before the page is changed: a savepoint
    /// is open, and the page is not in the journal yet.
    pub open spec fn journals(self, id: u32) -> bool {
        &&& self.journal is Some
        &&& self.savepoints.len() > 0
        &&& !self.savepoints.last().pages.contains(id)
    }

    /// The pager after a page's image went to the journal, if it has to.
    pub open spec fn journaled(self, page: PageView) -> PagerView {
        let id = page.id as u32;
        if self.journals(id) {
            let data = self.journal->0.data + be32_bytes(id) + page.data();
            let last = self.savepoints.last();
            PagerView {
                journal: Some(JournalView { data, ..self.journal->0 }),
                savepoints: self.savepoints.update(
                    self.savepoints.len() - 1,
                    SavepointView {
                        pages: last.pages.insert(id),
                        write_offset: data.len() as u64,
                        ..last
                    },
                ),
                ..self
            }
        } else {
            self
        }
    }

    /// The pager after a savepoint was opened for a database of `db_size` pages.
    pub open spec fn savepoint_opened(self, db_size: u32) -> PagerView {
        PagerView {
            savepoints: seq![
                SavepointView {
                    start_offset: 0,
                    write_offset: 0,
                    pages: Set::empty(),
                    db_size,
                    wal_max_frame: match self.wal {
                        Some(w) => w.max_frame,
                        None => 0,
                    },
                    wal_checksum: match self.wal {
                        Some(w) => w.last_checksum,
                        None => (0, 0),
                    },
                },
            ],
            ..self
        }
    }

    /// The pager after it took note that a page is going to change.
    pub open spec fn marked(self, page: PageView) -> PagerView {
        PagerView { dirty: self.dirty.insert(page.id as u32), ..self.journaled(page) }
    }

    /// The pager after page `id`, in the cache, was made dirty.
    pub open spec fn dirtied(self, id: usize) -> PagerView {
        self.marked(self.page(id)).with_cached(id, self.page(id).dirtied())
    }

    /// Whether a page can be made dirty: its number fits, and if its image has to go to
    /// the journal, it is a whole page.
    pub open spec fn can_mark(self, page: PageView) -> bool {
        &&& page.id <= u32::MAX
        &&& page.loaded
        &&& page.buffer is Some
        &&& self.journals(page.id as u32) ==> page.data().len() == self.page_size
            && self.journal->0.data.len() + 4 + self.page_size <= usize::MAX
    }

    /// Page 1, if it is there: in memory only, or in the cache.
    pub open spec fn page1(self) -> Option<PageView> {
        match self.init_page_1 {
            Some(p) => Some(p),
            None => if self.has(1) {
                Some(self.page(1))
            } else {
                None
            },
        }
    }

    /// The same with another page 1.
    pub open spec fn with_page1(self, page: PageView) -> PagerView {
        match self.init_page_1 {
            Some(_) => PagerView { init_page_1: Some(page), ..self },
            None => self.with_cached(1, page),
        }
    }

    /// The header in page 1.
    pub open spec fn header(self) -> DatabaseHeader {
        DatabaseHeader::decoded(self.page1()->0.data())
    }

    /// The pager after page 1 was made dirty.
    pub open spec fn header_dirtied(self) -> PagerView {
        self.marked(self.page1()->0).with_page1(self.page1()->0.dirtied())
    }

    /// The pager after the header was written into page 1.
    pub open spec fn with_header(self, header: DatabaseHeader) -> PagerView {
        let p = self.page1()->0;
        self.with_page1(p.with_data(crate::bytes::splice(p.data(), 0, header.encoded())))
    }

    /// Page 1, if it is there, can hold the header.
    pub open spec fn header_readable(self) -> bool {
        self.page1() matches Some(p) ==> p.data().len() >= DATABASE_HEADER_SIZE
    }

    /// The page size, as far as it is known; 4096 if it is not.
    pub open spec fn size_of_pages(self) -> int {
        if is_page_size(self.page_size as int) {
            self.page_size as int
        } else if self.page1() is Some {
            self.header().page_size.bytes()
        } else {
            4096
        }
    }

    /// The reserved bytes of each page, as far as they are known; none if they are not.
    pub open spec fn reserved_bytes(self) -> int {
        if self.reserved_space != RESERVED_SPACE_NOT_SET {
            self.reserved_space as int
        } else if self.page1() is Some {
            self.header().reserved_space as int
        } else {
            0
        }
    }

    /// Bytes of a page that are used for content.
    pub open spec fn usable(self) -> int {
        self.size_of_pages() - self.reserved_bytes()
    }

    /// Whether the page size and the reserved bytes are remembered.
    pub open spec fn knows_sizes(self) -> bool {
        is_page_size(self.page_size as int) && self.reserved_space != RESERVED_SPACE_NOT_SET
    }

    /// The pager after the page size and the reserved bytes were looked up and remembered.
    pub open spec fn measured(self) -> PagerView {
        PagerView {
            page_size: self.size_of_pages() as u32,
            reserved_space: self.reserved_bytes() as u16,
            schema_cookie: if self.page1() is Some && (!is_page_size(self.page_size as int)
                || self.reserved_space == RESERVED_SPACE_NOT_SET) {
                self.header().schema_cookie as u64
            } else {
                self.schema_cookie
            },
            ..self
        }
    }

    /// What is remembered of the page size and the reserved bytes makes sense, and so does the
    /// header, if it is there.
    pub open spec fn can_measure(self) -> bool {
        &&& self.header_readable()
        &&& self.reserved_space == RESERVED_SPACE_NOT_SET || self.reserved_space <= u8::MAX
        &&& self.page1() is Some ==> self.header().page_size.valid()
    }

    /// Page 1, if it is there, can hold the header and can be made dirty.
    pub open spec fn header_ready(self) -> bool {
        self.page1() matches Some(p) ==> {
            &&& p.data().len() >= DATABASE_HEADER_SIZE
            &&& self.can_mark(p)
        }
    }
}

impl Pager {
    /// A pager with nothing read yet. `init_page_1` is page 1 of a database that has
    /// nothing on disk.
    pub fn new(wal: Option<WalFile>, page_cache: PageCache, init_page_1: Option<Page>) -> (r: Pager)
        ensures
            r@ == (PagerView {
                wal,
                cache: page_cache@,
                dirty: Set::empty(),
                journal: None,
                savepoints: Seq::empty(),
                commit_info: r.commit_info,
                checkpoint_state: PagerCheckpoint::none(),
                syncing: false,
                auto_vacuum_mode: AutoVacuumMode::Disabled,
                allocate_page_state: AllocatePageState::Start,
                allocate_page1_state: if init_page_1 is Some {
                    AllocatePage1State::Start
                } else {
                    AllocatePage1State::Done
                },
                page_size: 0,
                reserved_space: RESERVED_SPACE_NOT_SET,
                schema_cookie: SCHEMA_COOKIE_NOT_SET,
                free_page_state: FreePageState::Start,
                spill_state: SpillState::Idle,
                cacheflush_state: CacheFlushState::Init,
                max_page_count: DEFAULT_MAX_PAGE_COUNT,
                vacuum_state: VacuumState::idle(),
                enable_encryption: false,
                init_page_1: match init_page_1 {
                    Some(p) => Some(p@),
                    None => None,
                },
            }),
            r.commit_info.idle(),
    {
        let allocate_page1_state = if init_page_1.is_some() {
            AllocatePage1State::Start
        } else {
            AllocatePage1State::Done
        };
        let r = Pager {
            wal,
            page_cache,
            dirty_pages: PageSet::new(),
            subjournal: None,
            savepoints: Vec::new(),
            commit_info: CommitInfo::new(),
            checkpoint_state: PagerCheckpoint::new(),
            syncing: false,
            auto_vacuum_mode: AutoVacuumMode::Disabled,
            allocate_page_state: AllocatePageState::Start,
            allocate_page1_state,
            page_size: 0,
            reserved_space: RESERVED_SPACE_NOT_SET,
            schema_cookie: SCHEMA_COOKIE_NOT_SET,
            free_page_state: FreePageState::Start,
            spill_state: SpillState::Idle,
            cacheflush_state: CacheFlushState::Init,
            max_page_count: DEFAULT_MAX_PAGE_COUNT,
            vacuum_state: VacuumState::new(),
            enable_encryption: false,
            init_page_1,
        };
        assert(r@.savepoints =~= Seq::empty());
        r
    }

    /// Sets whether pages may be spilled.
    pub fn set_spill_enabled(&mut self, enabled: bool)
        ensures
            final(self)@ == old(self)@.with_cache(
                CacheView { spill_enabled: enabled, ..old(self)@.cache },
            ),
    {
        self.page_cache.set_spill_enabled(enabled);
    }

    /// Whether pages may be spilled.
    pub fn get_spill_enabled(&self) -> (r: bool)
        ensures
            r == self@.cache.spill_enabled,
    {
        self.page_cache.is_spill_enabled()
    }

    /// The byte whose page is never used.
    pub fn get_pending_byte() -> (r: u32)
        ensures
            r == PENDING_BYTE,
    {
        PENDING_BYTE
    }

    /// The page that is never used; none while the page size is not known.
    pub open spec fn pending_page(page_size: u32) -> Option<u32> {
        if page_size == 0 {
            None
        } else {
            Some((PENDING_BYTE as int / page_size as int + 1) as u32)
        }
    }

    /// The page that is never used; none while the page size is not known.
    pub fn pending_byte_page_id(&self) -> (r: Option<u32>)
        ensures
            r == Pager::pending_page(self@.page_size),
    {
        let page_size: u32 = self.page_size;
        if page_size == 0 {
            None
        } else {
            proof {
                vstd::arithmetic::div_mod::lemma_div_is_ordered_by_denominator(
                    PENDING_BYTE as int,
                    1,
                    page_size as int,
                );
            }
            Some(PENDING_BYTE / page_size + 1)
        }
    }

    /// The most pages that the database may have.
    pub fn get_max_page_count(&self) -> (r: u32)
        ensures
            r == self@.max_page_count,
    {
        self.max_page_count
    }

    /// Sets the most pages that the database may have, but never to less than it has.
    pub fn set_max_page_count(&mut self, new_max: u32) -> (r: IOResult<u32>)
        requires
            old(self)@.wf(),
            old(self)@.header_readable(),
        ensures
            match old(self)@.page1() {
                None => {
                    &&& r matches IOResult::IO(IoRequest::ReadPage { page_no }) && page_no == 1
                    &&& final(self)@ == old(self)@
                },
                Some(_) => {
                    let n = old(self)@.header().database_size;
                    let clamped = if new_max < n {
                        n
                    } else {
                        new_max
                    };
                    &&& r matches IOResult::Done(m) && m == clamped
                    &&& final(self)@ == (PagerView {
                        max_page_count: clamped,
                        schema_cookie: old(self)@.header().schema_cookie as u64,
                        ..old(self)@
                    })
                },
            },
    {
        match self.with_header() {
            IOResult::IO(io) => IOResult::IO(io),
            IOResult::Done(header) => {
                let current: u32 = header.database_size;
                let clamped: u32 = if new_max < current {
                    current
                } else {
                    new_max
                };
                self.max_page_count = clamped;
                IOResult::Done(clamped)
            },
        }
    }

    /// Gives the pager its part of the log.
    pub fn set_wal(&mut self, wal: WalFile)
        ensures
            final(self)@ == (PagerView { wal: Some(wal), ..old(self)@ }),
    {
        self.wal = Some(wal);
    }

    /// Whether the database keeps a pointer map.
    pub fn get_auto_vacuum_mode(&self) -> (r: AutoVacuumMode)
        ensures
            r == self@.auto_vacuum_mode,
    {
        self.auto_vacuum_mode
    }

    /// Sets whether the database keeps a pointer map.
    pub fn set_auto_vacuum_mode(&mut self, mode: AutoVacuumMode)
        ensures
            final(self)@ == (PagerView { auto_vacuum_mode: mode, ..old(self)@ }),
    {
        self.auto_vacuum_mode = mode;
    }

    /// Whether the database has anything on disk.
    pub fn db_initialized(&self) -> (r: bool)
        ensures
            r == (self@.init_page_1 is None),
    {
        self.init_page_1.is_none()
    }

    /// Whether page 1 is being written for the first time.
    pub fn allocating_page1(&self) -> (r: bool)
        ensures
            r == (self@.allocate_page1_state is Writing),
    {
        match self.allocate_page1_state {
            AllocatePage1State::Writing { .. } => true,
            _ => false,
        }
    }

    /// The page size, if it is known and valid.
    pub fn get_page_size(&self) -> (r: Option<PageSize>)
        ensures
            r is Some <==> is_page_size(self@.page_size as int),
            r matches Some(p) ==> p.valid() && p.bytes() == self@.page_size,
    {
        let value: u32 = self.page_size;
        if value == 0 {
            None
        } else {
            PageSize::new(value)
        }
    }

    /// The page size, which is known.
    pub fn get_page_size_unchecked(&self) -> (r: PageSize)
        requires
            is_page_size(self@.page_size as int),
        ensures
            r.valid(),
            r.bytes() == self@.page_size,
    {
        PageSize::new(self.page_size).unwrap()
    }

    /// Sets the page size.
    pub fn set_page_size(&mut self, size: PageSize)
        ensures
            final(self)@ == (PagerView { page_size: size.bytes() as u32, ..old(self)@ }),
    {
        self.page_size = size.get();
    }

    /// The bytes at the end of each page that are not used, if that is known.
    pub fn get_reserved_space(&self) -> (r: Option<u8>)
        requires
            self@.reserved_space == RESERVED_SPACE_NOT_SET || self@.reserved_space <= u8::MAX,
        ensures
            r == (if self@.reserved_space == RESERVED_SPACE_NOT_SET {
                None
            } else {
                Some(self@.reserved_space as u8)
            }),
    {
        let value: u16 = self.reserved_space;
        if value == RESERVED_SPACE_NOT_SET {
            None
        } else {
            Some(value as u8)
        }
    }

    /// Sets the bytes at the end of each page that are not used.
    pub fn set_reserved_space(&mut self, space: u8)
        ensures
            final(self)@ == (PagerView { reserved_space: space as u16, ..old(self)@ }),
    {
        self.reserved_space = space as u16;
    }

    /// Sets the bytes at the end of each page that are not used.
    pub fn set_reserved_space_bytes(&mut self, value: u8)
        ensures
            final(self)@ == (PagerView { reserved_space: value as u16, ..old(self)@ }),
    {
        self.set_reserved_space(value);
    }

    /// Bytes of a page that are used for content: the page size less the reserved bytes. What is
    /// not known yet is read from the header and remembered. Only if page 1 could not be read, which
    /// `read_failed` says, the page size is then taken to be 4096 and the reserved bytes to be none.
    pub fn usable_space(&mut self, read_failed: bool) -> (r: IOResult<usize>)
        requires
            old(self)@.wf(),
            old(self)@.can_measure(),
        ensures
            final(self)@.wf(),
            if old(self)@.page1() is None && !old(self)@.knows_sizes() && !read_failed {
                &&& r matches IOResult::IO(IoRequest::ReadPage { page_no }) && page_no == 1
                &&& final(self)@ == old(self)@
            } else {
                &&& r matches IOResult::Done(n) && n == old(self)@.usable()
                &&& final(self)@ == old(self)@.measured()
            },
    {
        let known = self.get_page_size().is_some() && self.get_reserved_space().is_some();
        let page_no: usize = DatabaseHeader::PAGE_ID;
        if !known && !read_failed && self.db_initialized() && !self.has_page(page_no) {
            return IOResult::IO(IoRequest::ReadPage { page_no });
        }
        IOResult::Done(self.measure())
    }

    /// Bytes of a page that are used for content, as far as they are known or page 1 is there.
    pub(crate) fn measure(&mut self) -> (r: usize)
        requires
            old(self)@.wf(),
            old(self)@.can_measure(),
        ensures
            final(self)@.wf(),
            r == old(self)@.usable(),
            final(self)@ == old(self)@.measured(),
    {
        let page_size: PageSize = match self.get_page_size() {
            Some(size) => size,
            None => {
                let size: PageSize = match self.with_header() {
                    IOResult::Done(header) => header.page_size,
                    IOResult::IO(_) => PageSize::default(),
                };
                self.page_size = size.get();
                size
            },
        };
        let reserved_space: u8 = match self.get_reserved_space() {
            Some(space) => space,
            None => {
                let space: u8 = match self.with_header() {
                    IOResult::Done(header) => header.reserved_space,
                    IOResult::IO(_) => 0,
                };
                self.set_reserved_space(space);
                space
            },
        };
        page_size.get() as usize - reserved_space as usize
    }

    /// The remembered schema cookie, if there is one.
    pub fn get_schema_cookie_cached(&self) -> (r: Option<u32>)
        requires
            self@.schema_cookie == SCHEMA_COOKIE_NOT_SET || self@.schema_cookie <= u32::MAX,
        ensures
            r == (if self@.schema_cookie == SCHEMA_COOKIE_NOT_SET {
                None
            } else {
                Some(self@.schema_cookie as u32)
            }),
    {
        let value: u64 = self.schema_cookie;
        if value == SCHEMA_COOKIE_NOT_SET {
            None
        } else {
            Some(value as u32)
        }
    }

    /// Remembers the schema cookie, or forgets it.
    pub fn set_schema_cookie(&mut self, cookie: Option<u32>)
        ensures
            final(self)@ == (PagerView {
                schema_cookie: match cookie {
                    Some(c) => c as u64,
                    None => SCHEMA_COOKIE_NOT_SET,
                },
                ..old(self)@
            }),
    {
        self.schema_cookie = match cookie {
            Some(c) => c as u64,
            None => SCHEMA_COOKIE_NOT_SET,
        };
    }

    /// The schema cookie: the remembered one, or else the one in the header.
    pub fn get_schema_cookie(&mut self) -> (r: IOResult<u32>)
        requires
            old(self)@.wf(),
            old(self)@.header_readable(),
            old(self)@.schema_cookie == SCHEMA_COOKIE_NOT_SET || old(self)@.schema_cookie
                <= u32::MAX,
        ensures
            if old(self)@.schema_cookie != SCHEMA_COOKIE_NOT_SET {
                &&& r matches IOResult::Done(c) && c == old(self)@.schema_cookie
                &&& final(self)@ == old(self)@
            } else {
                match old(self)@.page1() {
                    None => {
                        &&& r matches IOResult::IO(IoRequest::ReadPage { page_no }) && page_no == 1
                        &&& final(self)@ == old(self)@
                    },
                    Some(_) => {
                        let cookie = old(self)@.header().schema_cookie;
                        &&& r matches IOResult::Done(c) && c == cookie
                        &&& final(self)@ == (PagerView {
                            schema_cookie: cookie as u64,
                            ..old(self)@
                        })
                    },
                }
            },
    {
        if let Some(cookie) = self.get_schema_cookie_cached() {
            return IOResult::Done(cookie);
        }
        match self.with_header() {
            IOResult::Done(header) => IOResult::Done(header.schema_cookie),
            IOResult::IO(io) => IOResult::IO(io),
        }
    }

    /// Reads the header, and remembers its schema cookie.
    pub fn with_header(&mut self) -> (r: IOResult<DatabaseHeader>)
        requires
            old(self)@.wf(),
            old(self)@.header_readable(),
        ensures
            match old(self)@.page1() {
                None => {
                    &&& r matches IOResult::IO(IoRequest::ReadPage { page_no }) && page_no == 1
                    &&& final(self)@ == old(self)@
                },
                Some(p) => {
                    &&& r matches IOResult::Done(h) && h == old(self)@.header() && h.is_in(
                        p.data(),
                    )
                    &&& final(self)@ == (PagerView {
                        schema_cookie: old(self)@.header().schema_cookie as u64,
                        ..old(self)@
                    })
                },
            },
    {
        let header = match &self.init_page_1 {
            Some(page) => DatabaseHeader::parse(page.inner.as_slice()),
            None => match self.page_cache.peek(DatabaseHeader::PAGE_ID) {
                Some(page) => {
                    if !page.is_loaded() {
                        return IOResult::IO(
                            IoRequest::ReadPage { page_no: DatabaseHeader::PAGE_ID },
                        );
                    }
                    DatabaseHeader::parse(page.inner.as_slice())
                },
                None => {
                    return IOResult::IO(IoRequest::ReadPage { page_no: DatabaseHeader::PAGE_ID });
                },
            },
        };
        self.schema_cookie = header.schema_cookie as u64;
        IOResult::Done(header)
    }

    /// Makes page 1 dirty and gives its header, which can then be changed.
    pub fn begin_header_mut(&mut self) -> (r: IOResult<DatabaseHeader>)
        requires
            old(self)@.wf(),
            old(self)@.header_ready(),
        ensures
            final(self)@.wf(),
            match old(self)@.page1() {
                None => {
                    &&& r matches IOResult::IO(IoRequest::ReadPage { page_no }) && page_no == 1
                    &&& final(self)@ == old(self)@
                },
                Some(p) => {
                    &&& r matches IOResult::Done(h) && h == old(self)@.header() && h.is_in(
                        p.data(),
                    )
                    &&& final(self)@ == old(self)@.header_dirtied()
                    &&& final(self)@.page1() == Some(p.dirtied())
                },
            },
    {
        let ghost before = self@;
        if self.init_page_1.is_some() {
            let mut page = self.init_page_1.take().unwrap();
            let header = DatabaseHeader::parse(page.inner.as_slice());
            let ghost mid = self@;
            assert(mid =~= (PagerView { init_page_1: None, ..before }));
            self.add_dirty(&mut page);
            self.init_page_1 = Some(page);
            assert(self@ =~= before.header_dirtied());
            return IOResult::Done(header);
        }
        let there = match self.page_cache.peek(DatabaseHeader::PAGE_ID) {
            Some(page) => page.is_loaded(),
            None => false,
        };
        if !there {
            return IOResult::IO(IoRequest::ReadPage { page_no: DatabaseHeader::PAGE_ID });
        }
        let mut page = self.page_cache.take(DatabaseHeader::PAGE_ID);
        let header = DatabaseHeader::parse(page.inner.as_slice());
        self.add_dirty(&mut page);
        self.page_cache.put(DatabaseHeader::PAGE_ID, page);
        assert(self@ =~= before.header_dirtied());
        IOResult::Done(header)
    }

    /// Writes a header into page 1, which is there.
    pub fn store_header(&mut self, header: &DatabaseHeader)
        requires
            old(self)@.wf(),
            old(self)@.page1() matches Some(p) && p.data().len() >= DATABASE_HEADER_SIZE,
        ensures
            final(self)@.wf(),
            final(self)@ == old(self)@.with_header(*header),
            final(self)@.page1() == Some(
                old(self)@.page1()->0.with_data(
                    crate::bytes::splice(old(self)@.page1()->0.data(), 0, header.encoded()),
                ),
            ),
            final(self)@.header() == *header,
    {
        let ghost before = self@;
        if self.init_page_1.is_some() {
            let mut page = self.init_page_1.take().unwrap();
            page.inner.write_database_header(header);
            self.init_page_1 = Some(page);
            assert(self@ =~= before.with_header(*header));
            return ;
        }
        let mut page = self.page_cache.take(DatabaseHeader::PAGE_ID);
        page.inner.write_database_header(header);
        self.page_cache.put(DatabaseHeader::PAGE_ID, page);
        assert(self@ =~= before.with_header(*header));
    }

    /// Makes page 1 dirty and writes a header into it; its schema cookie is remembered.
    pub fn with_header_mut(&mut self, header: &DatabaseHeader) -> (r: IOResult<()>)
        requires
            old(self)@.wf(),
            old(self)@.header_ready(),
        ensures
            final(self)@.wf(),
            match old(self)@.page1() {
                None => {
                    &&& r matches IOResult::IO(IoRequest::ReadPage { page_no }) && page_no == 1
                    &&& final(self)@ == old(self)@
                },
                Some(_) => {
                    &&& r is Done
                    &&& final(self)@ == (PagerView {
                        schema_cookie: header.schema_cookie as u64,
                        ..old(self)@.header_dirtied().with_header(*header)
                    })
                    &&& final(self)@.header() == *header
                },
            },
    {
        match self.begin_header_mut() {
            IOResult::IO(io) => IOResult::IO(io),
            IOResult::Done(_) => {
                self.store_header(header);
                self.schema_cookie = header.schema_cookie as u64;
                IOResult::Done(())
            },
        }
    }

    /// Takes note that a page is going to change: its image goes to the journal, if a savepoint
    /// is open that has none of it, and the page is dirty from now on.
    pub fn add_dirty(&mut self, page: &mut Page)
        requires
            old(self)@.wf(),
            old(self)@.can_mark(old(page)@),
        ensures
            final(self)@.wf(),
            final(self)@ == old(self)@.marked(old(page)@),
            final(page)@ == old(page)@.dirtied(),
    {
        self.subjournal_page_if_required(page);
        self.dirty_pages.insert(page.inner.id as u32);
        page.set_dirty();
    }

    /// Opens the journal, if it is not open.
    pub fn open_subjournal(&mut self)
        ensures
            old(self)@.wf() ==> final(self)@.wf(),
            final(self)@ == (if old(self)@.journal is Some {
                old(self)@
            } else {
                (PagerView {
                    journal: Some(JournalView { data: Seq::empty(), in_use: false }),
                    ..old(self)@
                })
            }),
    {
        if self.subjournal.is_some() {
            return ;
        }
        let ghost before = self@;
        self.subjournal = Some(Subjournal::new());
        assert(self@.savepoints =~= before.savepoints);
    }

    /// Puts a page's image in the journal, unless no savepoint is open or it is there already.
    pub fn subjournal_page_if_required(&mut self, page: &Page)
        requires
            old(self)@.wf(),
            old(self)@.can_mark(page@),
        ensures
            final(self)@.wf(),
            final(self)@ == old(self)@.journaled(page@),
    {
        let ghost before = self@;
        let id: u32 = page.inner.id as u32;
        if self.subjournal.is_none() {
            return ;
        }
        if self.savepoints.len() == 0 {
            return ;
        }
        let last: usize = self.savepoints.len() - 1;
        assert(self@.savepoints.last() == self.savepoints@[last as int]@);
        if self.savepoints[last].has_dirty_page(id) {
            return ;
        }
        let mut journal = self.subjournal.take().unwrap();
        journal.data.push((id / 0x100_0000) as u8);
        journal.data.push(((id / 0x1_0000) % 0x100) as u8);
        journal.data.push(((id / 0x100) % 0x100) as u8);
        journal.data.push((id % 0x100) as u8);
        journal.data.extend_from_slice(page.inner.as_slice());
        proof {
            let want = before.journal->0.data + be32_bytes(id) + page@.data();
            assert(journal.data@ =~= want);
        }
        let size: u64 = journal.size();
        self.subjournal = Some(journal);
        let mut savepoint = self.savepoints.pop().unwrap();
        savepoint.add_dirty_page(id);
        savepoint.write_offset = size;
        self.savepoints.push(savepoint);
        assert(self@.savepoints =~= before.journaled(page@).savepoints);
        assert(self@ =~= before.journaled(page@));
    }

    /// Takes the journal, which is open, for one statement; fails with `Busy` if another one has it.
    pub fn try_use_subjournal(&mut self) -> (r: Result<(), LimboError>)
        requires
            old(self)@.wf(),
            old(self)@.journal is Some,
        ensures
            final(self)@.wf(),
            final(self)@ == (PagerView {
                journal: Some(JournalView { in_use: true, ..old(self)@.journal->0 }),
                ..old(self)@
            }),
            r == (if old(self)@.journal->0.in_use {
                Err::<(), LimboError>(LimboError::Busy)
            } else {
                Ok::<(), LimboError>(())
            }),
    {
        let ghost before = self@;
        let r = self.subjournal.as_mut().unwrap().try_use();
        assert(self@.savepoints =~= before.savepoints);
        r
    }

    /// Gives the journal back.
    pub fn stop_use_subjournal(&mut self)
        requires
            old(self)@.wf(),
            old(self)@.journal matches Some(j) && j.in_use,
        ensures
            final(self)@.wf(),
            final(self)@ == (PagerView {
                journal: Some(JournalView { in_use: false, ..old(self)@.journal->0 }),
                ..old(self)@
            }),
    {
        let ghost before = self@;
        self.subjournal.as_mut().unwrap().stop_use();
        assert(self@.savepoints =~= before.savepoints);
    }

    /// Whether a statement has the journal.
    pub fn subjournal_in_use(&self) -> (r: bool)
        ensures
            r == (self@.journal matches Some(j) && j.in_use),
    {
        match &self.subjournal {
            Some(journal) => journal.in_use,
            None => false,
        }
    }

    /// Opens a savepoint for a database of `db_size` pages. The journal is open and empty, and
    /// no savepoint is open.
    pub fn open_savepoint(&mut self, db_size: u32)
        requires
            old(self)@.wf(),
            old(self)@.journal matches Some(j) && j.data.len() == 0,
            old(self)@.savepoints.len() == 0,
        ensures
            final(self)@.wf(),
            final(self)@ == (PagerView {
                savepoints: seq![
                    SavepointView {
                        start_offset: 0,
                        write_offset: 0,
                        pages: Set::empty(),
                        db_size,
                        wal_max_frame: match old(self)@.wal {
                            Some(w) => w.max_frame,
                            None => 0,
                        },
                        wal_checksum: match old(self)@.wal {
                            Some(w) => w.last_checksum,
                            None => (0, 0),
                        },
                    },
                ],
                ..old(self)@
            }),
            final(self)@ == old(self)@.savepoint_opened(db_size),
    {
        let subjournal_offset: u64 = self.subjournal.as_ref().unwrap().size();
        let (wal_max_frame, wal_checksum) = match &self.wal {
            Some(wal) => (wal.get_max_frame(), wal.get_last_checksum()),
            None => (0, (0, 0)),
        };
        let savepoint = Savepoint::new(subjournal_offset, db_size, wal_max_frame, wal_checksum);
        self.savepoints.push(savepoint);
        assert(self@.savepoints =~= seq![savepoint@]);
    }

    /// Closes the savepoint, if one is open, and keeps the changes since it was opened.
    pub fn release_savepoint(&mut self)
        requires
            old(self)@.wf(),
        ensures
            final(self)@.wf(),
            final(self)@ == (if old(self)@.savepoints.len() == 0 {
                old(self)@
            } else {
                (PagerView {
                    savepoints: Seq::empty(),
                    journal: Some(JournalView { data: Seq::empty(), ..old(self)@.journal->0 }),
                    ..old(self)@
                })
            }),
    {
        let ghost before = self@;
        if self.savepoints.len() == 0 {
            return ;
        }
        let savepoint = self.savepoints.pop().unwrap();
        assert(savepoint@ == before.savepoints[0]);
        let start_offset: u64 = savepoint.start_offset;
        self.subjournal.as_mut().unwrap().truncate(start_offset);
        assert(self@.savepoints =~= Seq::empty());
        assert(self@.journal->0.data =~= Seq::empty());
    }

    /// Closes the savepoint, if one is open, and empties the journal.
    pub fn clear_savepoints(&mut self)
        requires
            old(self)@.wf(),
        ensures
            final(self)@.wf(),
            final(self)@ == (PagerView {
                savepoints: Seq::empty(),
                journal: match old(self)@.journal {
                    Some(j) => Some(JournalView { data: Seq::empty(), ..j }),
                    None => None,
                },
                ..old(self)@
            }),
    {
        self.savepoints = Vec::new();
        if self.subjournal.is_some() {
            self.subjournal.as_mut().unwrap().truncate(0);
            assert(self@.journal->0.data =~= Seq::empty());
        }
        assert(self@.savepoints =~= Seq::empty());
    }

    /// Changes how many pages the cache may hold.
    pub fn change_page_cache_size(&mut self, capacity: usize) -> (r: CacheResizeResult)
        ensures
            ({
                let (pages, ok) = crate::page_cache::with_room(
                    old(self)@.cache.pages,
                    capacity,
                    0,
                );
                &&& final(self)@ == old(self)@.with_cache(
                    CacheView { pages, capacity, ..old(self)@.cache },
                )
                &&& r == (if ok {
                    CacheResizeResult::Done
                } else {
                    CacheResizeResult::PendingEvictions
                })
            }),
    {
        self.page_cache.resize(capacity)
    }

    /// Sets whether the database may be encrypted.
    pub fn enable_encryption(&mut self, enable: bool)
        ensures
            final(self)@ == (PagerView { enable_encryption: enable, ..old(self)@ }),
    {
        self.enable_encryption = enable;
    }
}

/// A new page: loaded, all zeros.
pub fn allocate_new_page(page_id: i64, page_size: usize) -> (r: Page)
    requires
        0 <= page_id,
    ensures
        r@ == blank_page(page_id as usize, page_size as nat),
{
    let mut page = Page::new(page_id);
    page.inner.buffer = Some(zeroed(page_size));
    page.set_loaded();
    page.clear_wal_tag();
    page
}

/// A savepoint keeps the first image of a page, that is the page as it was when the savepoint was
/// opened: once it has one, the page can change any number of times and the journal stays
/// as it is.
pub proof fn law_first_image_is_kept(v: PagerView, page: PageView, later: PageView)
    requires
        v.wf(),
        later.id == page.id,
    ensures
        v.journaled(page).journaled(later) == v.journaled(page),
{
}

} // verus!
