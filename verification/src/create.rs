//! The creation of btrees and of a database's first page.

use vstd::prelude::*;
use crate::bytes::{be16_bytes, be32_bytes, copy_range, fill_zero, splice};
use crate::db_header::DatabaseHeader;
use crate::error::{InternalFault, LimboError};
use crate::freelist::{lemma_allocated, AllocateStep, Turn};
use crate::ondisk::{is_page_size, PageSize, PageType};
use crate::page::{Page, PageView, DATABASE_HEADER_SIZE};
use crate::page_cache::lemma_with_room;
use crate::pager::{allocate_new_page, blank_page, Pager, PagerView, RESERVED_SPACE_NOT_SET};
use crate::pager_state::{AllocatePage1State, AllocatePageState, AutoVacuumMode,
    BtreeCreateVacuumFullState, BtreePageAllocMode, CreateBTreeFlags, IOResult, IoRequest,
    PtrMapPutState, VacuumState};
use crate::ptrmap::{is_map_page, is_ptrmap_page, PtrmapEntry, PtrmapType, PTRMAP_ENTRY_SIZE};
use crate::wal_append::FrameInput;
use crate::wal_shared::{SharedView, WalFileShared};

verus! {

/// The header of a btree page without cells.
pub open spec fn empty_btree_header(page_type: PageType, usable: int) -> Seq<u8> {
    seq![page_type.byte()] + be16_bytes(0) + be16_bytes(0) + be16_bytes((usable % 0x1_0000) as u16)
        + seq![0u8] + be32_bytes(0)
}

/// A page as a btree page without cells.
pub open spec fn as_btree(page: PageView, page_type: PageType, usable: int) -> PageView {
    page.with_data(splice(page.data(), page.start(), empty_btree_header(page_type, usable)))
}

/// Makes a page a btree page without cells. Cells will be put before the end of the usable space.
pub fn btree_init_page(page: &mut Page, page_type: PageType, usable_space: usize)
    requires
        old(page)@.buffer is Some,
        old(page)@.start() + 12 <= old(page)@.data().len(),
        usable_space <= PageSize::MAX,
    ensures
        final(page)@ == as_btree(old(page)@, page_type, usable_space as int),
{
    let ghost before = page@;
    page.inner.write_page_type(page_type.as_u8());
    page.inner.write_first_freeblock(0);
    page.inner.write_cell_count(0);
    page.inner.write_cell_content_area(usable_space);
    page.inner.write_fragmented_bytes_count(0);
    page.inner.write_rightmost_ptr(0);
    assert(page@.data() =~= as_btree(before, page_type, usable_space as int).data());
}

/// Page 1 of a database with nothing in it. The reserved bytes are those that encryption needs, if
/// there is any.
pub fn default_page1(reserved_space: Option<u8>) -> (r: Page)
    ensures
        ({
            let header = DatabaseHeader::decoded(r@.data());
            let reserved: u8 = match reserved_space {
                Some(n) => n,
                None => 0,
            };
            let plain = blank_page(1, 4096);
            &&& header.reserved_space == reserved
            &&& (DatabaseHeader { reserved_space: 0, ..header }).is_initial()
            &&& r@ == as_btree(
                plain.with_data(splice(plain.data(), 0, header.encoded())),
                PageType::TableLeaf,
                4096 - reserved,
            )
        }),
{
    let mut header = DatabaseHeader::default();
    let ghost initial = header;
    if let Some(n) = reserved_space {
        header.reserved_space = n;
    }
    let size: usize = header.page_size.get() as usize;
    let mut page = allocate_new_page(DatabaseHeader::PAGE_ID as i64, size);
    let ghost plain = page@;
    page.inner.write_database_header(&header);
    let usable: usize = size - header.reserved_space as usize;
    btree_init_page(&mut page, PageType::TableLeaf, usable);
    proof {
        lemma_header_before_btree(header, plain.data(), PageType::TableLeaf, usable as int);
        assert(initial =~= (DatabaseHeader { reserved_space: 0, ..header }));
    }
    page
}

/// The header of a database is still there after page 1 was made a btree page.
proof fn lemma_header_before_btree(
    header: DatabaseHeader,
    data: Seq<u8>,
    page_type: PageType,
    usable: int,
)
    requires
        data.len() >= 112,
    ensures
        DatabaseHeader::decoded(
            splice(
                splice(data, 0, header.encoded()),
                100,
                empty_btree_header(page_type, usable),
            ),
        ) == header,
{
    let written = splice(data, 0, header.encoded());
    let after = splice(written, 100, empty_btree_header(page_type, usable));
    crate::db_header::law_database_header_round_trip(header, data);
    crate::db_header::law_database_header_round_trip(header, after);
    assert(splice(after, 0, header.encoded()) =~= after);
}

/// Where a step leaves the creation of a btree.
#[derive(Debug, Clone, Copy, PartialEq, Eq, Structural)]
pub enum CreateStep {
    /// The next step can follow at once.
    Continue,
    /// The page has to be brought into the cache first.
    Read { page_no: usize },
    /// The root page is being allocated, and its allocation is here. It is not done.
    Allocating(AllocateStep),
    /// The btree was created.
    Done { root: u32 },
}

impl PagerView {
    /// The header that page 1 gets when it is written for the first time. `reserved` is what the
    /// files need if nothing else was said.
    pub open spec fn first_header(self, reserved: u8) -> DatabaseHeader {
        DatabaseHeader {
            database_size: 1,
            reserved_space: if self.reserved_space == RESERVED_SPACE_NOT_SET {
                reserved
            } else {
                self.reserved_space as u8
            },
            page_size: if is_page_size(self.page_size as int) {
                PageSize::of(self.page_size as int)
            } else {
                self.header().page_size
            },
            ..self.header()
        }
    }

    /// Page 1 when it is written for the first time.
    pub open spec fn first_page1(self, reserved: u8) -> PageView {
        let header = self.first_header(reserved);
        let plain = blank_page(1, header.page_size.bytes() as nat);
        as_btree(
            plain.with_data(splice(plain.data(), 0, header.encoded())),
            PageType::TableLeaf,
            header.page_size.bytes() - header.reserved_space,
        )
    }

    /// What the creation of page 1 needs: in its first step, an in-memory page 1 of an empty
    /// database.
    pub open spec fn can_allocate_page1(self) -> bool {
        &&& self.wf()
        &&& match self.allocate_page1_state {
            AllocatePage1State::Start => {
                &&& self.init_page_1 is Some
                &&& self.header_readable()
                &&& self.header().database_size == 0
                &&& self.header().page_size.valid()
                &&& self.reserved_space == RESERVED_SPACE_NOT_SET || self.reserved_space <= u8::MAX
            },
            AllocatePage1State::Writing { page } => {
                &&& page@.id == 1
                &&& page@.loaded
                &&& page@.buffer is Some
                &&& page@.pin_count > 0
            },
            AllocatePage1State::Done => false,
        }
    }

    /// A step of the allocation of a btree page.
    pub open spec fn allocate_btree_step(
        self,
        s: SharedView,
        turn: Turn,
        page_type: PageType,
    ) -> (PagerView, Result<AllocateStep, LimboError>) {
        let (v, r) = self.allocate_step(s, turn);
        match r {
            Ok(AllocateStep::Done { page_no }) => (
                v.measured().with_cached(page_no, as_btree(v.page(page_no), page_type, v.usable())),
                r,
            ),
            _ => (v, r),
        }
    }

    /// A step of the allocation of an overflow page.
    pub open spec fn allocate_overflow_step(self, s: SharedView, turn: Turn) -> (
        PagerView,
        Result<AllocateStep, LimboError>,
    ) {
        let (v, r) = self.allocate_step(s, turn);
        match r {
            Ok(AllocateStep::Done { page_no }) => (
                v.with_cached(
                    page_no,
                    v.page(page_no).with_data(
                        Seq::new(v.page(page_no).data().len(), |i: int| 0u8),
                    ),
                ),
                r,
            ),
            _ => (v, r),
        }
    }

    /// What the allocation of a btree page needs.
    pub open spec fn can_allocate_btree(self, s: SharedView) -> bool {
        &&& self.can_allocate(s)
        &&& self.can_measure()
        &&& self.allocate_page_state matches AllocatePageState::AllocateNewPage { current_db_size }
            ==> current_db_size >= 1
    }

    /// The same with the creation of a btree elsewhere.
    pub open spec fn with_create_state(self, state: BtreeCreateVacuumFullState) -> PagerView {
        PagerView {
            vacuum_state: VacuumState { btree_create_vacuum_full_state: state, ..self.vacuum_state },
            ..self
        }
    }

    /// The pager after a root page was allocated: the header knows the largest one.
    pub open spec fn with_root(self, root: u32) -> PagerView {
        let h = self.header();
        let largest = if root > h.vacuum_mode_largest_root_page {
            root
        } else {
            h.vacuum_mode_largest_root_page
        };
        PagerView {
            schema_cookie: h.schema_cookie as u64,
            ..self.header_dirtied().with_header(
                DatabaseHeader { vacuum_mode_largest_root_page: largest, ..h },
            )
        }.with_create_state(BtreeCreateVacuumFullState::PtrMapPut { allocated_page_id: root })
    }

    /// A step of the creation of a btree in a database with full autovacuum.
    pub open spec fn create_full_step(
        self,
        s: SharedView,
        turn: Turn,
        page_type: PageType,
    ) -> (PagerView, Result<CreateStep, LimboError>) {
        match self.vacuum_state.btree_create_vacuum_full_state {
            BtreeCreateVacuumFullState::Start => if self.page1() is None {
                (self, Ok(CreateStep::Read { page_no: 1 }))
            } else {
                (
                    self.with_cookie().with_create_state(
                        BtreeCreateVacuumFullState::AllocatePage {
                            root_page_num: next_root(
                                self.header().vacuum_mode_largest_root_page + 1,
                                self.header().page_size.bytes(),
                            ) as u32,
                        },
                    ),
                    Ok(CreateStep::Continue),
                )
            },
            BtreeCreateVacuumFullState::AllocatePage { .. } => {
                let (v, r) = self.allocate_btree_step(s, turn, page_type);
                match r {
                    Err(e) => (v, Err(e)),
                    Ok(AllocateStep::Done { page_no }) => (
                        v.with_root(page_no as u32),
                        Ok(CreateStep::Continue),
                    ),
                    Ok(step) => (v, Ok(CreateStep::Allocating(step))),
                }
            },
            BtreeCreateVacuumFullState::PtrMapPut { allocated_page_id } => {
                let entry = PtrmapEntry { entry_type: PtrmapType::RootPage, parent_page_no: 0 };
                let (v, r) = self.ptrmap_updated(allocated_page_id, entry);
                match r {
                    Err(e) => (v, Err(e)),
                    Ok(IOResult::IO(io)) => (
                        v,
                        Ok(CreateStep::Read { page_no: io->ReadPage_page_no }),
                    ),
                    Ok(IOResult::Done(())) => (
                        v.with_create_state(BtreeCreateVacuumFullState::Start),
                        Ok(CreateStep::Done { root: allocated_page_id }),
                    ),
                }
            },
        }
    }

    /// A step of the creation of a btree.
    pub open spec fn create_step(self, s: SharedView, turn: Turn, page_type: PageType) -> (
        PagerView,
        Result<CreateStep, LimboError>,
    ) {
        if self.auto_vacuum_mode == AutoVacuumMode::Full {
            self.create_full_step(s, turn, page_type)
        } else {
            let (v, r) = self.allocate_btree_step(s, turn, page_type);
            match r {
                Err(e) => (v, Err(e)),
                Ok(AllocateStep::Done { page_no }) => (
                    v,
                    Ok(CreateStep::Done { root: page_no as u32 }),
                ),
                Ok(step) => (v, Ok(CreateStep::Allocating(step))),
            }
        }
    }

    /// What the creation of a btree needs. There is no creation in a database with incremental
    /// autovacuum.
    pub open spec fn can_create(self, s: SharedView) -> bool {
        match self.auto_vacuum_mode {
            AutoVacuumMode::Disabled => self.can_allocate_btree(s),
            AutoVacuumMode::Incremental => false,
            AutoVacuumMode::Full => match self.vacuum_state.btree_create_vacuum_full_state {
                BtreeCreateVacuumFullState::Start => {
                    &&& self.wf()
                    &&& self.header_readable()
                    &&& self.page1() is Some ==> {
                        &&& self.header().page_size.valid()
                        &&& 0 < self.header().vacuum_mode_largest_root_page
                        &&& next_root(
                            self.header().vacuum_mode_largest_root_page + 1,
                            self.header().page_size.bytes(),
                        ) <= u32::MAX
                    }
                },
                BtreeCreateVacuumFullState::AllocatePage { .. } => self.can_allocate_btree(s),
                BtreeCreateVacuumFullState::PtrMapPut { allocated_page_id } => {
                    &&& self.wf()
                    &&& self.header_readable()
                    &&& self.can_mark_maps()
                    &&& self.vacuum_state.ptrmap_put_state is Start ==> self.can_map(
                        allocated_page_id,
                    )
                    &&& self.vacuum_state.ptrmap_put_state matches PtrMapPutState::Deserialize {
                        ptrmap_page,
                        offset_in_ptrmap_page,
                    } ==> offset_in_ptrmap_page <= u32::MAX - PTRMAP_ENTRY_SIZE && 2 <= ptrmap_page
                        <= u32::MAX
                },
            },
        }
    }
}

/// The first page from `p` on that is no pointer map page: two of those never follow each other.
pub open spec fn next_root(p: int, page_size: int) -> int {
    if is_map_page(p, page_size) {
        p + 1
    } else {
        p
    }
}

/// The page after a pointer map page is none.
proof fn lemma_map_pages_apart(p: int, page_size: int)
    requires
        page_size >= 512,
        is_map_page(p, page_size),
    ensures
        !is_map_page(p + 1, page_size),
{
    let c = crate::ptrmap::cycle(page_size);
    vstd::arithmetic::div_mod::lemma_fundamental_div_mod(p - 2, c);
    vstd::arithmetic::div_mod::lemma_fundamental_div_mod_converse(p - 1, c, (p - 2) / c, 1);
}

impl Pager {
    /// Sets the page size of a database that has nothing on disk yet.
    pub fn set_initial_page_size(&mut self, size: PageSize)
        requires
            old(self)@.wf(),
            old(self)@.init_page_1 is Some,
            old(self)@.header_ready(),
        ensures
            final(self)@.wf(),
            final(self)@ == (PagerView {
                page_size: size.bytes() as u32,
                schema_cookie: old(self)@.header().schema_cookie as u64,
                ..old(self)@.header_dirtied().with_header(
                    DatabaseHeader { page_size: size, ..old(self)@.header() },
                )
            }),
            final(self)@.header() == (DatabaseHeader { page_size: size, ..old(self)@.header() }),
    {
        if let IOResult::Done(current) = self.begin_header_mut() {
            let mut header = current;
            header.page_size = size;
            self.store_header(&header);
            self.schema_cookie = header.schema_cookie as u64;
            self.page_size = size.get();
        }
    }

    /// Takes the next step of writing page 1 for the first time. `reserved` is how many bytes of
    /// each page the files need, if nothing else was said.
    pub fn allocate_page1(&mut self, reserved: u8) -> (r: Result<IOResult<usize>, LimboError>)
        requires
            old(self)@.can_allocate_page1(),
        ensures
            final(self)@.wf(),
            match old(self)@.allocate_page1_state {
                AllocatePage1State::Writing { page } => {
                    let (cache, inserted) = old(self)@.cache.inserted(
                        1,
                        PageView { pin_count: (page@.pin_count - 1) as usize, ..page@ },
                    );
                    match inserted {
                        Err(e) => {
                            &&& r == Err::<IOResult<usize>, LimboError>(
                                LimboError::InternalError(
                                    InternalFault::CacheInsert { page_id: 1, reason: e },
                                ),
                            )
                            &&& final(self)@ == old(self)@.with_cache(cache)
                        },
                        Ok(()) => {
                            &&& r == Ok::<IOResult<usize>, LimboError>(IOResult::Done(1))
                            &&& final(self)@ == (PagerView {
                                cache,
                                init_page_1: None,
                                allocate_page1_state: AllocatePage1State::Done,
                                ..old(self)@
                            })
                        },
                    }
                },
                _ => {
                    let first = old(self)@.first_page1(reserved);
                    &&& r matches Ok(IOResult::IO(IoRequest::WriteDbPages { pages }))
                        && pages@.len() == 1 && pages@[0]@ == (1u32, first.data())
                    &&& final(self)@.allocate_page1_state matches AllocatePage1State::Writing { page }
                        && page@ == (PageView { pin_count: 1, ..first })
                    &&& final(self)@ == (PagerView {
                        reserved_space: old(self)@.first_header(reserved).reserved_space as u16,
                        allocate_page1_state: final(self)@.allocate_page1_state,
                        ..old(self)@.with_cookie()
                    })
                },
            },
    {
        let ghost before = self@;
        let writing = match self.allocate_page1_state {
            AllocatePage1State::Writing { .. } => true,
            _ => false,
        };
        if writing {
            return self.finish_page1();
        }
        let mut header = match self.with_header() {
            IOResult::Done(header) => header,
            IOResult::IO(io) => {
                return Ok(IOResult::IO(io));
            },
        };
        header.database_size = 1;
        let reserved_space: u8 = match self.get_reserved_space() {
            Some(n) => n,
            None => reserved,
        };
        header.reserved_space = reserved_space;
        self.set_reserved_space(reserved_space);
        if let Some(size) = self.get_page_size() {
            header.page_size = size;
        }
        proof {
            assert(header.page_size == before.first_header(reserved).page_size);
            assert(header == before.first_header(reserved));
        }
        let size: usize = header.page_size.get() as usize;
        let mut page = allocate_new_page(1, size);
        page.inner.write_database_header(&header);
        btree_init_page(&mut page, PageType::TableLeaf, size - reserved_space as usize);
        let data = copy_range(page.inner.as_slice(), 0, size);
        assert(data@ =~= page@.data());
        let mut pages: Vec<FrameInput> = Vec::new();
        pages.push(FrameInput { page_id: 1, data });
        page.pin();
        self.allocate_page1_state = AllocatePage1State::Writing { page };
        Ok(IOResult::IO(IoRequest::WriteDbPages { pages }))
    }

    /// Puts page 1, which is on disk now, in the cache.
    fn finish_page1(&mut self) -> (r: Result<IOResult<usize>, LimboError>)
        requires
            old(self)@.can_allocate_page1(),
            old(self)@.allocate_page1_state is Writing,
        ensures
            final(self)@.wf(),
            ({
                let page = old(self)@.allocate_page1_state->page;
                let (cache, inserted) = old(self)@.cache.inserted(
                    1,
                    PageView { pin_count: (page@.pin_count - 1) as usize, ..page@ },
                );
                match inserted {
                    Err(e) => {
                        &&& r == Err::<IOResult<usize>, LimboError>(
                            LimboError::InternalError(
                                InternalFault::CacheInsert { page_id: 1, reason: e },
                            ),
                        )
                        &&& final(self)@ == old(self)@.with_cache(cache)
                    },
                    Ok(()) => {
                        &&& r == Ok::<IOResult<usize>, LimboError>(IOResult::Done(1))
                        &&& final(self)@ == (PagerView {
                            cache,
                            init_page_1: None,
                            allocate_page1_state: AllocatePage1State::Done,
                            ..old(self)@
                        })
                    },
                }
            }),
    {
        let ghost before = self@;
        proof {
            lemma_with_room(before.cache.pages, before.cache.capacity, 1);
        }
        if self.page_cache.contains_key(1) {
            return Err(
                LimboError::InternalError(
                    InternalFault::CacheInsert {
                        page_id: 1,
                        reason: crate::error::CacheError::KeyExists,
                    },
                ),
            );
        }
        match self.page_cache.make_room_for(1) {
            Err(e) => {
                return Err(
                    LimboError::InternalError(InternalFault::CacheInsert { page_id: 1, reason: e }),
                );
            },
            Ok(()) => {},
        }
        let mut state = AllocatePage1State::Done;
        std::mem::swap(&mut state, &mut self.allocate_page1_state);
        if let AllocatePage1State::Writing { page } = state {
            let mut page = page;
            page.unpin();
            self.page_cache.put(1, page);
        }
        self.init_page_1 = None;
        Ok(IOResult::Done(1))
    }

    /// Sees to it that page 1 is on disk. `first` says whether nobody else is about it.
    pub fn maybe_allocate_page1(&mut self, first: bool, reserved: u8) -> (r: Result<
        IOResult<()>,
        LimboError,
    >)
        requires
            old(self)@.wf(),
            old(self)@.init_page_1 is Some && first ==> old(self)@.can_allocate_page1(),
        ensures
            final(self)@.wf(),
            if old(self)@.init_page_1 is None {
                &&& r == Ok::<IOResult<()>, LimboError>(IOResult::Done(()))
                &&& final(self)@ == old(self)@
            } else if !first {
                &&& r == Ok::<IOResult<()>, LimboError>(IOResult::IO(IoRequest::Yield))
                &&& final(self)@ == old(self)@
            } else {
                match old(self)@.allocate_page1_state {
                    AllocatePage1State::Writing { page } => {
                        let (cache, inserted) = old(self)@.cache.inserted(
                            1,
                            PageView { pin_count: (page@.pin_count - 1) as usize, ..page@ },
                        );
                        match inserted {
                            Err(e) => {
                                &&& r == Err::<IOResult<()>, LimboError>(
                                    LimboError::InternalError(
                                        InternalFault::CacheInsert { page_id: 1, reason: e },
                                    ),
                                )
                                &&& final(self)@ == old(self)@.with_cache(cache)
                            },
                            Ok(()) => {
                                &&& r == Ok::<IOResult<()>, LimboError>(IOResult::Done(()))
                                &&& final(self)@ == (PagerView {
                                    cache,
                                    init_page_1: None,
                                    allocate_page1_state: AllocatePage1State::Done,
                                    ..old(self)@
                                })
                            },
                        }
                    },
                    _ => {
                        let page1 = old(self)@.first_page1(reserved);
                        &&& r matches Ok(IOResult::IO(IoRequest::WriteDbPages { pages }))
                            && pages@.len() == 1 && pages@[0]@ == (1u32, page1.data())
                        &&& final(self)@.allocate_page1_state matches AllocatePage1State::Writing {
                            page,
                        } && page@ == (PageView { pin_count: 1, ..page1 })
                        &&& final(self)@ == (PagerView {
                            reserved_space: old(self)@.first_header(reserved).reserved_space as u16,
                            allocate_page1_state: final(self)@.allocate_page1_state,
                            ..old(self)@.with_cookie()
                        })
                    },
                }
            },
    {
        if self.db_initialized() {
            return Ok(IOResult::Done(()));
        }
        if !first {
            return Ok(IOResult::IO(IoRequest::Yield));
        }
        match self.allocate_page1(reserved) {
            Err(e) => Err(e),
            Ok(IOResult::IO(io)) => Ok(IOResult::IO(io)),
            Ok(IOResult::Done(_)) => Ok(IOResult::Done(())),
        }
    }

    /// Takes the next step of allocating an overflow page, which is all zeros.
    pub fn allocate_overflow_page(
        &mut self,
        shared: &WalFileShared,
        turn: Turn,
    ) -> (r: Result<AllocateStep, LimboError>)
        requires
            old(self)@.can_allocate(shared@),
        ensures
            final(self)@.wf(),
            (final(self)@, r) == old(self)@.allocate_overflow_step(shared@, turn),
    {
        let ghost before = self@;
        let r = self.allocate_page(shared, turn);
        if let Ok(AllocateStep::Done { page_no }) = r {
            proof {
                lemma_allocated(before, shared@, turn);
            }
            self.zero_page(page_no);
        }
        r
    }

    /// Sets the bytes of a page in the cache to zero.
    fn zero_page(&mut self, id: usize)
        requires
            old(self)@.wf(),
            old(self)@.has(id),
        ensures
            final(self)@.wf(),
            final(self)@ == old(self)@.with_cached(
                id,
                old(self)@.page(id).with_data(
                    Seq::new(old(self)@.page(id).data().len(), |i: int| 0u8),
                ),
            ),
    {
        let ghost v = self@;
        let mut page = self.page_cache.take(id);
        {
            let buf = page.inner.as_ptr();
            fill_zero(buf);
        }
        self.page_cache.put(id, page);
        assert(self@ =~= v.with_cached(
            id,
            v.page(id).with_data(Seq::new(v.page(id).data().len(), |i: int| 0u8)),
        ));
    }

    /// Makes a page in the cache a btree page without cells.
    fn init_page(&mut self, id: usize, page_type: PageType)
        requires
            old(self)@.wf(),
            old(self)@.can_measure(),
            old(self)@.has(id),
            id != 1,
            old(self)@.page(id).data().len() >= 12,
        ensures
            final(self)@.wf(),
            final(self)@ == old(self)@.measured().with_cached(
                id,
                as_btree(old(self)@.page(id), page_type, old(self)@.usable()),
            ),
    {
        let ghost v = self@;
        let usable: usize = self.measure();
        let mut page = self.page_cache.take(id);
        btree_init_page(&mut page, page_type, usable);
        self.page_cache.put(id, page);
        assert(self@ =~= v.measured().with_cached(
            id,
            as_btree(v.page(id), page_type, v.usable()),
        ));
    }

    /// Takes note of a root page that was allocated.
    fn note_root(&mut self, root: u32)
        requires
            old(self)@.wf(),
            old(self)@.header_ready(),
            old(self)@.page1() is Some,
        ensures
            final(self)@.wf(),
            final(self)@ == old(self)@.with_root(root),
    {
        let ghost mid = self@;
        if let IOResult::Done(current) = self.begin_header_mut() {
            let mut header = current;
            if root > header.vacuum_mode_largest_root_page {
                header.vacuum_mode_largest_root_page = root;
            }
            self.store_header(&header);
            self.schema_cookie = header.schema_cookie as u64;
            self.vacuum_state.btree_create_vacuum_full_state =
            BtreeCreateVacuumFullState::PtrMapPut { allocated_page_id: root };
            assert(self@ =~= mid.with_root(root));
        }
    }

    /// Takes the next step of allocating a page of a btree; the page is then one without cells. Which
    /// page it is does not depend on the wish.
    pub fn do_allocate_page(
        &mut self,
        shared: &WalFileShared,
        page_type: PageType,
        _alloc_mode: BtreePageAllocMode,
        turn: Turn,
    ) -> (r: Result<AllocateStep, LimboError>)
        requires
            old(self)@.can_allocate_btree(shared@),
        ensures
            final(self)@.wf(),
            (final(self)@, r) == old(self)@.allocate_btree_step(shared@, turn, page_type),
    {
        let ghost before = self@;
        let r = self.allocate_page(shared, turn);
        if let Ok(AllocateStep::Done { page_no }) = r {
            proof {
                lemma_allocated(before, shared@, turn);
            }
            self.init_page(page_no, page_type);
        }
        r
    }

    /// Takes the next step of creating a btree: its root page is allocated, and with full autovacuum
    /// it is entered in the pointer map. `turn` is for the allocation of the root page: a step that does
    /// not follow one of [`CreateStep::Allocating`] enters it.
    pub fn btree_create(
        &mut self,
        shared: &WalFileShared,
        flags: &CreateBTreeFlags,
        turn: Turn,
    ) -> (r: Result<CreateStep, LimboError>)
        requires
            flags.table() || flags.index(),
            old(self)@.can_create(shared@),
        ensures
            final(self)@.wf(),
            (final(self)@, r) == old(self)@.create_step(
                shared@,
                turn,
                if flags.table() {
                    PageType::TableLeaf
                } else {
                    PageType::IndexLeaf
                },
            ),
    {
        let page_type = if flags.is_table() {
            PageType::TableLeaf
        } else {
            PageType::IndexLeaf
        };
        match self.auto_vacuum_mode {
            AutoVacuumMode::Full => self.btree_create_full(shared, page_type, turn),
            _ => match self.do_allocate_page(shared, page_type, BtreePageAllocMode::Any, turn) {
                Err(e) => Err(e),
                Ok(AllocateStep::Done { page_no }) => Ok(CreateStep::Done { root: page_no as u32 }),
                Ok(step) => Ok(CreateStep::Allocating(step)),
            },
        }
    }

    fn btree_create_full(
        &mut self,
        shared: &WalFileShared,
        page_type: PageType,
        turn: Turn,
    ) -> (r: Result<CreateStep, LimboError>)
        requires
            old(self)@.can_create(shared@),
            old(self)@.auto_vacuum_mode == AutoVacuumMode::Full,
        ensures
            final(self)@.wf(),
            (final(self)@, r) == old(self)@.create_full_step(shared@, turn, page_type),
    {
        let ghost before = self@;
        match self.vacuum_state.btree_create_vacuum_full_state {
            BtreeCreateVacuumFullState::Start => {
                let header = match self.with_header() {
                    IOResult::IO(_) => {
                        return Ok(CreateStep::Read { page_no: 1 });
                    },
                    IOResult::Done(header) => header,
                };
                let page_size: usize = header.page_size.get() as usize;
                let mut root: u32 = header.vacuum_mode_largest_root_page + 1;
                let ghost first = root as int;
                while is_ptrmap_page(root, page_size)
                    invariant
                        PageSize::MIN <= page_size <= PageSize::MAX,
                        2 <= first,
                        next_root(first, page_size as int) <= u32::MAX,
                        first <= root <= first + 1,
                        root == first + 1 ==> is_map_page(first, page_size as int),
                    ensures
                        root == next_root(first, page_size as int),
                    decreases first + 2 - root,
                {
                    proof {
                        lemma_map_pages_apart(first, page_size as int);
                    }
                    root = root + 1;
                }
                self.vacuum_state.btree_create_vacuum_full_state =
                BtreeCreateVacuumFullState::AllocatePage { root_page_num: root };
                Ok(CreateStep::Continue)
            },
            BtreeCreateVacuumFullState::AllocatePage { root_page_num } => {
                match self.do_allocate_page(
                    shared,
                    page_type,
                    BtreePageAllocMode::Exact(root_page_num),
                    turn,
                ) {
                    Err(e) => Err(e),
                    Ok(AllocateStep::Done { page_no }) => {
                        let ghost mid = self@;
                        proof {
                            let allocated = before.allocate_step(shared@, turn).0;
                            lemma_allocated(before, shared@, turn);
                            lemma_header_can_be_marked(
                                allocated,
                                mid,
                                page_no,
                                as_btree(allocated.page(page_no), page_type, allocated.usable()),
                            );
                        }
                        self.note_root(page_no as u32);
                        Ok(CreateStep::Continue)
                    },
                    Ok(step) => Ok(CreateStep::Allocating(step)),
                }
            },
            BtreeCreateVacuumFullState::PtrMapPut { allocated_page_id } => {
                match self.ptrmap_put(allocated_page_id, PtrmapType::RootPage, 0) {
                    Err(e) => Err(e),
                    Ok(IOResult::IO(IoRequest::ReadPage { page_no })) => Ok(
                        CreateStep::Read { page_no },
                    ),
                    Ok(IOResult::IO(_)) => {
                        assert(false);
                        Ok(CreateStep::Continue)
                    },
                    Ok(IOResult::Done(())) => {
                        self.vacuum_state.btree_create_vacuum_full_state =
                        BtreeCreateVacuumFullState::Start;
                        Ok(CreateStep::Done { root: allocated_page_id })
                    },
                }
            },
        }
    }
}

/// Page 1 can be made dirty again after a page was allocated: its image, if it is needed, is in
/// the journal.
proof fn lemma_header_can_be_marked(v: PagerView, w: PagerView, page_no: usize, page: PageView)
    requires
        v.page1() matches Some(p) && p.data().len() >= DATABASE_HEADER_SIZE && p.id == 1 && p.loaded
            && p.buffer is Some,
        !v.journals(1),
        page_no != 1,
        w.cache == v.cache.with_pages(v.cache.pages.insert(page_no, page)),
        w.init_page_1 == v.init_page_1,
        w.journal == v.journal,
        w.savepoints == v.savepoints,
    ensures
        w.header_ready(),
        w.page1() == v.page1(),
{
}

} // verus!
