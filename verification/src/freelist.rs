//! Allocating and freeing pages.
//!
//! Free pages are on a list of trunk pages: a trunk page holds the number of the next one, the
//! number of its leaves, and the leaves, which are free pages too.

use vstd::prelude::*;
use crate::bytes::{be32, be32_bytes, fill_zero, lemma_be32_at, splice};
use crate::db_header::{law_database_header_round_trip, DatabaseHeader};
use crate::error::{CacheError, Corruption, LimboError};
use crate::ondisk::{PageSize, FREELIST_LEAF_PTR_SIZE, FREELIST_TRUNK_OFFSET_FIRST_LEAF_PTR,
    FREELIST_TRUNK_OFFSET_LEAF_COUNT, FREELIST_TRUNK_OFFSET_NEXT_TRUNK_PTR};
use crate::page::{PageView, DATABASE_HEADER_SIZE};
use crate::page_cache::{evictable, lemma_inserted_wf, lemma_with_room};
use crate::pager::{allocate_new_page, blank_page, Pager, PagerView};
use crate::pager_state::{AllocatePageState, AutoVacuumMode, FreePageState, IOResult, IoRequest};
use crate::ptrmap::{is_map_page, is_ptrmap_page};
use crate::read::{ReadPlan, ReadStep, SpillOutcome};
use crate::wal_shared::{SharedView, WalFileShared};

verus! {

/// The trunk page after this one.
pub open spec fn next_trunk(data: Seq<u8>) -> u32 {
    be32(data, 0) as u32
}

/// How many leaves a trunk page has.
pub open spec fn leaf_count(data: Seq<u8>) -> u32 {
    be32(data, 4) as u32
}

/// A trunk page's leaves.
pub open spec fn leaves(data: Seq<u8>) -> Seq<u32> {
    Seq::new(leaf_count(data) as nat, |i: int| be32(data, 8 + 4 * i) as u32)
}

/// A trunk page without its first leaf: the others move up.
pub open spec fn without_first_leaf(data: Seq<u8>, n: u32) -> Seq<u8> {
    splice(
        Seq::new(
            data.len(),
            |i: int|
                if 8 <= i < 8 + 4 * (n - 1) {
                    data[i + 4]
                } else {
                    data[i]
                },
        ),
        4,
        be32_bytes((n - 1) as u32),
    )
}

/// A trunk page with another leaf behind those that it has.
pub open spec fn with_leaf(data: Seq<u8>, page: u32) -> Seq<u8> {
    let n = leaf_count(data);
    splice(splice(data, 4, be32_bytes((n + 1) as u32)), 8 + 4 * n, be32_bytes(page))
}

/// A page as a trunk page without leaves.
pub open spec fn as_trunk(data: Seq<u8>, next: u32) -> Seq<u8> {
    splice(splice(data, 0, be32_bytes(next)), 4, be32_bytes(0))
}

/// What has happened since the last step of an allocation.
#[derive(Debug, Clone, Copy, PartialEq, Eq, Structural)]
pub enum Turn {
    /// The allocation begins, or the bytes of a page came that the last step asked for. The cache may
    /// be full.
    Enter,
    /// The last step asked for nothing, or room was made or page 1 brought into the cache for it.
    Proceed,
    /// Pages were to be spilled, as the last step asked, and this came of it.
    Spilled(SpillOutcome),
}

impl Turn {
    /// What was done about the page that found the cache full.
    pub open spec fn after(self) -> SpillOutcome {
        match self {
            Turn::Spilled(outcome) => outcome,
            _ => SpillOutcome::NotTried,
        }
    }

    /// What was done about the page that found the cache full.
    fn outcome(self) -> (r: SpillOutcome)
        ensures
            r == self.after(),
    {
        match self {
            Turn::Spilled(outcome) => outcome,
            _ => SpillOutcome::NotTried,
        }
    }
}

/// Where a step leaves an allocation.
#[derive(Debug, Clone, Copy, PartialEq, Eq, Structural)]
pub enum AllocateStep {
    /// The next step can follow at once.
    Continue,
    /// The cache is full: room for one more page has to be made before the next step.
    MakeRoom,
    /// Page 1 has to be brought into the cache first.
    Read { page_no: usize },
    /// The page is in the cache, and its bytes are to be read before the next step.
    Load { page_no: usize, plan: ReadPlan },
    /// The cache has no room for a page that is to be read: pages have to be spilled before the next
    /// step.
    Spill,
    /// The page was allocated, and is in the cache.
    Done { page_no: usize },
}

/// Where a step leaves the freeing of a page.
#[derive(Debug, Clone, Copy, PartialEq, Eq, Structural)]
pub enum FreeStep {
    /// The next step can follow at once.
    Continue,
    /// Page 1 has to be brought into the cache first.
    Read { page_no: usize },
    /// The page is in the cache, and its bytes are to be read before the next step.
    Load { page_no: usize, plan: ReadPlan },
    /// The cache is full: pages have to be spilled before the next step.
    Spill,
    /// The page is free.
    Done,
}

impl AllocateStep {
    /// What follows the reading of a page, which is in the cache now.
    pub open spec fn after_read(page_no: usize, step: ReadStep) -> AllocateStep {
        match step {
            ReadStep::Started(plan) => AllocateStep::Load { page_no, plan },
            _ => AllocateStep::Continue,
        }
    }
}

impl FreeStep {
    /// What follows the reading of a page, which is in the cache now.
    pub open spec fn after_read(page_no: usize, step: ReadStep) -> FreeStep {
        match step {
            ReadStep::Started(plan) => FreeStep::Load { page_no, plan },
            _ => FreeStep::Continue,
        }
    }
}

impl PagerView {
    /// The pager after a new page was made and put in the cache, and what came of it.
    pub open spec fn with_new_page(self, id: usize, page_size: nat) -> (PagerView, Result<
        (),
        CacheError,
    >) {
        let page = blank_page(id, page_size);
        let marked = self.marked(page);
        let (cache, r) = marked.cache.inserted(id, page.dirtied());
        (marked.with_cache(cache), r)
    }

    /// The pager after a page in the cache was made dirty and given other bytes.
    pub open spec fn rewritten(self, id: usize, data: Seq<u8>) -> PagerView {
        self.marked(self.page(id)).with_cached(id, self.page(id).dirtied().with_data(data))
    }

    /// Pages can be made dirty: if a savepoint is open, pages are as long as the pager says, and
    /// `n` images fit the journal.
    pub open spec fn journal_room(self, n: int) -> bool {
        self.savepoints.len() > 0 ==> {
            &&& self.page1() is Some ==> self.page_size == self.header().page_size.bytes()
            &&& self.journal->0.data.len() + n * (4 + self.page_size) <= usize::MAX
            &&& forall|k: usize| #[trigger]
                self.cache.pages.contains_key(k) && self.cache.pages[k].loaded
                    ==> self.cache.pages[k].data().len() == self.page_size
        }
    }

    /// The same with one more pin on page `id`.
    pub open spec fn with_pin(self, id: usize) -> PagerView {
        self.with_cached(
            id,
            PageView { pin_count: (self.page(id).pin_count + 1) as usize, ..self.page(id) },
        )
    }

    /// The same with one pin less on page `id`.
    pub open spec fn without_pin(self, id: usize) -> PagerView {
        self.with_cached(
            id,
            PageView { pin_count: (self.page(id).pin_count - 1) as usize, ..self.page(id) },
        )
    }

    /// Page `id` can be on the freelist, and can be read and pinned.
    pub open spec fn can_take(self, s: SharedView, id: usize) -> bool {
        &&& 2 <= id <= u32::MAX
        &&& self.can_read(s, id as int, None)
        &&& self.cache.pages.contains_key(id) ==> self.page(id).pin_count < usize::MAX
    }

    /// Page `id` is one that can be on the freelist, and is loaded and pinned.
    pub open spec fn holds_list_page(self, id: usize) -> bool {
        &&& 2 <= id <= u32::MAX
        &&& self.has(id)
        &&& self.page(id).data().len() >= 12
        &&& self.page(id).pin_count > 0
    }

    /// What an allocation needs.
    pub open spec fn can_allocate(self, s: SharedView) -> bool {
        &&& self.wf()
        &&& self.header_ready()
        &&& self.journal_room(4)
        &&& self.page1() is Some ==> {
            &&& self.header().page_size.valid()
            &&& match self.allocate_page_state {
                AllocatePageState::Start => {
                    &&& self.header().database_size <= u32::MAX - 3
                    &&& self.header().freelist_trunk_page != 0 ==> self.can_take(
                        s,
                        self.header().freelist_trunk_page as usize,
                    )
                },
                AllocatePageState::SearchAvailableFreeListLeaf { trunk_page } => {
                    let data = self.page(trunk_page).data();
                    &&& self.holds_list_page(trunk_page)
                    &&& if leaf_count(data) == 0 {
                        &&& self.header().freelist_pages > 0
                        &&& self.page(trunk_page).overflow_cells.len() == 0
                    } else {
                        self.can_take(s, be32(data, 8) as usize)
                    }
                },
                AllocatePageState::ReuseFreelistLeaf {
                    trunk_page,
                    leaf_page,
                    number_of_freelist_leaves,
                } => {
                    &&& self.holds_list_page(trunk_page)
                    &&& self.holds_list_page(leaf_page)
                    &&& trunk_page == leaf_page ==> self.page(trunk_page).pin_count >= 2
                    &&& number_of_freelist_leaves >= 1
                    &&& 8 + 4 * number_of_freelist_leaves <= self.page(trunk_page).data().len()
                    &&& self.page(leaf_page).overflow_cells.len() == 0
                    &&& self.header().freelist_pages > 0
                },
                AllocatePageState::AllocateNewPage { current_db_size } => {
                    &&& current_db_size <= u32::MAX - 2
                    &&& Pager::pending_page(self.page_size) == Some((current_db_size + 1) as u32)
                        ==> self.header_dirtied().with_new_page(
                        (current_db_size + 1) as usize,
                        self.header().page_size.bytes() as nat,
                    ).1 is Ok
                },
            }
        }
    }

    /// The first step of an allocation, with page 1 dirty: a database with full autovacuum whose next
    /// page is a pointer map page gets that page, unless it got it before pages were spilled. Then the
    /// first trunk page, if there is one, is brought into the cache and pinned. The header counts a
    /// pointer map page only when the database grows behind it.
    pub open spec fn allocate_start(self, s: SharedView, turn: Turn) -> (PagerView, Result<
        AllocateStep,
        LimboError,
    >) {
        let h = self.header();
        let size = h.database_size;
        let grows = !(turn is Spilled) && self.auto_vacuum_mode == AutoVacuumMode::Full && is_map_page(
            size + 1,
            h.page_size.bytes(),
        );
        let (grown, r) = if grows {
            self.with_new_page((size + 1) as usize, h.page_size.bytes() as nat)
        } else {
            (self, Ok(()))
        };
        let now = if grows {
            (size + 1) as u32
        } else {
            size
        };
        let trunk = h.freelist_trunk_page as usize;
        match r {
            Err(e) => (grown, Err(LimboError::CacheError(e))),
            Ok(()) => if trunk == 0 {
                (
                    PagerView {
                        allocate_page_state: AllocatePageState::AllocateNewPage {
                            current_db_size: now,
                        },
                        ..grown
                    },
                    Ok(AllocateStep::Continue),
                )
            } else {
                let (v, q) = grown.read_step(s, trunk, turn.after());
                match q {
                    Err(e) => (v, Err(e)),
                    Ok(ReadStep::Spill) => (v, Ok(AllocateStep::Spill)),
                    Ok(step) => (
                        PagerView {
                            allocate_page_state: AllocatePageState::SearchAvailableFreeListLeaf {
                                trunk_page: trunk,
                            },
                            ..v.with_pin(trunk)
                        },
                        Ok(AllocateStep::after_read(trunk, step)),
                    ),
                }
            },
        }
    }

    /// The step that looks at the first trunk page, with page 1 dirty. The first leaf, if there is
    /// one, is brought into the cache and pinned; the trunk page stays pinned.
    pub open spec fn allocate_search(self, s: SharedView, trunk: usize, after: SpillOutcome) -> (
        PagerView,
        Result<AllocateStep, LimboError>,
    ) {
        let data = self.page(trunk).data();
        let n = leaf_count(data);
        if n != 0 {
            let leaf = be32(data, 8) as usize;
            let (v, q) = self.read_step(s, leaf, after);
            match q {
                Err(e) => (v, Err(e)),
                Ok(ReadStep::Spill) => (v, Ok(AllocateStep::Spill)),
                Ok(step) => (
                    PagerView {
                        allocate_page_state: AllocatePageState::ReuseFreelistLeaf {
                            trunk_page: trunk,
                            leaf_page: leaf,
                            number_of_freelist_leaves: n,
                        },
                        ..v.with_pin(leaf)
                    },
                    Ok(AllocateStep::after_read(leaf, step)),
                ),
            }
        } else {
            let h = self.header();
            (
                PagerView {
                    allocate_page_state: AllocatePageState::Start,
                    ..self.rewritten(trunk, Seq::new(data.len(), |i: int| 0u8)).with_header(
                        DatabaseHeader {
                            freelist_trunk_page: next_trunk(data),
                            freelist_pages: (h.freelist_pages - 1) as u32,
                            ..h
                        },
                    ).without_pin(trunk)
                },
                Ok(AllocateStep::Done { page_no: trunk }),
            )
        }
    }

    /// The step that takes a leaf off the first trunk page, with page 1 dirty. Both pages lose the
    /// pins that the allocation gave them.
    pub open spec fn allocate_reuse(self, trunk: usize, leaf: usize, n: u32) -> (PagerView, Result<
        AllocateStep,
        LimboError,
    >) {
        let h = self.header();
        let cleared = self.rewritten(
            leaf,
            Seq::new(self.page(leaf).data().len(), |i: int| 0u8),
        );
        (
            PagerView {
                allocate_page_state: AllocatePageState::Start,
                ..cleared.rewritten(
                    trunk,
                    without_first_leaf(cleared.page(trunk).data(), n),
                ).with_header(
                    DatabaseHeader { freelist_pages: (h.freelist_pages - 1) as u32, ..h },
                ).without_pin(trunk).without_pin(leaf)
            },
            Ok(AllocateStep::Done { page_no: leaf }),
        )
    }

    /// The step that makes the database grow, with page 1 dirty. The page with the pending byte is
    /// made and passed over.
    pub open spec fn allocate_new(self, current: u32) -> (PagerView, Result<
        AllocateStep,
        LimboError,
    >) {
        let h = self.header();
        let page_size = h.page_size.bytes() as nat;
        let next = (current + 1) as u32;
        let skips = Pager::pending_page(self.page_size) == Some(next);
        let id = if skips {
            (next + 1) as u32
        } else {
            next
        };
        let passed = if skips {
            self.with_new_page(next as usize, page_size).0
        } else {
            self
        };
        if id > self.max_page_count {
            (passed, Err(LimboError::DatabaseFull))
        } else {
            let (grown, r) = passed.with_new_page(id as usize, page_size);
            match r {
                Err(e) => (grown, Err(LimboError::CacheError(e))),
                Ok(()) => (
                    PagerView {
                        allocate_page_state: AllocatePageState::Start,
                        ..grown.with_header(DatabaseHeader { database_size: id, ..h })
                    },
                    Ok(AllocateStep::Done { page_no: id as usize }),
                ),
            }
        }
    }

    /// A step of an allocation.
    pub open spec fn allocate_step(self, s: SharedView, turn: Turn) -> (PagerView, Result<
        AllocateStep,
        LimboError,
    >) {
        if turn == Turn::Enter && self.spill_due() {
            (self, Ok(AllocateStep::MakeRoom))
        } else if self.page1() is None {
            (self, Ok(AllocateStep::Read { page_no: 1 }))
        } else {
            let v = self.header_dirtied();
            match self.allocate_page_state {
                AllocatePageState::Start => v.allocate_start(s, turn),
                AllocatePageState::SearchAvailableFreeListLeaf { trunk_page } => v.allocate_search(
                    s,
                    trunk_page,
                    turn.after(),
                ),
                AllocatePageState::ReuseFreelistLeaf {
                    trunk_page,
                    leaf_page,
                    number_of_freelist_leaves,
                } => v.allocate_reuse(trunk_page, leaf_page, number_of_freelist_leaves),
                AllocatePageState::AllocateNewPage { current_db_size } => v.allocate_new(
                    current_db_size,
                ),
            }
        }
    }

    /// What the freeing of a page needs.
    pub open spec fn can_free(self, s: SharedView, page_id: usize, in_hand: bool) -> bool {
        &&& self.wf()
        &&& self.header_ready()
        &&& self.journal_room(3)
        &&& self.page1() is Some ==> {
            let h = self.header();
            let trunk = h.freelist_trunk_page as usize;
            &&& h.page_size.valid()
            &&& match self.free_page_state {
                FreePageState::Start => {
                    &&& h.freelist_pages < u32::MAX
                    &&& in_hand ==> self.cache.pages.contains_key(page_id)
                    &&& 2 <= page_id <= h.database_size ==> self.can_take(s, page_id)
                },
                FreePageState::AddToTrunk { page } => {
                    &&& page == page_id
                    &&& 2 <= page_id <= u32::MAX
                    &&& self.cache.pages.contains_key(page_id)
                    &&& self.page(page_id).pin_count > 0
                    &&& 2 <= trunk
                    &&& self.can_read(s, trunk as int, None)
                    &&& self.cache.usable(trunk) || trunk == page_id ==> self.has(trunk)
                    &&& self.has(trunk) ==> self.page(trunk).data().len() >= 12
                        && self.page(trunk).data().len() >= h.usable()
                },
                FreePageState::NewTrunk { page } => {
                    &&& page == page_id
                    &&& self.holds_list_page(page_id)
                },
            }
        }
    }

    /// The first step of freeing a page, with page 1 dirty: the page is brought into the cache, unless
    /// it is in hand, and pinned, and is counted at once.
    pub open spec fn free_start(
        self,
        s: SharedView,
        page_id: usize,
        in_hand: bool,
        after: SpillOutcome,
    ) -> (PagerView, Result<FreeStep, LimboError>) {
        let h = self.header();
        if page_id < 2 || page_id > h.database_size {
            (self, Err(LimboError::Corrupt(Corruption::InvalidPageForFree { page_id })))
        } else {
            let (v, q) = if !in_hand {
                self.read_step(s, page_id, after)
            } else if self.page(page_id).loaded {
                (
                    self.with_cached(
                        page_id,
                        PageView { overflow_cells: Seq::empty(), ..self.page(page_id) },
                    ),
                    Ok(ReadStep::Ready),
                )
            } else {
                (self, Ok(ReadStep::Ready))
            };
            match q {
                Err(e) => (v, Err(e)),
                Ok(ReadStep::Spill) => (v, Ok(FreeStep::Spill)),
                Ok(step) => (
                    PagerView {
                        free_page_state: if h.freelist_trunk_page != 0 {
                            FreePageState::AddToTrunk { page: page_id }
                        } else {
                            FreePageState::NewTrunk { page: page_id }
                        },
                        ..v.with_header(
                            DatabaseHeader { freelist_pages: (h.freelist_pages + 1) as u32, ..h },
                        ).with_pin(page_id)
                    },
                    Ok(FreeStep::after_read(page_id, step)),
                ),
            }
        }
    }

    /// Leaves that a trunk page has room for.
    pub open spec fn max_leaves(self) -> int {
        self.header().usable() / 4 - 2
    }

    /// The step that adds the page to the first trunk page, with page 1 dirty; the trunk page is
    /// brought into the cache first. Once the page is on the list it loses its pin.
    pub open spec fn free_to_trunk(self, s: SharedView, page_id: usize, after: SpillOutcome) -> (
        PagerView,
        Result<FreeStep, LimboError>,
    ) {
        let trunk = self.header().freelist_trunk_page as usize;
        let (v, q) = self.read_step(s, trunk, after);
        match q {
            Err(e) => (v, Err(e)),
            Ok(ReadStep::Spill) => (v, Ok(FreeStep::Spill)),
            Ok(ReadStep::Started(plan)) => (v, Ok(FreeStep::Load { page_no: trunk, plan })),
            Ok(_) => {
                let data = self.page(trunk).data();
                if leaf_count(data) < self.max_leaves() {
                    (
                        PagerView {
                            free_page_state: FreePageState::Start,
                            ..self.rewritten(trunk, with_leaf(data, page_id as u32)).without_pin(
                                page_id,
                            )
                        },
                        Ok(FreeStep::Done),
                    )
                } else {
                    (
                        PagerView {
                            free_page_state: FreePageState::NewTrunk { page: page_id },
                            ..self
                        },
                        Ok(FreeStep::Continue),
                    )
                }
            },
        }
    }

    /// The step that makes the page the first trunk page, with page 1 dirty; it loses its pin.
    pub open spec fn free_as_trunk(self, page_id: usize) -> (PagerView, Result<FreeStep, LimboError>) {
        let h = self.header();
        (
            PagerView {
                free_page_state: FreePageState::Start,
                ..self.rewritten(
                    page_id,
                    as_trunk(self.page(page_id).data(), h.freelist_trunk_page),
                ).with_header(DatabaseHeader { freelist_trunk_page: page_id as u32, ..h }).without_pin(
                    page_id,
                )
            },
            Ok(FreeStep::Done),
        )
    }

    /// A step of freeing a page.
    pub open spec fn free_step(
        self,
        s: SharedView,
        page_id: usize,
        in_hand: bool,
        after: SpillOutcome,
    ) -> (PagerView, Result<FreeStep, LimboError>) {
        if self.page1() is None {
            (self, Ok(FreeStep::Read { page_no: 1 }))
        } else {
            let v = self.header_dirtied();
            match self.free_page_state {
                FreePageState::Start => v.free_start(s, page_id, in_hand, after),
                FreePageState::AddToTrunk { .. } => v.free_to_trunk(s, page_id, after),
                FreePageState::NewTrunk { .. } => v.free_as_trunk(page_id),
            }
        }
    }
}

impl Pager {
    /// Makes a new page and puts it in the cache.
    fn add_new_page(&mut self, id: u32, page_size: usize) -> (r: Result<(), CacheError>)
        requires
            old(self)@.wf(),
            old(self)@.can_mark(blank_page(id as usize, page_size as nat)),
        ensures
            final(self)@.wf(),
            (final(self)@, r) == old(self)@.with_new_page(id as usize, page_size as nat),
    {
        let mut page = allocate_new_page(id as i64, page_size);
        self.add_dirty(&mut page);
        let ghost marked = self@;
        proof {
            lemma_inserted_wf(marked.cache, id as usize, page@);
        }
        let r = self.page_cache.insert(id as usize, page);
        assert(self@ =~= marked.with_cache(self@.cache));
        r
    }

    /// Takes the next step of allocating a page. A page on the freelist is used if there is one;
    /// otherwise the database grows. The new page is dirty and all zeros. When the cache is full, the
    /// caller first makes room, with [`Pager::ensure_cache_space`]. The pages of the freelist that the
    /// steps go through stay pinned until the last step. `turn` says what has happened since the last
    /// step.
    pub fn allocate_page(&mut self, shared: &WalFileShared, turn: Turn) -> (r: Result<
        AllocateStep,
        LimboError,
    >)
        requires
            old(self)@.can_allocate(shared@),
        ensures
            final(self)@.wf(),
            (final(self)@, r) == old(self)@.allocate_step(shared@, turn),
    {
        let ghost before = self@;
        let enters = match turn {
            Turn::Enter => true,
            _ => false,
        };
        if enters && self.page_cache.needs_spill() {
            return Ok(AllocateStep::MakeRoom);
        }
        let header = match self.begin_header_mut() {
            IOResult::IO(_) => {
                return Ok(AllocateStep::Read { page_no: 1 });
            },
            IOResult::Done(header) => header,
        };
        proof {
            lemma_header_stays(before);
            lemma_header_room(before, 4);
        }
        match self.allocate_page_state {
            AllocatePageState::Start => self.allocate_page_start(shared, header, turn),
            AllocatePageState::SearchAvailableFreeListLeaf { trunk_page } => {
                self.allocate_page_search(shared, header, trunk_page, turn.outcome())
            },
            AllocatePageState::ReuseFreelistLeaf {
                trunk_page,
                leaf_page,
                number_of_freelist_leaves,
            } => self.allocate_page_reuse(header, trunk_page, leaf_page, number_of_freelist_leaves),
            AllocatePageState::AllocateNewPage { current_db_size } => self.allocate_page_new(
                header,
                current_db_size,
            ),
        }
    }

    /// Gives a page in the cache one more pin.
    fn pin_page(&mut self, id: usize)
        requires
            old(self)@.wf(),
            old(self)@.cache.pages.contains_key(id),
            old(self)@.page(id).pin_count < usize::MAX,
        ensures
            final(self)@.wf(),
            final(self)@ == old(self)@.with_pin(id),
    {
        let ghost v = self@;
        let mut page = self.page_cache.take(id);
        page.pin();
        self.page_cache.put(id, page);
        assert(self@ =~= v.with_pin(id));
    }

    /// Takes a pin away from a page in the cache.
    fn unpin_page(&mut self, id: usize)
        requires
            old(self)@.wf(),
            old(self)@.cache.pages.contains_key(id),
            old(self)@.page(id).pin_count > 0,
        ensures
            final(self)@.wf(),
            final(self)@ == old(self)@.without_pin(id),
    {
        let ghost v = self@;
        let mut page = self.page_cache.take(id);
        page.unpin();
        self.page_cache.put(id, page);
        assert(self@ =~= v.without_pin(id));
    }

    fn allocate_page_start(
        &mut self,
        shared: &WalFileShared,
        header: DatabaseHeader,
        turn: Turn,
    ) -> (r: Result<AllocateStep, LimboError>)
        requires
            old(self)@.wf(),
            old(self)@.page1() matches Some(p) && p.data().len() >= DATABASE_HEADER_SIZE && p.dirty
                && !p.spilled,
            header == old(self)@.header(),
            header.page_size.valid(),
            header.database_size <= u32::MAX - 3,
            header.freelist_trunk_page != 0 ==> old(self)@.can_take(
                shared@,
                header.freelist_trunk_page as usize,
            ),
            old(self)@.journal_room(1),
        ensures
            final(self)@.wf(),
            (final(self)@, r) == old(self)@.allocate_start(shared@, turn),
    {
        let ghost v = self@;
        let page_size: usize = header.page_size.get() as usize;
        let mut new_db_size: u32 = header.database_size;
        let full = match self.auto_vacuum_mode {
            AutoVacuumMode::Full => true,
            _ => false,
        };
        let resumes = match turn {
            Turn::Spilled(_) => true,
            _ => false,
        };
        if !resumes && full && is_ptrmap_page(new_db_size + 1, page_size) {
            new_db_size = new_db_size + 1;
            match self.add_new_page(new_db_size, page_size) {
                Err(e) => {
                    return Err(LimboError::CacheError(e));
                },
                Ok(()) => {},
            }
            proof {
                lemma_new_page_keeps_page1(v, new_db_size as usize, page_size as nat);
                lemma_new_page_keeps_pins(v, new_db_size as usize, page_size as nat);
            }
        }
        let trunk: usize = header.freelist_trunk_page as usize;
        if trunk == 0 {
            self.allocate_page_state = AllocatePageState::AllocateNewPage {
                current_db_size: new_db_size,
            };
            return Ok(AllocateStep::Continue);
        }
        let after = turn.outcome();
        proof {
            lemma_read_step(self@, shared@, trunk, after);
        }
        match self.read_page(shared, trunk as i64, after) {
            Err(e) => Err(e),
            Ok(ReadStep::Spill) => Ok(AllocateStep::Spill),
            Ok(step) => {
                self.pin_page(trunk);
                self.allocate_page_state = AllocatePageState::SearchAvailableFreeListLeaf {
                    trunk_page: trunk,
                };
                match step {
                    ReadStep::Started(plan) => Ok(AllocateStep::Load { page_no: trunk, plan }),
                    _ => Ok(AllocateStep::Continue),
                }
            },
        }
    }

    fn allocate_page_search(
        &mut self,
        shared: &WalFileShared,
        header: DatabaseHeader,
        trunk: usize,
        after: SpillOutcome,
    ) -> (r: Result<AllocateStep, LimboError>)
        requires
            old(self)@.wf(),
            old(self)@.page1() matches Some(p) && p.data().len() >= DATABASE_HEADER_SIZE && p.dirty
                && !p.spilled,
            header == old(self)@.header(),
            old(self)@.holds_list_page(trunk),
            old(self)@.journal_room(1),
            ({
                let data = old(self)@.page(trunk).data();
                if leaf_count(data) == 0 {
                    &&& header.freelist_pages > 0
                    &&& old(self)@.page(trunk).overflow_cells.len() == 0
                } else {
                    old(self)@.can_take(shared@, be32(data, 8) as usize)
                }
            }),
        ensures
            final(self)@.wf(),
            (final(self)@, r) == old(self)@.allocate_search(shared@, trunk, after),
    {
        let ghost v = self@;
        let page = self.page_cache.take(trunk);
        let next: u32 = page.inner.read_u32_no_offset(FREELIST_TRUNK_OFFSET_NEXT_TRUNK_PTR);
        let n: u32 = page.inner.read_u32_no_offset(FREELIST_TRUNK_OFFSET_LEAF_COUNT);
        let first: u32 = page.inner.read_u32_no_offset(FREELIST_TRUNK_OFFSET_FIRST_LEAF_PTR);
        self.page_cache.put(trunk, page);
        assert(self@.cache.pages =~= v.cache.pages);
        assert(self@ =~= v);
        if n != 0 {
            let leaf: usize = first as usize;
            proof {
                lemma_read_step(v, shared@, leaf, after);
            }
            return match self.read_page(shared, leaf as i64, after) {
                Err(e) => Err(e),
                Ok(ReadStep::Spill) => Ok(AllocateStep::Spill),
                Ok(step) => {
                    self.pin_page(leaf);
                    self.allocate_page_state = AllocatePageState::ReuseFreelistLeaf {
                        trunk_page: trunk,
                        leaf_page: leaf,
                        number_of_freelist_leaves: n,
                    };
                    match step {
                        ReadStep::Started(plan) => Ok(AllocateStep::Load { page_no: leaf, plan }),
                        _ => Ok(AllocateStep::Continue),
                    }
                },
            };
        }
        self.clear_page(trunk);
        let mut h = header;
        h.freelist_trunk_page = next;
        h.freelist_pages = header.freelist_pages - 1;
        self.store_header(&h);
        self.unpin_page(trunk);
        self.allocate_page_state = AllocatePageState::Start;
        Ok(AllocateStep::Done { page_no: trunk })
    }

    /// Takes the first of `n` leaves off a trunk page in the cache.
    fn drop_first_leaf(&mut self, trunk: usize, n: u32)
        requires
            old(self)@.wf(),
            old(self)@.has(trunk),
            old(self)@.can_mark(old(self)@.page(trunk)),
            n >= 1,
            8 + 4 * n <= old(self)@.page(trunk).data().len(),
        ensures
            final(self)@.wf(),
            final(self)@ == old(self)@.rewritten(
                trunk,
                without_first_leaf(old(self)@.page(trunk).data(), n),
            ),
    {
        let ghost v = self@;
        let mut page = self.page_cache.take(trunk);
        self.add_dirty(&mut page);
        {
            let buf = page.inner.as_ptr();
            shift_leaves(buf, n);
        }
        page.inner.write_u32_no_offset(FREELIST_TRUNK_OFFSET_LEAF_COUNT, n - 1);
        self.page_cache.put(trunk, page);
        assert(self@ =~= v.rewritten(trunk, without_first_leaf(v.page(trunk).data(), n)));
    }

    /// Adds a leaf to the `n` leaves of a trunk page in the cache.
    fn add_leaf(&mut self, trunk: usize, n: u32, leaf: u32)
        requires
            old(self)@.wf(),
            old(self)@.has(trunk),
            old(self)@.can_mark(old(self)@.page(trunk)),
            n == leaf_count(old(self)@.page(trunk).data()),
            n < PageSize::MAX,
            12 + 4 * n <= old(self)@.page(trunk).data().len(),
        ensures
            final(self)@.wf(),
            final(self)@ == old(self)@.rewritten(
                trunk,
                with_leaf(old(self)@.page(trunk).data(), leaf),
            ),
    {
        let ghost v = self@;
        let mut page = self.page_cache.take(trunk);
        self.add_dirty(&mut page);
        page.inner.write_u32_no_offset(FREELIST_TRUNK_OFFSET_LEAF_COUNT, n + 1);
        page.inner.write_u32_no_offset(
            FREELIST_TRUNK_OFFSET_FIRST_LEAF_PTR + (n as usize * FREELIST_LEAF_PTR_SIZE),
            leaf,
        );
        self.page_cache.put(trunk, page);
        assert(self@ =~= v.rewritten(trunk, with_leaf(v.page(trunk).data(), leaf)));
    }

    fn allocate_page_reuse(
        &mut self,
        header: DatabaseHeader,
        trunk: usize,
        leaf: usize,
        n: u32,
    ) -> (r: Result<AllocateStep, LimboError>)
        requires
            old(self)@.wf(),
            old(self)@.page1() matches Some(p) && p.data().len() >= DATABASE_HEADER_SIZE,
            header == old(self)@.header(),
            old(self)@.holds_list_page(trunk),
            old(self)@.holds_list_page(leaf),
            trunk == leaf ==> old(self)@.page(trunk).pin_count >= 2,
            n >= 1,
            8 + 4 * n <= old(self)@.page(trunk).data().len(),
            header.freelist_pages > 0,
            old(self)@.journal_room(2),
        ensures
            final(self)@.wf(),
            (final(self)@, r) == old(self)@.allocate_reuse(trunk, leaf, n),
    {
        self.clear_page(leaf);
        let ghost cleared = self@;
        assert(cleared.journal_room(1));
        self.drop_first_leaf(trunk, n);
        let mut h = header;
        h.freelist_pages = header.freelist_pages - 1;
        self.store_header(&h);
        self.unpin_page(trunk);
        self.unpin_page(leaf);
        self.allocate_page_state = AllocatePageState::Start;
        Ok(AllocateStep::Done { page_no: leaf })
    }

    fn allocate_page_new(&mut self, header: DatabaseHeader, current: u32) -> (r: Result<
        AllocateStep,
        LimboError,
    >)
        requires
            old(self)@.wf(),
            old(self)@.page1() matches Some(p) && p.data().len() >= DATABASE_HEADER_SIZE && p.dirty
                && !p.spilled,
            header == old(self)@.header(),
            header.page_size.valid(),
            current <= u32::MAX - 2,
            old(self)@.journal_room(2),
            Pager::pending_page(old(self)@.page_size) == Some((current + 1) as u32)
                ==> old(self)@.with_new_page(
                (current + 1) as usize,
                header.page_size.bytes() as nat,
            ).1 is Ok,
        ensures
            final(self)@.wf(),
            (final(self)@, r) == old(self)@.allocate_new(current),
    {
        let ghost v = self@;
        let page_size: usize = header.page_size.get() as usize;
        let mut new_db_size: u32 = current + 1;
        let skips = match self.pending_byte_page_id() {
            Some(p) => p == new_db_size,
            None => false,
        };
        if skips {
            let _ = self.add_new_page(new_db_size, page_size);
            proof {
                lemma_new_page_keeps_page1(v, new_db_size as usize, page_size as nat);
            }
            new_db_size = new_db_size + 1;
        }
        let ghost passed = self@;
        if new_db_size > self.max_page_count {
            return Err(LimboError::DatabaseFull);
        }
        assert(passed.can_mark(blank_page(new_db_size as usize, page_size as nat)));
        match self.add_new_page(new_db_size, page_size) {
            Err(e) => {
                return Err(LimboError::CacheError(e));
            },
            Ok(()) => {},
        }
        proof {
            lemma_new_page_keeps_page1(passed, new_db_size as usize, page_size as nat);
        }
        let mut h = header;
        h.database_size = new_db_size;
        self.store_header(&h);
        self.allocate_page_state = AllocatePageState::Start;
        Ok(AllocateStep::Done { page_no: new_db_size as usize })
    }

    /// Whether a page is in the cache and loaded.
    pub fn has_page(&self, id: usize) -> (r: bool)
        ensures
            r == self@.has(id),
    {
        match self.page_cache.peek(id) {
            Some(page) => page.is_loaded(),
            None => false,
        }
    }

    /// Makes a page in the cache dirty and sets its bytes to zero.
    fn clear_page(&mut self, id: usize)
        requires
            old(self)@.wf(),
            old(self)@.has(id),
            old(self)@.can_mark(old(self)@.page(id)),
        ensures
            final(self)@.wf(),
            final(self)@ == old(self)@.rewritten(
                id,
                Seq::new(old(self)@.page(id).data().len(), |i: int| 0u8),
            ),
    {
        let ghost v = self@;
        let mut page = self.page_cache.take(id);
        self.add_dirty(&mut page);
        {
            let buf = page.inner.as_ptr();
            fill_zero(buf);
        }
        self.page_cache.put(id, page);
        assert(self@ =~= v.rewritten(id, Seq::new(v.page(id).data().len(), |i: int| 0u8)));
    }

    /// Takes the next step of freeing a page. `in_hand` says that the caller has the page in the
    /// cache, loaded or not, so that it is not read for this. The page stays pinned until the last
    /// step. `after` says what was done since the last step found the cache full.
    pub fn free_page(
        &mut self,
        shared: &WalFileShared,
        page_id: usize,
        in_hand: bool,
        after: SpillOutcome,
    ) -> (r: Result<FreeStep, LimboError>)
        requires
            old(self)@.can_free(shared@, page_id, in_hand),
        ensures
            final(self)@.wf(),
            (final(self)@, r) == old(self)@.free_step(shared@, page_id, in_hand, after),
    {
        let ghost before = self@;
        let header = match self.begin_header_mut() {
            IOResult::IO(_) => {
                return Ok(FreeStep::Read { page_no: 1 });
            },
            IOResult::Done(header) => header,
        };
        proof {
            lemma_header_stays(before);
            lemma_header_room(before, 3);
        }
        match self.free_page_state {
            FreePageState::Start => self.free_page_start(shared, header, page_id, in_hand, after),
            FreePageState::AddToTrunk { .. } => self.free_page_to_trunk(
                shared,
                header,
                page_id,
                after,
            ),
            FreePageState::NewTrunk { .. } => self.free_page_as_trunk(header, page_id),
        }
    }

    /// Drops the overflow cells of a page in the cache.
    fn drop_overflow_cells(&mut self, id: usize)
        requires
            old(self)@.wf(),
            old(self)@.has(id),
        ensures
            final(self)@.wf(),
            final(self)@ == old(self)@.with_cached(
                id,
                PageView { overflow_cells: Seq::empty(), ..old(self)@.page(id) },
            ),
    {
        let ghost v = self@;
        let mut page = self.page_cache.take(id);
        page.inner.overflow_cells = Vec::new();
        self.page_cache.put(id, page);
        assert(self@ =~= v.with_cached(
            id,
            PageView { overflow_cells: Seq::empty(), ..v.page(id) },
        ));
    }

    /// Counts a page that is going to be free, pins it, and makes the next step known.
    fn count_free_page(&mut self, header: DatabaseHeader, page_id: usize)
        requires
            old(self)@.wf(),
            old(self)@.page1() matches Some(p) && p.data().len() >= DATABASE_HEADER_SIZE,
            header.freelist_pages < u32::MAX,
            page_id != 1,
            old(self)@.cache.pages.contains_key(page_id),
            old(self)@.page(page_id).pin_count < usize::MAX,
        ensures
            final(self)@.wf(),
            final(self)@ == (PagerView {
                free_page_state: if header.freelist_trunk_page != 0 {
                    FreePageState::AddToTrunk { page: page_id }
                } else {
                    FreePageState::NewTrunk { page: page_id }
                },
                ..old(self)@.with_header(
                    DatabaseHeader {
                        freelist_pages: (header.freelist_pages + 1) as u32,
                        ..header
                    },
                ).with_pin(page_id)
            }),
    {
        let mut h = header;
        h.freelist_pages = header.freelist_pages + 1;
        self.store_header(&h);
        self.pin_page(page_id);
        if header.freelist_trunk_page != 0 {
            self.free_page_state = FreePageState::AddToTrunk { page: page_id };
        } else {
            self.free_page_state = FreePageState::NewTrunk { page: page_id };
        }
    }

    fn free_page_start(
        &mut self,
        shared: &WalFileShared,
        header: DatabaseHeader,
        page_id: usize,
        in_hand: bool,
        after: SpillOutcome,
    ) -> (r: Result<FreeStep, LimboError>)
        requires
            old(self)@.wf(),
            old(self)@.page1() matches Some(p) && p.data().len() >= DATABASE_HEADER_SIZE && p.dirty
                && !p.spilled,
            header == old(self)@.header(),
            header.freelist_pages < u32::MAX,
            in_hand ==> old(self)@.cache.pages.contains_key(page_id),
            2 <= page_id <= header.database_size ==> old(self)@.can_take(shared@, page_id),
        ensures
            final(self)@.wf(),
            (final(self)@, r) == old(self)@.free_start(shared@, page_id, in_hand, after),
    {
        let ghost v = self@;
        if page_id < 2 || page_id > header.database_size as usize {
            return Err(LimboError::Corrupt(Corruption::InvalidPageForFree { page_id }));
        }
        let step = if !in_hand {
            proof {
                lemma_read_step(v, shared@, page_id, after);
            }
            match self.read_page(shared, page_id as i64, after) {
                Err(e) => {
                    return Err(e);
                },
                Ok(ReadStep::Spill) => {
                    return Ok(FreeStep::Spill);
                },
                Ok(step) => step,
            }
        } else {
            if self.has_page(page_id) {
                self.drop_overflow_cells(page_id);
            }
            ReadStep::Ready
        };
        self.count_free_page(header, page_id);
        match step {
            ReadStep::Started(plan) => Ok(FreeStep::Load { page_no: page_id, plan }),
            _ => Ok(FreeStep::Continue),
        }
    }

    fn free_page_to_trunk(
        &mut self,
        shared: &WalFileShared,
        header: DatabaseHeader,
        page_id: usize,
        after: SpillOutcome,
    ) -> (r: Result<FreeStep, LimboError>)
        requires
            old(self)@.wf(),
            old(self)@.page1() is Some,
            header == old(self)@.header(),
            header.page_size.valid(),
            2 <= page_id <= u32::MAX,
            old(self)@.cache.pages.contains_key(page_id),
            old(self)@.page(page_id).pin_count > 0,
            ({
                let trunk = header.freelist_trunk_page as usize;
                &&& 2 <= trunk
                &&& old(self)@.can_read(shared@, trunk as int, None)
                &&& old(self)@.cache.usable(trunk) ==> old(self)@.has(trunk)
                &&& old(self)@.has(trunk) ==> old(self)@.page(trunk).data().len() >= 12
                    && old(self)@.page(trunk).data().len() >= header.usable()
            }),
            old(self)@.journal_room(1),
        ensures
            final(self)@.wf(),
            (final(self)@, r) == old(self)@.free_to_trunk(shared@, page_id, after),
    {
        let ghost v = self@;
        let trunk: usize = header.freelist_trunk_page as usize;
        match self.read_page(shared, trunk as i64, after) {
            Err(e) => {
                return Err(e);
            },
            Ok(ReadStep::Spill) => {
                return Ok(FreeStep::Spill);
            },
            Ok(ReadStep::Started(plan)) => {
                return Ok(FreeStep::Load { page_no: trunk, plan });
            },
            Ok(_) => {},
        }
        assert(self@ == v);
        let page = self.page_cache.take(trunk);
        let n: u32 = page.inner.read_u32_no_offset(FREELIST_TRUNK_OFFSET_LEAF_COUNT);
        self.page_cache.put(trunk, page);
        assert(self@.cache.pages =~= v.cache.pages);
        assert(self@ =~= v);
        let max: usize = header.usable_space() / FREELIST_LEAF_PTR_SIZE - 2;
        if (n as usize) < max {
            self.add_leaf(trunk, n, page_id as u32);
            self.unpin_page(page_id);
            self.free_page_state = FreePageState::Start;
            return Ok(FreeStep::Done);
        }
        self.free_page_state = FreePageState::NewTrunk { page: page_id };
        Ok(FreeStep::Continue)
    }

    fn free_page_as_trunk(&mut self, header: DatabaseHeader, page_id: usize) -> (r: Result<
        FreeStep,
        LimboError,
    >)
        requires
            old(self)@.wf(),
            old(self)@.page1() matches Some(p) && p.data().len() >= DATABASE_HEADER_SIZE,
            header == old(self)@.header(),
            old(self)@.holds_list_page(page_id),
            old(self)@.journal_room(1),
        ensures
            final(self)@.wf(),
            (final(self)@, r) == old(self)@.free_as_trunk(page_id),
    {
        let ghost v = self@;
        let mut page = self.page_cache.take(page_id);
        self.add_dirty(&mut page);
        page.inner.write_u32_no_offset(
            FREELIST_TRUNK_OFFSET_NEXT_TRUNK_PTR,
            header.freelist_trunk_page,
        );
        page.inner.write_u32_no_offset(FREELIST_TRUNK_OFFSET_LEAF_COUNT, 0);
        self.page_cache.put(page_id, page);
        assert(self@ =~= v.rewritten(
            page_id,
            as_trunk(v.page(page_id).data(), header.freelist_trunk_page),
        ));
        let mut h = header;
        h.freelist_trunk_page = page_id as u32;
        self.store_header(&h);
        self.unpin_page(page_id);
        self.free_page_state = FreePageState::Start;
        Ok(FreeStep::Done)
    }

    /// How many pages are on the freelist; page 1 is made dirty.
    pub fn freepage_list(&mut self) -> (r: IOResult<u32>)
        requires
            old(self)@.wf(),
            old(self)@.header_ready(),
        ensures
            final(self)@.wf(),
            match old(self)@.page1() {
                None => {
                    &&& r matches IOResult::IO(IoRequest::ReadPage { page_no }) && page_no == 1
                    &&& final(self)@ == old(self)@
                },
                Some(_) => {
                    &&& r matches IOResult::Done(n) && n == old(self)@.header().freelist_pages
                    &&& final(self)@ == old(self)@.header_dirtied()
                },
            },
    {
        match self.begin_header_mut() {
            IOResult::IO(io) => IOResult::IO(io),
            IOResult::Done(header) => IOResult::Done(header.freelist_pages),
        }
    }
}

/// Moves the leaves behind the first of `n` up by one.
fn shift_leaves(buf: &mut [u8], n: u32)
    requires
        n >= 1,
        8 + 4 * n <= old(buf)@.len(),
    ensures
        final(buf)@ == Seq::new(
            old(buf)@.len(),
            |i: int|
                if 8 <= i < 8 + 4 * (n - 1) {
                    old(buf)@[i + 4]
                } else {
                    old(buf)@[i]
                },
        ),
{
    let len: usize = buf.len();
    let end: usize = 8 + 4 * (n as usize - 1);
    let mut i: usize = 8;
    while i < end
        invariant
            8 <= i <= end,
            end + 4 <= len,
            len == buf@.len(),
            buf@.len() == old(buf)@.len(),
            forall|j: int| 0 <= j < 8 ==> buf@[j] == old(buf)@[j],
            forall|j: int| 8 <= j < i ==> buf@[j] == old(buf)@[j + 4],
            forall|j: int| i <= j < buf@.len() ==> buf@[j] == old(buf)@[j],
        decreases end - i,
    {
        let b: u8 = buf[i + 4];
        buf[i] = b;
        i = i + 1;
    }
}

/// Making page 1 dirty leaves the header and the other pages as they are.
pub proof fn lemma_header_stays(v: PagerView)
    requires
        v.page1() is Some,
    ensures
        v.header_dirtied().page1() == Some(v.page1()->0.dirtied()),
        v.header_dirtied().header() == v.header(),
        forall|k: usize| k != 1 ==> v.header_dirtied().has(k) == v.has(k),
        forall|k: usize| k != 1 ==> v.header_dirtied().page(k) == v.page(k),
        v.page1()->0.id == 1 ==> !v.header_dirtied().journals(1),
{
}

/// Making page 1 dirty takes room for one image in the journal.
proof fn lemma_header_room(v: PagerView, n: int)
    requires
        v.page1() matches Some(p) && v.can_mark(p),
        n >= 1,
        v.journal_room(n),
    ensures
        v.header_dirtied().journal_room(n - 1),
{
    let w = v.header_dirtied();
    assert(n * (4 + v.page_size) == (n - 1) * (4 + v.page_size) + (4 + v.page_size))
        by (nonlinear_arith);
    assert((n - 1) * (4 + v.page_size) >= 0) by (nonlinear_arith)
        requires
            n >= 1,
    ;
    if w.savepoints.len() > 0 {
        assert(v.savepoints.len() > 0);
        assert(w.journal->0.data.len() <= v.journal->0.data.len() + 4 + v.page_size);
    }
}

/// A new page does not push page 1 out of the cache while that is dirty.
proof fn lemma_new_page_keeps_page1(v: PagerView, id: usize, page_size: nat)
    requires
        v.wf(),
        v.page1() matches Some(p) && p.dirty && !p.spilled,
        v.with_new_page(id, page_size).1 is Ok,
    ensures
        v.with_new_page(id, page_size).0.page1() == v.page1(),
        !v.journals(1) ==> !v.with_new_page(id, page_size).0.journals(1),
{
    let page = blank_page(id, page_size);
    lemma_inserted_wf(v.marked(page).cache, id, page.dirtied());
}

/// A new page leaves the pins of the other pages as they are.
proof fn lemma_new_page_keeps_pins(v: PagerView, id: usize, page_size: nat)
    requires
        v.wf(),
    ensures
        forall|k: usize| #[trigger]
            v.with_new_page(id, page_size).0.cache.pages.contains_key(k)
                ==> v.with_new_page(id, page_size).0.page(k).pin_count == 0
                || v.cache.pages.contains_key(k) && v.with_new_page(id, page_size).0.page(
                k,
            ).pin_count == v.page(k).pin_count,
{
    lemma_with_room(v.cache.pages, v.cache.capacity, 1);
}

/// Bringing a page into the cache leaves page 1 alone while that is dirty, and every other page that
/// may not leave the cache. The page has the pins that it had, or none.
proof fn lemma_read_step(v: PagerView, s: SharedView, id: usize, after: SpillOutcome)
    requires
        v.wf(),
        id != 1,
        v.page1() matches Some(p) && p.dirty && !p.spilled,
    ensures
        ({
            let (w, q) = v.read_step(s, id, after);
            &&& w.page1() == v.page1()
            &&& w.header() == v.header()
            &&& forall|k: usize| #[trigger]
                v.cache.pages.contains_key(k) && k != id && !evictable(v.cache.pages[k])
                    ==> w.cache.pages.contains_key(k) && w.cache.pages[k] == v.cache.pages[k]
            &&& q is Ok && q->Ok_0 != ReadStep::Spill ==> {
                &&& w.cache.pages.contains_key(id)
                &&& w.page(id).pin_count == 0 || v.cache.pages.contains_key(id) && w.page(id)
                    == v.page(id)
            }
        }),
{
    if !v.cache.usable(id) {
        let asked = v.cache.asked(id);
        lemma_inserted_wf(asked, id, v.expected_page(s, id as int, None));
        assert(v.cache.pages.contains_key(1) ==> asked.pages.contains_key(1) && asked.pages[1]
            == v.cache.pages[1]);
    }
}

/// After an allocation's last step the page is in the cache and can hold a btree page's header, and
/// the database's header is still readable.
pub open spec fn allocation_done(v: PagerView, s: SharedView, turn: Turn) -> bool {
    let w = v.allocate_step(s, turn).0;
    let id = v.allocate_step(s, turn).1->Ok_0->Done_page_no;
    &&& w.has(id)
    &&& w.page(id).data().len() >= 12
    &&& id <= u32::MAX
    &&& w.page1() matches Some(p) && p.data().len() >= DATABASE_HEADER_SIZE && p.id == 1 && p.loaded
        && p.buffer is Some
    &&& !w.journals(1)
    &&& w.header().page_size == v.header().page_size
    &&& w.header().reserved_space == v.header().reserved_space
    &&& w.header().vacuum_mode_largest_root_page == v.header().vacuum_mode_largest_root_page
    &&& w.vacuum_state == v.vacuum_state
    &&& w.page_size == v.page_size
    &&& w.reserved_space == v.reserved_space
    &&& v.allocate_page_state matches AllocatePageState::AllocateNewPage { current_db_size } ==> (
    current_db_size >= 1 ==> id > 1)
    &&& !(v.allocate_page_state is AllocateNewPage) ==> id > 1
}

/// The page that an allocation gives is in the cache.
pub proof fn lemma_allocated(v: PagerView, s: SharedView, turn: Turn)
    requires
        v.can_allocate(s),
        v.allocate_step(s, turn).1 matches Ok(AllocateStep::Done { .. }),
    ensures
        allocation_done(v, s, turn),
{
    match v.allocate_page_state {
        AllocatePageState::Start => {},
        AllocatePageState::SearchAvailableFreeListLeaf { trunk_page } => {
            lemma_allocated_trunk(v, s, turn, trunk_page);
        },
        AllocatePageState::ReuseFreelistLeaf {
            trunk_page,
            leaf_page,
            number_of_freelist_leaves,
        } => {
            lemma_allocated_leaf(v, s, turn, trunk_page, leaf_page, number_of_freelist_leaves);
        },
        AllocatePageState::AllocateNewPage { current_db_size } => {
            lemma_allocated_new(v, s, turn, current_db_size);
        },
    }
}

/// A trunk page without leaves that was allocated is in the cache.
proof fn lemma_allocated_trunk(v: PagerView, s: SharedView, turn: Turn, trunk_page: usize)
    requires
        v.can_allocate(s),
        v.allocate_page_state == (AllocatePageState::SearchAvailableFreeListLeaf { trunk_page }),
        v.allocate_step(s, turn).1 matches Ok(AllocateStep::Done { .. }),
    ensures
        allocation_done(v, s, turn),
{
    let h = v.header();
    lemma_header_stays(v);
    lemma_header_room(v, 4);
    let d = v.header_dirtied();
    let data = d.page(trunk_page).data();
    let zeros = Seq::new(data.len(), |i: int| 0u8);
    lemma_rewritten(d, trunk_page, zeros);
    lemma_with_header(
        d.rewritten(trunk_page, zeros),
        DatabaseHeader {
            freelist_trunk_page: next_trunk(data),
            freelist_pages: (h.freelist_pages - 1) as u32,
            ..h
        },
    );
}

/// A leaf of a trunk page that was allocated is in the cache.
proof fn lemma_allocated_leaf(
    v: PagerView,
    s: SharedView,
    turn: Turn,
    trunk_page: usize,
    leaf_page: usize,
    leaves: u32,
)
    requires
        v.can_allocate(s),
        v.allocate_page_state == (AllocatePageState::ReuseFreelistLeaf {
            trunk_page,
            leaf_page,
            number_of_freelist_leaves: leaves,
        }),
        v.allocate_step(s, turn).1 matches Ok(AllocateStep::Done { .. }),
    ensures
        allocation_done(v, s, turn),
{
    let h = v.header();
    lemma_header_stays(v);
    lemma_header_room(v, 4);
    let d = v.header_dirtied();
    let zeros = Seq::new(d.page(leaf_page).data().len(), |i: int| 0u8);
    lemma_rewritten(d, leaf_page, zeros);
    let cleared = d.rewritten(leaf_page, zeros);
    let back = without_first_leaf(cleared.page(trunk_page).data(), leaves);
    lemma_rewritten(cleared, trunk_page, back);
    lemma_with_header(
        cleared.rewritten(trunk_page, back),
        DatabaseHeader { freelist_pages: (h.freelist_pages - 1) as u32, ..h },
    );
}

/// A page that the database grew by is in the cache.
proof fn lemma_allocated_new(v: PagerView, s: SharedView, turn: Turn, current: u32)
    requires
        v.can_allocate(s),
        v.allocate_page_state == (AllocatePageState::AllocateNewPage { current_db_size: current }),
        v.allocate_step(s, turn).1 matches Ok(AllocateStep::Done { .. }),
    ensures
        allocation_done(v, s, turn),
{
    let h = v.header();
    lemma_header_stays(v);
    lemma_header_room(v, 4);
    let d = v.header_dirtied();
    let page_size = h.page_size.bytes() as nat;
    let next = (current + 1) as u32;
    let skips = Pager::pending_page(d.page_size) == Some(next);
    let passed = if skips {
        d.with_new_page(next as usize, page_size).0
    } else {
        d
    };
    let id = if skips {
        (next + 1) as u32
    } else {
        next
    };
    if skips {
        lemma_new_page_keeps_page1(d, next as usize, page_size);
        lemma_new_page_is_there(d, next as usize, page_size);
    }
    lemma_new_page_keeps_page1(passed, id as usize, page_size);
    lemma_new_page_is_there(passed, id as usize, page_size);
    let grown = passed.with_new_page(id as usize, page_size).0;
    assert(grown.has(id as usize));
    law_database_header_round_trip(
        DatabaseHeader { database_size: id, ..h },
        grown.page1()->0.data(),
    );
}

/// A new page, once it is in the cache, is there and blank.
proof fn lemma_new_page_is_there(v: PagerView, id: usize, page_size: nat)
    requires
        v.wf(),
        id <= u32::MAX,
        v.can_mark(blank_page(id, page_size)),
        v.with_new_page(id, page_size).1 is Ok,
    ensures
        v.with_new_page(id, page_size).0.wf(),
        v.with_new_page(id, page_size).0.cache.pages.contains_key(id),
        v.with_new_page(id, page_size).0.page(id) == blank_page(id, page_size).dirtied(),
{
    let page = blank_page(id, page_size);
    lemma_inserted_wf(v.marked(page).cache, id, page.dirtied());
}

/// A number that is written is read back, and those beside it stay as they are.
pub proof fn lemma_number_written(data: Seq<u8>, at: int, v: u32)
    requires
        0 <= at,
        at + 4 <= data.len(),
    ensures
        be32(splice(data, at, be32_bytes(v)), at) == v,
        forall|k: int|
            0 <= k && k + 4 <= data.len() && (k + 4 <= at || at + 4 <= k) ==> #[trigger] be32(
                splice(data, at, be32_bytes(v)),
                k,
            ) == be32(data, k),
{
    let d = splice(data, at, be32_bytes(v));
    assert(d.subrange(at, at + 4) =~= be32_bytes(v));
    lemma_be32_at(d, at, v);
}

/// Freeing a page into a trunk page with room puts it behind the leaves that are there.
pub proof fn law_added_leaf_is_last(data: Seq<u8>, page: u32)
    requires
        12 + 4 * leaf_count(data) <= data.len(),
        leaf_count(data) < u32::MAX,
    ensures
        leaves(with_leaf(data, page)) == leaves(data).push(page),
        next_trunk(with_leaf(data, page)) == next_trunk(data),
{
    let n = leaf_count(data);
    let counted = splice(data, 4, be32_bytes((n + 1) as u32));
    lemma_number_written(data, 4, (n + 1) as u32);
    lemma_number_written(counted, 8 + 4 * n, page);
    assert(leaves(with_leaf(data, page)) =~= leaves(data).push(page));
}

/// Allocating a page from a trunk page with leaves takes the first of them, and leaves the others
/// in their order.
pub proof fn law_taken_leaf_is_first(data: Seq<u8>)
    requires
        leaf_count(data) >= 1,
        8 + 4 * leaf_count(data) <= data.len(),
    ensures
        leaves(without_first_leaf(data, leaf_count(data))) == leaves(data).drop_first(),
        next_trunk(without_first_leaf(data, leaf_count(data))) == next_trunk(data),
{
    let n = leaf_count(data);
    let shifted = Seq::new(
        data.len(),
        |i: int|
            if 8 <= i < 8 + 4 * (n - 1) {
                data[i + 4]
            } else {
                data[i]
            },
    );
    lemma_number_written(shifted, 4, (n - 1) as u32);
    let fewer = leaves(without_first_leaf(data, n));
    assert forall|i: int| 0 <= i < n - 1 implies #[trigger] fewer[i] == leaves(
        data,
    ).drop_first()[i] by {
        assert(be32(shifted, 8 + 4 * i) == be32(data, 8 + 4 * (i + 1)));
    }
    assert(fewer =~= leaves(data).drop_first());
}

/// A page that becomes a trunk page has no leaves, and leads to the trunk page before it.
pub proof fn law_new_trunk_is_empty(data: Seq<u8>, next: u32)
    requires
        data.len() >= 8,
    ensures
        leaves(as_trunk(data, next)) == Seq::<u32>::empty(),
        next_trunk(as_trunk(data, next)) == next,
{
    lemma_number_written(data, 0, next);
    lemma_number_written(splice(data, 0, be32_bytes(next)), 4, 0);
    assert(leaves(as_trunk(data, next)) =~= Seq::<u32>::empty());
}

/// What is in page 1 and in the other pages after the header was written.
pub proof fn lemma_with_header(v: PagerView, h: DatabaseHeader)
    requires
        v.page1() matches Some(p) && p.data().len() >= DATABASE_HEADER_SIZE,
    ensures
        v.with_header(h).page1() matches Some(p) && p.data().len() == v.page1()->0.data().len(),
        v.with_header(h).header() == h,
        forall|k: usize| k != 1 ==> v.with_header(h).has(k) == v.has(k),
        forall|k: usize| k != 1 ==> v.with_header(h).page(k) == v.page(k),
        v.with_header(h).journals(1) == v.journals(1),
        v.with_header(h).page1()->0.id == v.page1()->0.id,
        v.with_header(h).page1()->0.loaded == v.page1()->0.loaded,
        v.with_header(h).page1()->0.buffer is Some,
{
    law_database_header_round_trip(h, v.page1()->0.data());
}

/// What is in page 1 and in the other pages after one of the others was written.
pub proof fn lemma_rewritten(v: PagerView, id: usize, data: Seq<u8>)
    requires
        v.has(id),
        id != 1,
    ensures
        v.rewritten(id, data).page1() == v.page1(),
        v.rewritten(id, data).header() == v.header(),
        v.rewritten(id, data).has(id),
        v.rewritten(id, data).page(id).data() == data,
        forall|k: usize| k != id ==> v.rewritten(id, data).has(k) == v.has(k),
        forall|k: usize| k != id ==> v.rewritten(id, data).page(k) == v.page(k),
        !v.journals(1) ==> !v.rewritten(id, data).journals(1),
{
}

impl PagerView {
    /// The pager after `n` steps of freeing a page.
    #[verifier::opaque]
    pub open spec fn after_free_steps(
        self,
        s: SharedView,
        after: SpillOutcome,
        page_id: usize,
        n: nat,
    ) -> PagerView
        decreases n,
    {
        if n == 0 {
            self
        } else {
            self.after_free_steps(s, after, page_id, (n - 1) as nat).free_step(
                s,
                page_id,
                false,
                after,
            ).0
        }
    }

    /// The pager after `n` steps of an allocation, with room in the cache, and what came of the last
    /// one.
    #[verifier::opaque]
    pub open spec fn after_allocate_steps(self, s: SharedView, n: nat) -> (
        PagerView,
        Result<AllocateStep, LimboError>,
    )
        decreases n,
    {
        if n == 0 {
            (self, Ok(AllocateStep::Continue))
        } else {
            self.after_allocate_steps(s, (n - 1) as nat).0.allocate_step(s, Turn::Proceed)
        }
    }

    /// Page `page_id` can be freed without reading anything: the header is as it should be, and
    /// the page and the first trunk page are in the cache.
    pub open spec fn frees_in_place(self, page_id: usize) -> bool {
        let h = self.header();
        let trunk = h.freelist_trunk_page as usize;
        &&& self.page1() matches Some(p) && p.data().len() >= DATABASE_HEADER_SIZE
        &&& self.free_page_state == FreePageState::Start
        &&& self.allocate_page_state == AllocatePageState::Start
        &&& h.page_size.valid()
        &&& h.freelist_pages < u32::MAX
        &&& 2 <= page_id <= h.database_size
        &&& self.has(page_id)
        &&& self.page(page_id).data().len() >= h.usable()
        &&& trunk != 1
        &&& trunk != page_id
        &&& trunk != 0 ==> self.has(trunk) && self.page(trunk).data().len() >= h.usable()
            && self.page(trunk).pin_count < usize::MAX
        &&& self.page(page_id).pin_count < usize::MAX
    }

    /// The next allocation does not have to make a pointer map page first.
    pub open spec fn grows_without_map(self) -> bool {
        !(self.auto_vacuum_mode == AutoVacuumMode::Full && is_map_page(
            self.header().database_size + 1,
            self.header().page_size.bytes(),
        ))
    }
}

/// The first step of freeing a page that is in the cache.
proof fn lemma_free_start(v: PagerView, s: SharedView, after: SpillOutcome, page_id: usize)
    requires
        v.frees_in_place(page_id),
    ensures
        ({
            let h = v.header();
            let w = v.free_step(s, page_id, false, after).0;
            &&& w.page1() matches Some(p) && p.data().len() >= DATABASE_HEADER_SIZE
            &&& w.header() == (DatabaseHeader {
                freelist_pages: (h.freelist_pages + 1) as u32,
                ..h
            })
            &&& forall|k: usize| k != 1 ==> w.has(k) == v.has(k)
            &&& forall|k: usize| k != 1 && k != page_id ==> w.page(k) == v.page(k)
            &&& w.page(page_id) == v.with_pin(page_id).page(page_id)
            &&& w.allocate_page_state == v.allocate_page_state
            &&& w.auto_vacuum_mode == v.auto_vacuum_mode
            &&& w.free_page_state == (if h.freelist_trunk_page != 0 {
                FreePageState::AddToTrunk { page: page_id }
            } else {
                FreePageState::NewTrunk { page: page_id }
            })
        }),
{
    let h = v.header();
    lemma_header_stays(v);
    lemma_with_header(
        v.header_dirtied(),
        DatabaseHeader { freelist_pages: (h.freelist_pages + 1) as u32, ..h },
    );
}

/// The step that makes a page the first trunk page.
proof fn lemma_free_as_trunk(v: PagerView, s: SharedView, after: SpillOutcome, page_id: usize)
    requires
        v.page1() matches Some(p) && p.data().len() >= DATABASE_HEADER_SIZE,
        v.free_page_state is NewTrunk,
        v.has(page_id),
        2 <= page_id <= u32::MAX,
        v.page(page_id).data().len() >= 8,
        v.page(page_id).pin_count > 0,
    ensures
        ({
            let h = v.header();
            let w = v.free_step(s, page_id, false, after).0;
            &&& w.page1() matches Some(p) && p.data().len() >= DATABASE_HEADER_SIZE
            &&& w.header() == (DatabaseHeader { freelist_trunk_page: page_id as u32, ..h })
            &&& w.has(page_id)
            &&& leaves(w.page(page_id).data()).len() == 0
            &&& next_trunk(w.page(page_id).data()) == h.freelist_trunk_page
            &&& w.page(page_id).data().len() == v.page(page_id).data().len()
            &&& w.page(page_id).pin_count == v.page(page_id).pin_count - 1
            &&& w.allocate_page_state == v.allocate_page_state
            &&& w.auto_vacuum_mode == v.auto_vacuum_mode
            &&& w.free_page_state == FreePageState::Start
        }),
{
    let h = v.header();
    lemma_header_stays(v);
    let d = v.header_dirtied();
    let data = as_trunk(d.page(page_id).data(), h.freelist_trunk_page);
    lemma_rewritten(d, page_id, data);
    lemma_with_header(
        d.rewritten(page_id, data),
        DatabaseHeader { freelist_trunk_page: page_id as u32, ..h },
    );
    law_new_trunk_is_empty(d.page(page_id).data(), h.freelist_trunk_page);
}

/// The step that looks at a full trunk page.
proof fn lemma_free_full(v: PagerView, s: SharedView, after: SpillOutcome, page_id: usize)
    requires
        v.page1() matches Some(p) && p.data().len() >= DATABASE_HEADER_SIZE,
        v.free_page_state is AddToTrunk,
        v.header().freelist_trunk_page > 1,
        v.has(v.header().freelist_trunk_page as usize),
        leaf_count(v.page(v.header().freelist_trunk_page as usize).data()) >= v.max_leaves(),
    ensures
        ({
            let w = v.free_step(s, page_id, false, after).0;
            &&& w.page1() matches Some(p) && p.data().len() >= DATABASE_HEADER_SIZE
            &&& w.header() == v.header()
            &&& forall|k: usize| k != 1 ==> w.has(k) == v.has(k)
            &&& forall|k: usize| k != 1 ==> w.page(k) == v.page(k)
            &&& w.allocate_page_state == v.allocate_page_state
            &&& w.auto_vacuum_mode == v.auto_vacuum_mode
            &&& w.free_page_state == FreePageState::NewTrunk { page: page_id }
        }),
{
    lemma_header_stays(v);
}

/// The step that adds a page to a trunk page with room.
proof fn lemma_free_to_trunk(v: PagerView, s: SharedView, after: SpillOutcome, page_id: usize)
    requires
        v.page1() matches Some(p) && p.data().len() >= DATABASE_HEADER_SIZE,
        v.free_page_state is AddToTrunk,
        v.header().freelist_trunk_page > 1,
        v.has(v.header().freelist_trunk_page as usize),
        v.header().freelist_trunk_page != page_id,
        page_id != 1,
        v.cache.pages.contains_key(page_id),
        v.page(page_id).pin_count > 0,
        leaf_count(v.page(v.header().freelist_trunk_page as usize).data()) < v.max_leaves(),
        12 + 4 * leaf_count(v.page(v.header().freelist_trunk_page as usize).data()) <= v.page(
            v.header().freelist_trunk_page as usize,
        ).data().len(),
    ensures
        ({
            let trunk = v.header().freelist_trunk_page as usize;
            let w = v.free_step(s, page_id, false, after).0;
            &&& w.page1() matches Some(p) && p.data().len() >= DATABASE_HEADER_SIZE
            &&& w.header() == v.header()
            &&& w.has(trunk)
            &&& w.page(trunk).data().len() == v.page(trunk).data().len()
            &&& leaves(w.page(trunk).data()) == leaves(v.page(trunk).data()).push(page_id as u32)
            &&& next_trunk(w.page(trunk).data()) == next_trunk(v.page(trunk).data())
            &&& w.page(trunk).pin_count == v.page(trunk).pin_count
            &&& w.has(page_id) == v.has(page_id)
            &&& w.page(page_id) == v.without_pin(page_id).page(page_id)
            &&& w.allocate_page_state == v.allocate_page_state
            &&& w.auto_vacuum_mode == v.auto_vacuum_mode
            &&& w.free_page_state == FreePageState::Start
        }),
{
    let trunk = v.header().freelist_trunk_page as usize;
    lemma_header_stays(v);
    let d = v.header_dirtied();
    let data = with_leaf(d.page(trunk).data(), page_id as u32);
    lemma_rewritten(d, trunk, data);
    law_added_leaf_is_last(d.page(trunk).data(), page_id as u32);
}

/// The first step of an allocation from the freelist.
proof fn lemma_allocate_start(v: PagerView, s: SharedView)
    requires
        v.page1() matches Some(p) && p.data().len() >= DATABASE_HEADER_SIZE,
        v.allocate_page_state == AllocatePageState::Start,
        v.grows_without_map(),
        v.header().freelist_trunk_page > 1,
        v.has(v.header().freelist_trunk_page as usize),
        v.page(v.header().freelist_trunk_page as usize).pin_count < usize::MAX,
    ensures
        ({
            let w = v.allocate_step(s, Turn::Proceed).0;
            let trunk = v.header().freelist_trunk_page as usize;
            &&& w.page1() matches Some(p) && p.data().len() >= DATABASE_HEADER_SIZE
            &&& w.header() == v.header()
            &&& forall|k: usize| k != 1 ==> w.has(k) == v.has(k)
            &&& forall|k: usize| k != 1 && k != trunk ==> w.page(k) == v.page(k)
            &&& w.page(trunk) == v.with_pin(trunk).page(trunk)
            &&& w.allocate_page_state == (AllocatePageState::SearchAvailableFreeListLeaf {
                trunk_page: trunk,
            })
        }),
{
    lemma_header_stays(v);
}

/// The step that takes a trunk page without leaves.
proof fn lemma_allocate_trunk(v: PagerView, s: SharedView, trunk: usize)
    requires
        v.page1() matches Some(p) && p.data().len() >= DATABASE_HEADER_SIZE,
        v.allocate_page_state == (AllocatePageState::SearchAvailableFreeListLeaf {
            trunk_page: trunk,
        }),
        trunk > 1,
        v.has(trunk),
        leaves(v.page(trunk).data()).len() == 0,
        v.page(trunk).pin_count > 0,
    ensures
        ({
            let (w, r) = v.allocate_step(s, Turn::Proceed);
            &&& r == Ok::<AllocateStep, LimboError>(AllocateStep::Done { page_no: trunk })
            &&& w.allocate_page_state == AllocatePageState::Start
            &&& w.page(trunk).pin_count == v.page(trunk).pin_count - 1
            &&& w.header() == (DatabaseHeader {
                freelist_trunk_page: next_trunk(v.page(trunk).data()),
                freelist_pages: (v.header().freelist_pages - 1) as u32,
                ..v.header()
            })
        }),
{
    let h = v.header();
    lemma_header_stays(v);
    let d = v.header_dirtied();
    let data = d.page(trunk).data();
    let zeros = Seq::new(data.len(), |i: int| 0u8);
    assert(leaf_count(data) == leaves(data).len());
    lemma_rewritten(d, trunk, zeros);
    lemma_with_header(
        d.rewritten(trunk, zeros),
        DatabaseHeader {
            freelist_trunk_page: next_trunk(data),
            freelist_pages: (h.freelist_pages - 1) as u32,
            ..h
        },
    );
}

/// The step that finds a leaf.
proof fn lemma_allocate_search(v: PagerView, s: SharedView, trunk: usize)
    requires
        v.page1() matches Some(p) && p.data().len() >= DATABASE_HEADER_SIZE,
        v.allocate_page_state == (AllocatePageState::SearchAvailableFreeListLeaf {
            trunk_page: trunk,
        }),
        trunk > 1,
        v.has(trunk),
        v.page(trunk).data().len() >= 12,
        leaves(v.page(trunk).data()).len() > 0,
        leaves(v.page(trunk).data())[0] > 1,
        leaves(v.page(trunk).data())[0] != trunk,
        v.has(leaves(v.page(trunk).data())[0] as usize),
        v.page(leaves(v.page(trunk).data())[0] as usize).pin_count < usize::MAX,
    ensures
        ({
            let w = v.allocate_step(s, Turn::Proceed).0;
            let q = leaves(v.page(trunk).data());
            &&& w.page1() matches Some(p) && p.data().len() >= DATABASE_HEADER_SIZE
            &&& w.header() == v.header()
            &&& forall|k: usize| k != 1 ==> w.has(k) == v.has(k)
            &&& forall|k: usize| k != 1 && k != q[0] ==> w.page(k) == v.page(k)
            &&& w.page(q[0] as usize) == v.with_pin(q[0] as usize).page(q[0] as usize)
            &&& w.allocate_page_state == (AllocatePageState::ReuseFreelistLeaf {
                trunk_page: trunk,
                leaf_page: q[0] as usize,
                number_of_freelist_leaves: q.len() as u32,
            })
        }),
{
    lemma_header_stays(v);
    let data = v.page(trunk).data();
    assert(leaf_count(data) == leaves(data).len());
    assert(leaves(data)[0] == be32(data, 8) as u32);
    crate::bytes::lemma_be32_bytes_of(data, 8);
}

/// The step that takes a leaf.
proof fn lemma_allocate_reuse(
    v: PagerView,
    s: SharedView,
    trunk: usize,
    leaf: usize,
    n: u32,
)
    requires
        v.page1() matches Some(p) && p.data().len() >= DATABASE_HEADER_SIZE,
        v.allocate_page_state == (AllocatePageState::ReuseFreelistLeaf {
            trunk_page: trunk,
            leaf_page: leaf,
            number_of_freelist_leaves: n,
        }),
        trunk > 1,
        leaf > 1,
        trunk != leaf,
        v.has(trunk),
        v.has(leaf),
        leaf_count(v.page(trunk).data()) == n,
        n >= 1,
        8 + 4 * n <= v.page(trunk).data().len(),
        v.page(trunk).pin_count > 0,
        v.page(leaf).pin_count > 0,
    ensures
        ({
            let (w, r) = v.allocate_step(s, Turn::Proceed);
            &&& r == Ok::<AllocateStep, LimboError>(AllocateStep::Done { page_no: leaf })
            &&& w.allocate_page_state == AllocatePageState::Start
            &&& w.page(trunk).pin_count == v.page(trunk).pin_count - 1
            &&& w.page(leaf).pin_count == v.page(leaf).pin_count - 1
            &&& w.header() == (DatabaseHeader {
                freelist_pages: (v.header().freelist_pages - 1) as u32,
                ..v.header()
            })
            &&& leaves(w.page(trunk).data()) == leaves(v.page(trunk).data()).drop_first()
            &&& next_trunk(w.page(trunk).data()) == next_trunk(v.page(trunk).data())
        }),
{
    let h = v.header();
    lemma_header_stays(v);
    let d = v.header_dirtied();
    let zeros = Seq::new(d.page(leaf).data().len(), |i: int| 0u8);
    lemma_rewritten(d, leaf, zeros);
    let cleared = d.rewritten(leaf, zeros);
    let data = cleared.page(trunk).data();
    let back = without_first_leaf(data, n);
    lemma_rewritten(cleared, trunk, back);
    law_taken_leaf_is_first(data);
    lemma_with_header(
        cleared.rewritten(trunk, back),
        DatabaseHeader { freelist_pages: (h.freelist_pages - 1) as u32, ..h },
    );
}

/// A page that is freed while the freelist is empty, or its first trunk page full, becomes the
/// first trunk page, and the next allocation gives it back: the freelist's head, its length and
/// the database's size are then what they were, and the page has the pins that it had.
pub proof fn law_freed_trunk_is_allocated_next(
    v: PagerView,
    s: SharedView,
    after: SpillOutcome,
    page_id: usize,
)
    requires
        v.frees_in_place(page_id),
        v.grows_without_map(),
        v.header().freelist_trunk_page == 0 || leaf_count(
            v.page(v.header().freelist_trunk_page as usize).data(),
        ) >= v.max_leaves(),
    ensures
        ({
            let steps: nat = if v.header().freelist_trunk_page == 0 {
                2
            } else {
                3
            };
            let freed = v.after_free_steps(s, after, page_id, steps);
            let (end, r) = freed.after_allocate_steps(s, 2);
            &&& freed.free_page_state == FreePageState::Start
            &&& freed.header() == (DatabaseHeader {
                freelist_pages: (v.header().freelist_pages + 1) as u32,
                freelist_trunk_page: page_id as u32,
                ..v.header()
            })
            &&& r == Ok::<AllocateStep, LimboError>(AllocateStep::Done { page_no: page_id })
            &&& end.allocate_page_state == AllocatePageState::Start
            &&& end.header() == v.header()
            &&& end.page(page_id).pin_count == v.page(page_id).pin_count
        }),
{
    let steps: nat = if v.header().freelist_trunk_page == 0 {
        2
    } else {
        3
    };
    lemma_freed_as_trunk(v, s, after, page_id);
    lemma_trunk_is_allocated(v.after_free_steps(s, after, page_id, steps), s);
}

/// A page that was freed, without a trunk page that has room for it, is the first trunk page.
proof fn lemma_freed_as_trunk(v: PagerView, s: SharedView, after: SpillOutcome, page_id: usize)
    requires
        v.frees_in_place(page_id),
        v.header().freelist_trunk_page == 0 || leaf_count(
            v.page(v.header().freelist_trunk_page as usize).data(),
        ) >= v.max_leaves(),
    ensures
        ({
            let h = v.header();
            let steps: nat = if h.freelist_trunk_page == 0 {
                2
            } else {
                3
            };
            let w = v.after_free_steps(s, after, page_id, steps);
            &&& w.page1() matches Some(p) && p.data().len() >= DATABASE_HEADER_SIZE
            &&& w.header() == (DatabaseHeader {
                freelist_pages: (h.freelist_pages + 1) as u32,
                freelist_trunk_page: page_id as u32,
                ..h
            })
            &&& w.has(page_id)
            &&& leaves(w.page(page_id).data()).len() == 0
            &&& next_trunk(w.page(page_id).data()) == h.freelist_trunk_page
            &&& w.page(page_id).pin_count == v.page(page_id).pin_count
            &&& w.allocate_page_state == v.allocate_page_state
            &&& w.auto_vacuum_mode == v.auto_vacuum_mode
            &&& w.free_page_state == FreePageState::Start
        }),
{
    let f1 = v.free_step(s, page_id, false, after).0;
    let f2 = f1.free_step(s, page_id, false, after).0;
    lemma_free_steps(v, s, after, page_id);
    lemma_free_start(v, s, after, page_id);
    if v.header().freelist_trunk_page == 0 {
        lemma_free_as_trunk(f1, s, after, page_id);
    } else {
        lemma_free_full(f1, s, after, page_id);
        lemma_free_as_trunk(f2, s, after, page_id);
    }
}

/// A first trunk page without leaves is what an allocation gives.
proof fn lemma_trunk_is_allocated(v: PagerView, s: SharedView)
    requires
        v.page1() matches Some(p) && p.data().len() >= DATABASE_HEADER_SIZE,
        v.allocate_page_state == AllocatePageState::Start,
        v.grows_without_map(),
        v.header().freelist_trunk_page > 1,
        v.has(v.header().freelist_trunk_page as usize),
        v.page(v.header().freelist_trunk_page as usize).pin_count < usize::MAX,
        leaves(v.page(v.header().freelist_trunk_page as usize).data()).len() == 0,
    ensures
        ({
            let trunk = v.header().freelist_trunk_page as usize;
            let (end, r) = v.after_allocate_steps(s, 2);
            &&& r == Ok::<AllocateStep, LimboError>(AllocateStep::Done { page_no: trunk })
            &&& end.allocate_page_state == AllocatePageState::Start
            &&& end.header() == (DatabaseHeader {
                freelist_trunk_page: next_trunk(v.page(trunk).data()),
                freelist_pages: (v.header().freelist_pages - 1) as u32,
                ..v.header()
            })
            &&& end.page(trunk).pin_count == v.page(trunk).pin_count
        }),
{
    let trunk = v.header().freelist_trunk_page as usize;
    lemma_allocate_steps(v, s);
    lemma_allocate_start(v, s);
    lemma_allocate_trunk(v.allocate_step(s, Turn::Proceed).0, s, trunk);
}

/// A page that is freed while the first trunk page has no leaves becomes its leaf, and the next
/// allocation gives it back: the header is then what it was, the trunk page has no leaves, and both
/// pages have the pins that they had.
pub proof fn law_freed_leaf_is_allocated_next(
    v: PagerView,
    s: SharedView,
    after: SpillOutcome,
    page_id: usize,
)
    requires
        v.frees_in_place(page_id),
        v.grows_without_map(),
        v.header().freelist_trunk_page != 0,
        leaves(v.page(v.header().freelist_trunk_page as usize).data()).len() == 0,
    ensures
        ({
            let trunk = v.header().freelist_trunk_page as usize;
            let freed = v.after_free_steps(s, after, page_id, 2);
            let (end, r) = freed.after_allocate_steps(s, 3);
            &&& freed.free_page_state == FreePageState::Start
            &&& leaves(freed.page(trunk).data()) == seq![page_id as u32]
            &&& freed.header() == (DatabaseHeader {
                freelist_pages: (v.header().freelist_pages + 1) as u32,
                ..v.header()
            })
            &&& r == Ok::<AllocateStep, LimboError>(AllocateStep::Done { page_no: page_id })
            &&& end.allocate_page_state == AllocatePageState::Start
            &&& end.header() == v.header()
            &&& leaves(end.page(trunk).data()).len() == 0
            &&& next_trunk(end.page(trunk).data()) == next_trunk(v.page(trunk).data())
            &&& end.page(page_id).pin_count == v.page(page_id).pin_count
            &&& end.page(trunk).pin_count == v.page(trunk).pin_count
        }),
{
    let freed = v.after_free_steps(s, after, page_id, 2);
    lemma_freed_as_leaf(v, s, after, page_id);
    lemma_leaf_is_allocated(freed, s, page_id);
}

/// A page that was freed is the only leaf of a trunk page that had none.
proof fn lemma_freed_as_leaf(v: PagerView, s: SharedView, after: SpillOutcome, page_id: usize)
    requires
        v.frees_in_place(page_id),
        v.header().freelist_trunk_page != 0,
        leaves(v.page(v.header().freelist_trunk_page as usize).data()).len() == 0,
    ensures
        ({
            let trunk = v.header().freelist_trunk_page as usize;
            let w = v.after_free_steps(s, after, page_id, 2);
            &&& w.page1() matches Some(p) && p.data().len() >= DATABASE_HEADER_SIZE
            &&& w.header() == (DatabaseHeader {
                freelist_pages: (v.header().freelist_pages + 1) as u32,
                ..v.header()
            })
            &&& w.has(trunk)
            &&& w.page(trunk).data().len() == v.page(trunk).data().len()
            &&& leaves(w.page(trunk).data()) == seq![page_id as u32]
            &&& next_trunk(w.page(trunk).data()) == next_trunk(v.page(trunk).data())
            &&& w.page(trunk).pin_count == v.page(trunk).pin_count
            &&& w.has(page_id)
            &&& w.page(page_id).pin_count == v.page(page_id).pin_count
            &&& w.allocate_page_state == v.allocate_page_state
            &&& w.auto_vacuum_mode == v.auto_vacuum_mode
            &&& w.free_page_state == FreePageState::Start
        }),
{
    let trunk = v.header().freelist_trunk_page as usize;
    let f1 = v.free_step(s, page_id, false, after).0;
    lemma_free_steps(v, s, after, page_id);
    lemma_free_start(v, s, after, page_id);
    assert(leaf_count(v.page(trunk).data()) == leaves(v.page(trunk).data()).len());
    lemma_free_to_trunk(f1, s, after, page_id);
    let q = leaves(f1.free_step(s, page_id, false, after).0.page(trunk).data());
    assert(q =~= seq![page_id as u32]);
}

/// The only leaf of the first trunk page is what an allocation gives.
proof fn lemma_leaf_is_allocated(v: PagerView, s: SharedView, leaf: usize)
    requires
        v.page1() matches Some(p) && p.data().len() >= DATABASE_HEADER_SIZE,
        v.allocate_page_state == AllocatePageState::Start,
        v.grows_without_map(),
        v.header().freelist_trunk_page > 1,
        1 < leaf <= u32::MAX,
        v.header().freelist_trunk_page != leaf,
        v.has(leaf),
        v.page(leaf).pin_count < usize::MAX,
        ({
            let trunk = v.header().freelist_trunk_page as usize;
            &&& v.has(trunk)
            &&& v.page(trunk).data().len() >= 12
            &&& v.page(trunk).pin_count < usize::MAX
            &&& leaves(v.page(trunk).data()) == seq![leaf as u32]
        }),
    ensures
        ({
            let trunk = v.header().freelist_trunk_page as usize;
            let (end, r) = v.after_allocate_steps(s, 3);
            &&& r == Ok::<AllocateStep, LimboError>(AllocateStep::Done { page_no: leaf })
            &&& end.allocate_page_state == AllocatePageState::Start
            &&& end.header() == (DatabaseHeader {
                freelist_pages: (v.header().freelist_pages - 1) as u32,
                ..v.header()
            })
            &&& leaves(end.page(trunk).data()).len() == 0
            &&& next_trunk(end.page(trunk).data()) == next_trunk(v.page(trunk).data())
            &&& end.page(leaf).pin_count == v.page(leaf).pin_count
            &&& end.page(trunk).pin_count == v.page(trunk).pin_count
        }),
{
    let trunk = v.header().freelist_trunk_page as usize;
    assert(leaf_count(v.page(trunk).data()) == leaves(v.page(trunk).data()).len());
    lemma_allocate_steps(v, s);
    lemma_allocate_start(v, s);
    let a1 = v.allocate_step(s, Turn::Proceed).0;
    lemma_allocate_search(a1, s, trunk);
    let a2 = a1.allocate_step(s, Turn::Proceed).0;
    lemma_allocate_reuse(a2, s, trunk, leaf, 1);
}

/// The first steps of freeing a page, written out.
proof fn lemma_free_steps(v: PagerView, s: SharedView, after: SpillOutcome, page_id: usize)
    ensures
        ({
            let f1 = v.free_step(s, page_id, false, after).0;
            let f2 = f1.free_step(s, page_id, false, after).0;
            &&& v.after_free_steps(s, after, page_id, 2) == f2
            &&& v.after_free_steps(s, after, page_id, 3) == f2.free_step(s, page_id, false, after).0
        }),
{
    reveal_with_fuel(PagerView::after_free_steps, 4);
}

/// The first steps of an allocation, written out.
proof fn lemma_allocate_steps(v: PagerView, s: SharedView)
    ensures
        ({
            let a1 = v.allocate_step(s, Turn::Proceed).0;
            let a2 = a1.allocate_step(s, Turn::Proceed);
            &&& v.after_allocate_steps(s, 2) == a2
            &&& v.after_allocate_steps(s, 3) == a2.0.allocate_step(s, Turn::Proceed)
        }),
{
    reveal_with_fuel(PagerView::after_allocate_steps, 4);
}

/// A database that grows never gets the page with the pending byte, nor more pages than it may have.
pub proof fn law_growth_passes_pending_page(v: PagerView, current: u32)
    requires
        current <= u32::MAX - 2,
        v.allocate_new(current).1 is Ok,
    ensures
        v.allocate_new(current).1 matches Ok(AllocateStep::Done { page_no }) && {
            &&& current < page_no <= v.max_page_count
            &&& Pager::pending_page(v.page_size) != Some(page_no as u32)
        },
{
}

} // verus!
