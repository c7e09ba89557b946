//! The pointer map of a database with autovacuum, and the creation of btrees.

use vstd::prelude::*;
use crate::bytes::splice;
use crate::error::{Corruption, InternalFault, LimboError};
use crate::page::DATABASE_HEADER_SIZE;
use crate::pager::{Pager, PagerView};
use crate::pager_state::{IOResult, IoRequest, PtrMapGetState, PtrMapPutState, VacuumState};
use crate::ptrmap::{get_ptrmap_offset_in_page, get_ptrmap_page_no_for_db_page, is_mapped,
    is_ptrmap_page, law_ptrmap_entries_are_disjoint, law_ptrmap_maps_every_data_page, map_offset,
    map_page, PtrmapEntry, PtrmapType, FIRST_PTRMAP_PAGE_NO, PTRMAP_ENTRY_SIZE};

verus! {

/// A page to be brought into the cache.
pub open spec fn read_request<T>(page_no: usize) -> Result<IOResult<T>, LimboError> {
    Ok(IOResult::IO(IoRequest::ReadPage { page_no }))
}

/// The pointer map has no room for the entry.
pub open spec fn beyond_page(offset: usize, page_id: usize, len: nat) -> LimboError {
    LimboError::InternalError(
        InternalFault::PtrmapOffsetOutOfBounds { offset, page_id, len: len as usize },
    )
}

impl PagerView {
    /// The same with the header's schema cookie remembered.
    pub open spec fn with_cookie(self) -> PagerView {
        PagerView { schema_cookie: self.header().schema_cookie as u64, ..self }
    }

    /// The same with a lookup in the pointer map elsewhere.
    pub open spec fn with_get_state(self, state: PtrMapGetState) -> PagerView {
        PagerView {
            vacuum_state: VacuumState { ptrmap_get_state: state, ..self.vacuum_state },
            ..self
        }
    }

    /// The same with an update of the pointer map elsewhere.
    pub open spec fn with_put_state(self, state: PtrMapPutState) -> PagerView {
        PagerView {
            vacuum_state: VacuumState { ptrmap_put_state: state, ..self.vacuum_state },
            ..self
        }
    }

    /// A lookup for page `target` whose entry is in page `at`.
    pub open spec fn ptrmap_found(self, target: u32, at: usize, offset: usize) -> (
        PagerView,
        Result<IOResult<Option<PtrmapEntry>>, LimboError>,
    ) {
        let waiting = self.with_get_state(
            PtrMapGetState::Deserialize { ptrmap_page: at, offset_in_ptrmap_page: offset },
        );
        if !self.has(at) {
            (waiting, read_request(at))
        } else {
            let data = self.page(at).data();
            if offset + PTRMAP_ENTRY_SIZE > data.len() {
                (waiting, Err(beyond_page(offset, at, data.len())))
            } else {
                (
                    self.with_get_state(PtrMapGetState::Start),
                    match PtrmapEntry::decoded(data, offset as int) {
                        Some(entry) => Ok(IOResult::Done(Some(entry))),
                        None => Err(
                            LimboError::Corrupt(
                                Corruption::PtrmapEntry { page_no: target, ptrmap_page_no: at },
                            ),
                        ),
                    },
                )
            }
        }
    }

    /// A lookup in the pointer map.
    pub open spec fn ptrmap_looked_up(self, target: u32) -> (
        PagerView,
        Result<IOResult<Option<PtrmapEntry>>, LimboError>,
    ) {
        match self.vacuum_state.ptrmap_get_state {
            PtrMapGetState::Deserialize { ptrmap_page, offset_in_ptrmap_page } => {
                self.ptrmap_found(target, ptrmap_page, offset_in_ptrmap_page)
            },
            PtrMapGetState::Start => if self.page1() is None {
                (self, read_request(1))
            } else {
                let page_size = self.header().page_size.bytes();
                if !is_mapped(target as int, page_size) {
                    (self.with_cookie(), Ok(IOResult::Done(None)))
                } else {
                    self.with_cookie().ptrmap_found(
                        target,
                        map_page(target as int, page_size) as usize,
                        map_offset(target as int, page_size) as usize,
                    )
                }
            },
        }
    }

    /// An update of an entry in page `at`.
    pub open spec fn ptrmap_stored(self, at: usize, offset: usize, entry: PtrmapEntry) -> (
        PagerView,
        Result<IOResult<()>, LimboError>,
    ) {
        let state = PtrMapPutState::Deserialize { ptrmap_page: at, offset_in_ptrmap_page: offset };
        if !self.has(at) {
            (self.with_put_state(state), read_request(at))
        } else {
            let data = self.page(at).data();
            if offset + PTRMAP_ENTRY_SIZE > data.len() {
                (self.dirtied(at).with_put_state(state), Err(beyond_page(offset, at, data.len())))
            } else {
                (
                    self.rewritten(at, splice(data, offset as int, entry.encoded())).with_put_state(
                        PtrMapPutState::Start,
                    ),
                    Ok(IOResult::Done(())),
                )
            }
        }
    }

    /// An update of the pointer map.
    pub open spec fn ptrmap_updated(self, page: u32, entry: PtrmapEntry) -> (
        PagerView,
        Result<IOResult<()>, LimboError>,
    ) {
        match self.vacuum_state.ptrmap_put_state {
            PtrMapPutState::Deserialize { ptrmap_page, offset_in_ptrmap_page } => {
                self.ptrmap_stored(ptrmap_page, offset_in_ptrmap_page, entry)
            },
            PtrMapPutState::Start => if self.page1() is None {
                (self, read_request(1))
            } else {
                let page_size = self.header().page_size.bytes();
                if !is_mapped(page as int, page_size) {
                    (
                        self.with_cookie(),
                        Err(
                            LimboError::InternalError(
                                InternalFault::PtrmapEntryNotAllowed { page_no: page },
                            ),
                        ),
                    )
                } else {
                    self.with_cookie().ptrmap_stored(
                        map_page(page as int, page_size) as usize,
                        map_offset(page as int, page_size) as usize,
                        entry,
                    )
                }
            },
        }
    }

    /// The header, if it is there, has a page size, and the group of the pointer map that the page is
    /// in, if it is in one, ends before page numbers do.
    pub open spec fn can_map(self, page: u32) -> bool {
        self.page1() is Some ==> {
            let size = self.header().page_size.bytes();
            &&& self.header().page_size.valid()
            &&& is_mapped(page as int, size) ==> map_page(page as int, size) + size / 5 <= u32::MAX
        }
    }

    /// Every page of the pointer map, if it is there, can be made dirty.
    pub open spec fn can_mark_maps(self) -> bool {
        forall|k: usize| 2 <= k && #[trigger] self.has(k) && k <= u32::MAX ==> self.can_mark(self.page(k))
    }
}

impl Pager {
    /// Looks a page up in the pointer map. Page 1 and the pages of the map itself have no entry.
    pub fn ptrmap_get(&mut self, target_page_num: u32) -> (r: Result<
        IOResult<Option<PtrmapEntry>>,
        LimboError,
    >)
        requires
            old(self)@.wf(),
            old(self)@.header_readable(),
            old(self)@.vacuum_state.ptrmap_get_state is Start ==> old(self)@.can_map(target_page_num),
            old(self)@.vacuum_state.ptrmap_get_state matches PtrMapGetState::Deserialize {
                offset_in_ptrmap_page,
                ..
            } ==> offset_in_ptrmap_page <= u32::MAX - PTRMAP_ENTRY_SIZE,
        ensures
            final(self)@.wf(),
            (final(self)@, r) == old(self)@.ptrmap_looked_up(target_page_num),
    {
        match self.vacuum_state.ptrmap_get_state {
            PtrMapGetState::Start => {},
            PtrMapGetState::Deserialize { ptrmap_page, offset_in_ptrmap_page } => {
                return self.ptrmap_get_from(target_page_num, ptrmap_page, offset_in_ptrmap_page);
            },
        }
        let page_size: usize = match self.with_header() {
            IOResult::IO(io) => {
                return Ok(IOResult::IO(io));
            },
            IOResult::Done(header) => header.page_size.get() as usize,
        };
        if target_page_num < FIRST_PTRMAP_PAGE_NO || is_ptrmap_page(target_page_num, page_size) {
            return Ok(IOResult::Done(None));
        }
        proof {
            law_ptrmap_maps_every_data_page(target_page_num as int, page_size as int);
        }
        let ptrmap_pg_no: u32 = get_ptrmap_page_no_for_db_page(target_page_num, page_size);
        match get_ptrmap_offset_in_page(target_page_num, ptrmap_pg_no, page_size) {
            Err(e) => Err(e),
            Ok(offset) => self.ptrmap_get_from(target_page_num, ptrmap_pg_no as usize, offset),
        }
    }

    fn ptrmap_get_from(&mut self, target: u32, at: usize, offset: usize) -> (r: Result<
        IOResult<Option<PtrmapEntry>>,
        LimboError,
    >)
        requires
            old(self)@.wf(),
            offset <= u32::MAX - PTRMAP_ENTRY_SIZE,
        ensures
            final(self)@.wf(),
            (final(self)@, r) == old(self)@.ptrmap_found(target, at, offset),
    {
        self.vacuum_state.ptrmap_get_state = PtrMapGetState::Deserialize {
            ptrmap_page: at,
            offset_in_ptrmap_page: offset,
        };
        if !self.has_page(at) {
            return Ok(IOResult::IO(IoRequest::ReadPage { page_no: at }));
        }
        let page = self.page_cache.peek(at).unwrap();
        let data = page.inner.as_slice();
        let len: usize = data.len();
        if offset + PTRMAP_ENTRY_SIZE > len {
            return Err(
                LimboError::InternalError(
                    InternalFault::PtrmapOffsetOutOfBounds { offset, page_id: at, len },
                ),
            );
        }
        let entry = PtrmapEntry::deserialize_at(data, offset);
        self.vacuum_state.ptrmap_get_state = PtrMapGetState::Start;
        match entry {
            Some(entry) => Ok(IOResult::Done(Some(entry))),
            None => Err(
                LimboError::Corrupt(Corruption::PtrmapEntry { page_no: target, ptrmap_page_no: at }),
            ),
        }
    }

    /// Sets a page's entry in the pointer map.
    pub fn ptrmap_put(
        &mut self,
        db_page_no_to_update: u32,
        entry_type: PtrmapType,
        parent_page_no: u32,
    ) -> (r: Result<IOResult<()>, LimboError>)
        requires
            old(self)@.wf(),
            old(self)@.header_readable(),
            old(self)@.can_mark_maps(),
            old(self)@.vacuum_state.ptrmap_put_state is Start ==> old(self)@.can_map(
                db_page_no_to_update,
            ),
            old(self)@.vacuum_state.ptrmap_put_state matches PtrMapPutState::Deserialize {
                ptrmap_page,
                offset_in_ptrmap_page,
            } ==> offset_in_ptrmap_page <= u32::MAX - PTRMAP_ENTRY_SIZE && 2 <= ptrmap_page
                <= u32::MAX,
        ensures
            final(self)@.wf(),
            (final(self)@, r) == old(self)@.ptrmap_updated(
                db_page_no_to_update,
                PtrmapEntry { entry_type, parent_page_no },
            ),
    {
        let ghost before = self@;
        let entry = PtrmapEntry { entry_type, parent_page_no };
        match self.vacuum_state.ptrmap_put_state {
            PtrMapPutState::Start => {},
            PtrMapPutState::Deserialize { ptrmap_page, offset_in_ptrmap_page } => {
                return self.ptrmap_put_in(ptrmap_page, offset_in_ptrmap_page, entry);
            },
        }
        let page_size: usize = match self.with_header() {
            IOResult::IO(io) => {
                return Ok(IOResult::IO(io));
            },
            IOResult::Done(header) => header.page_size.get() as usize,
        };
        if db_page_no_to_update < FIRST_PTRMAP_PAGE_NO || is_ptrmap_page(
            db_page_no_to_update,
            page_size,
        ) {
            return Err(
                LimboError::InternalError(
                    InternalFault::PtrmapEntryNotAllowed { page_no: db_page_no_to_update },
                ),
            );
        }
        proof {
            law_ptrmap_maps_every_data_page(db_page_no_to_update as int, page_size as int);
        }
        let ptrmap_pg_no: u32 = get_ptrmap_page_no_for_db_page(db_page_no_to_update, page_size);
        match get_ptrmap_offset_in_page(db_page_no_to_update, ptrmap_pg_no, page_size) {
            Err(e) => Err(e),
            Ok(offset) => {
                assert(self@.has(ptrmap_pg_no as usize) == before.has(ptrmap_pg_no as usize));
                self.ptrmap_put_in(ptrmap_pg_no as usize, offset, entry)
            },
        }
    }

    fn ptrmap_put_in(&mut self, at: usize, offset: usize, entry: PtrmapEntry) -> (r: Result<
        IOResult<()>,
        LimboError,
    >)
        requires
            old(self)@.wf(),
            offset <= u32::MAX - PTRMAP_ENTRY_SIZE,
            old(self)@.has(at) ==> old(self)@.can_mark(old(self)@.page(at)),
        ensures
            final(self)@.wf(),
            (final(self)@, r) == old(self)@.ptrmap_stored(at, offset, entry),
    {
        let ghost before = self@;
        self.vacuum_state.ptrmap_put_state = PtrMapPutState::Deserialize {
            ptrmap_page: at,
            offset_in_ptrmap_page: offset,
        };
        if !self.has_page(at) {
            return Ok(IOResult::IO(IoRequest::ReadPage { page_no: at }));
        }
        let mut page = self.page_cache.take(at);
        self.add_dirty(&mut page);
        let len: usize = page.inner.as_slice().len();
        if offset + PTRMAP_ENTRY_SIZE > len {
            self.page_cache.put(at, page);
            assert(self@ =~= before.ptrmap_stored(at, offset, entry).0);
            return Err(
                LimboError::InternalError(
                    InternalFault::PtrmapOffsetOutOfBounds { offset, page_id: at, len },
                ),
            );
        }
        let r = {
            let buf = page.inner.as_ptr();
            entry.serialize_at(buf, offset)
        };
        self.page_cache.put(at, page);
        match r {
            Err(e) => Err(e),
            Ok(()) => {
                self.vacuum_state.ptrmap_put_state = PtrMapPutState::Start;
                assert(self@ =~= before.ptrmap_stored(at, offset, entry).0);
                Ok(IOResult::Done(()))
            },
        }
    }
}

/// A page's entry in the pointer map, once it is set, is what a lookup gives, and the entries of
/// the other pages stay what they were.
pub proof fn law_ptrmap_get_after_put(v: PagerView, page: u32, entry: PtrmapEntry, other: u32)
    requires
        v.page1() matches Some(p) && p.data().len() >= DATABASE_HEADER_SIZE,
        v.header().page_size.valid(),
        v.vacuum_state == VacuumState::idle(),
        is_mapped(page as int, v.header().page_size.bytes()),
        is_mapped(other as int, v.header().page_size.bytes()),
        other != page,
        v.has(map_page(page as int, v.header().page_size.bytes()) as usize),
        v.page(map_page(page as int, v.header().page_size.bytes()) as usize).data().len()
            == v.header().page_size.bytes(),
    ensures
        ({
            let (w, r) = v.ptrmap_updated(page, entry);
            &&& r == Ok::<IOResult<()>, LimboError>(IOResult::Done(()))
            &&& w.ptrmap_looked_up(page).1 == Ok::<IOResult<Option<PtrmapEntry>>, LimboError>(
                IOResult::Done(Some(entry)),
            )
            &&& w.ptrmap_looked_up(other).1 == v.ptrmap_looked_up(other).1
        }),
{
    let page_size = v.header().page_size.bytes();
    law_ptrmap_maps_every_data_page(page as int, page_size);
    law_ptrmap_maps_every_data_page(other as int, page_size);
    let at = map_page(page as int, page_size) as usize;
    let offset = map_offset(page as int, page_size) as usize;
    let v1 = v.with_cookie();
    let data = v1.page(at).data();
    let after = splice(data, offset as int, entry.encoded());
    let (w, r) = v.ptrmap_updated(page, entry);
    crate::ptrmap::law_ptrmap_entry_round_trip(entry, entry.encoded());
    assert(at != 1);
    assert(w.page1() == v.page1());
    assert(w.page(at).data() == after);
    lemma_entry_written(data, offset as int, entry);
    let at2 = map_page(other as int, page_size) as usize;
    let offset2 = map_offset(other as int, page_size) as usize;
    if at2 == at {
        if page < other {
            law_ptrmap_entries_are_disjoint(page as int, other as int, page_size);
        } else {
            law_ptrmap_entries_are_disjoint(other as int, page as int, page_size);
        }
        assert(PtrmapEntry::decoded(after, offset2 as int) == PtrmapEntry::decoded(
            data,
            offset2 as int,
        ));
    } else {
        assert(w.has(at2) == v.has(at2));
        assert(w.page(at2) == v.page(at2));
    }
}

/// An entry that is written is read back.
proof fn lemma_entry_written(data: Seq<u8>, offset: int, entry: PtrmapEntry)
    requires
        0 <= offset,
        offset + PTRMAP_ENTRY_SIZE <= data.len(),
    ensures
        PtrmapEntry::decoded(splice(data, offset, entry.encoded()), offset) == Some(entry),
{
    let after = splice(data, offset, entry.encoded());
    crate::bytes::lemma_be32_of_bytes(entry.parent_page_no);
    let enc = entry.encoded();
    assert(after.subrange(offset + 1, offset + 5) =~= crate::bytes::be32_bytes(
        entry.parent_page_no,
    ));
    crate::bytes::lemma_be32_at(after, offset + 1, entry.parent_page_no);
    assert(after[offset] == enc[0]);
}

} // verus!
