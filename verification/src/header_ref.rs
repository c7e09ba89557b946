//! References to the database header in page 1.

use vstd::prelude::*;
use crate::bytes::splice;
use crate::db_header::{law_database_header_round_trip, DatabaseHeader};
use crate::page::{Page, DATABASE_HEADER_SIZE};
use crate::pager::{Pager, PagerView};
use crate::pager_state::{IOResult, IoRequest};

verus! {

/// Page 1, read for its header.
#[derive(Debug)]
pub struct HeaderRef<'a>(pub &'a Page);

impl<'a> HeaderRef<'a> {
    /// Page 1 of a pager, or a request to read it.
    pub fn from_pager(pager: &'a Pager) -> (r: IOResult<HeaderRef<'a>>)
        requires
            pager@.wf(),
        ensures
            match pager@.page1() {
                None => r matches IOResult::IO(IoRequest::ReadPage { page_no }) && page_no == 1,
                Some(p) => r matches IOResult::Done(h) && h.0@ == p,
            },
    {
        match &pager.init_page_1 {
            Some(page) => IOResult::Done(HeaderRef(page)),
            None => match pager.page_cache.peek(DatabaseHeader::PAGE_ID) {
                Some(page) => {
                    if page.is_loaded() {
                        IOResult::Done(HeaderRef(page))
                    } else {
                        IOResult::IO(IoRequest::ReadPage { page_no: DatabaseHeader::PAGE_ID })
                    }
                },
                None => IOResult::IO(IoRequest::ReadPage { page_no: DatabaseHeader::PAGE_ID }),
            },
        }
    }

    /// The header in the page.
    pub fn borrow(&self) -> (r: DatabaseHeader)
        requires
            self.0@.buffer is Some,
            self.0@.data().len() >= DATABASE_HEADER_SIZE,
        ensures
            r == DatabaseHeader::decoded(self.0@.data()),
            r.is_in(self.0@.data()),
    {
        DatabaseHeader::parse(self.0.inner.as_slice())
    }
}

/// The header of page 1, which is dirty, on its way to be changed.
#[derive(Debug)]
pub struct HeaderRefMut {
    pub header: DatabaseHeader,
}

impl HeaderRefMut {
    /// Makes page 1 of a pager dirty and takes its header, or requests to read the page.
    pub fn from_pager(pager: &mut Pager) -> (r: IOResult<HeaderRefMut>)
        requires
            old(pager)@.wf(),
            old(pager)@.header_ready(),
        ensures
            final(pager)@.wf(),
            match old(pager)@.page1() {
                None => {
                    &&& r matches IOResult::IO(IoRequest::ReadPage { page_no }) && page_no == 1
                    &&& final(pager)@ == old(pager)@
                },
                Some(p) => {
                    &&& r matches IOResult::Done(h) && h.header == old(pager)@.header()
                    &&& final(pager)@ == old(pager)@.header_dirtied()
                    &&& final(pager)@.page1() == Some(p.dirtied())
                },
            },
    {
        match pager.begin_header_mut() {
            IOResult::IO(io) => IOResult::IO(io),
            IOResult::Done(header) => IOResult::Done(HeaderRefMut { header }),
        }
    }

    /// The header, to be changed.
    pub fn borrow_mut(&mut self) -> (r: &mut DatabaseHeader)
        ensures
            *r == old(self).header,
            final(self).header == *final(r),
    {
        &mut self.header
    }

    /// The page that the header belongs to: page 1 of the pager, if it is there.
    pub fn page<'a>(&self, pager: &'a Pager) -> (r: Option<&'a Page>)
        requires
            pager@.wf(),
        ensures
            match pager@.page1() {
                None => r is None,
                Some(p) => r matches Some(page) && page@ == p,
            },
    {
        match HeaderRef::from_pager(pager) {
            IOResult::Done(h) => Some(h.0),
            IOResult::IO(_) => None,
        }
    }

    /// Writes the header into page 1, which is there.
    pub fn store(&self, pager: &mut Pager)
        requires
            old(pager)@.wf(),
            old(pager)@.page1() matches Some(p) && p.data().len() >= DATABASE_HEADER_SIZE,
        ensures
            final(pager)@.wf(),
            final(pager)@ == old(pager)@.with_header(self.header),
            final(pager)@.header() == self.header,
    {
        pager.store_header(&self.header);
    }
}

/// A header that was changed through a mutable reference and stored is what a reference taken
/// afterwards shows.
pub proof fn law_stored_header_is_read(v: PagerView, header: DatabaseHeader)
    requires
        v.wf(),
        v.page1() matches Some(p) && p.data().len() >= DATABASE_HEADER_SIZE,
    ensures
        v.with_header(header).page1() is Some,
        v.with_header(header).header() == header,
{
    law_database_header_round_trip(header, v.page1()->0.data());
}

/// A change of the header is a change of page 1, and of no other page: page 1 is dirty then and will
/// be committed, its first hundred bytes are those of the header, and the others stay.
pub proof fn law_header_change_is_committed(v: PagerView, header: DatabaseHeader, other: usize)
    requires
        v.page1() matches Some(p) && p.id == 1 && p.data().len() >= 100,
    ensures
        ({
            let w = v.header_dirtied().with_header(header);
            let before = v.page1()->0.data();
            let after = w.page1()->0.data();
            &&& w.page1() is Some
            &&& w.page1()->0.dirty
            &&& w.dirty.contains(1)
            &&& after.len() == before.len()
            &&& header.is_in(after)
            &&& forall|i: int| 100 <= i < before.len() ==> after[i] == before[i]
            &&& other != 1 ==> w.cache.pages.contains_key(other) == v.cache.pages.contains_key(
                other,
            ) && w.page(other) == v.page(other)
        }),
{
    let before = v.page1()->0.data();
    let after = splice(before, 0, header.encoded());
    law_database_header_round_trip(header, before);
    assert(after.subrange(0, 100) =~= header.encoded());
}

} // verus!
