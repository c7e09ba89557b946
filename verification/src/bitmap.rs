//! Sets of page numbers.

use roaring::RoaringBitmap;
use vstd::prelude::*;

verus! {

/// A compressed set of 32-bit numbers.
#[verifier::external_type_specification]
#[verifier::external_body]
pub struct ExRoaringBitmap(RoaringBitmap);

/// The numbers in a bitmap.
pub uninterp spec fn bitmap_contents(b: RoaringBitmap) -> Set<u32>;

/// `RoaringBitmap::new`: a bitmap with nothing in it.
#[verifier::external_body]
fn bitmap_new() -> (b: RoaringBitmap)
    ensures
        bitmap_contents(b) == Set::<u32>::empty(),
{
    RoaringBitmap::new()
}

/// `RoaringBitmap::insert`: adds a number and says whether it was not there before.
#[verifier::external_body]
fn bitmap_insert(b: &mut RoaringBitmap, value: u32) -> (r: bool)
    ensures
        bitmap_contents(*final(b)) == bitmap_contents(*old(b)).insert(value),
        r == !bitmap_contents(*old(b)).contains(value),
{
    b.insert(value)
}

/// `RoaringBitmap::remove`: takes a number out and says whether it was there before.
#[verifier::external_body]
fn bitmap_remove(b: &mut RoaringBitmap, value: u32) -> (r: bool)
    ensures
        bitmap_contents(*final(b)) == bitmap_contents(*old(b)).remove(value),
        r == bitmap_contents(*old(b)).contains(value),
{
    b.remove(value)
}

/// `RoaringBitmap::contains`: whether a number is there.
#[verifier::external_body]
fn bitmap_contains(b: &RoaringBitmap, value: u32) -> (r: bool)
    ensures
        r == bitmap_contents(*b).contains(value),
{
    b.contains(value)
}

/// `RoaringBitmap::is_empty`: whether no number is there.
#[verifier::external_body]
fn bitmap_is_empty(b: &RoaringBitmap) -> (r: bool)
    ensures
        r == (bitmap_contents(*b) == Set::<u32>::empty()),
{
    b.is_empty()
}

/// `RoaringBitmap::clear`: takes every number out.
#[verifier::external_body]
fn bitmap_clear(b: &mut RoaringBitmap)
    ensures
        bitmap_contents(*final(b)) == Set::<u32>::empty(),
{
    b.clear()
}

/// `RoaringBitmap::iter`: the numbers, each once, in ascending order.
#[verifier::external_body]
fn bitmap_numbers(b: &RoaringBitmap) -> (r: Vec<u32>)
    ensures
        forall|x: u32| r@.contains(x) <==> bitmap_contents(*b).contains(x),
        forall|i: int, j: int| 0 <= i < j < r@.len() ==> r@[i] < r@[j],
{
    b.iter().collect()
}

/// A set of page numbers.
#[derive(Debug)]
pub struct PageSet {
    bits: RoaringBitmap,
}

impl View for PageSet {
    type V = Set<u32>;

    closed spec fn view(&self) -> Set<u32> {
        bitmap_contents(self.bits)
    }
}

/// The members of a set, each once, in ascending order.
pub open spec fn is_listing(list: Seq<u32>, set: Set<u32>) -> bool {
    &&& forall|x: u32| list.contains(x) <==> set.contains(x)
    &&& forall|i: int, j: int| 0 <= i < j < list.len() ==> list[i] < list[j]
}

impl PageSet {
    /// The empty set.
    pub fn new() -> (r: PageSet)
        ensures
            r@ == Set::<u32>::empty(),
    {
        PageSet { bits: bitmap_new() }
    }

    /// Adds a page.
    pub fn insert(&mut self, page: u32) -> (r: bool)
        ensures
            final(self)@ == old(self)@.insert(page),
            r == !old(self)@.contains(page),
    {
        bitmap_insert(&mut self.bits, page)
    }

    /// Takes a page out.
    pub fn remove(&mut self, page: u32) -> (r: bool)
        ensures
            final(self)@ == old(self)@.remove(page),
            r == old(self)@.contains(page),
    {
        bitmap_remove(&mut self.bits, page)
    }

    /// Whether a page is in the set.
    pub fn contains(&self, page: u32) -> (r: bool)
        ensures
            r == self@.contains(page),
    {
        bitmap_contains(&self.bits, page)
    }

    /// Whether the set is empty.
    pub fn is_empty(&self) -> (r: bool)
        ensures
            r == (self@ == Set::<u32>::empty()),
    {
        bitmap_is_empty(&self.bits)
    }

    /// Takes every page out.
    pub fn clear(&mut self)
        ensures
            final(self)@ == Set::<u32>::empty(),
    {
        bitmap_clear(&mut self.bits)
    }

    /// The pages in ascending order.
    pub fn pages(&self) -> (r: Vec<u32>)
        ensures
            is_listing(r@, self@),
    {
        bitmap_numbers(&self.bits)
    }
}

} // verus!
