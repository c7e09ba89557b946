//! Pages that a checkpoint has gathered and will write to the database together.

use std::collections::BTreeMap;
use vstd::prelude::*;

verus! {

broadcast use vstd::std_specs::btree::group_btree_axioms;

/// Pages in a full batch.
pub const CKPT_BATCH_PAGES: usize = 512;

/// The pages of the set that start a run: those without a page right before them.
pub open spec fn run_starts(pages: Set<usize>) -> Set<usize> {
    pages.filter(|p: usize| p == 0 || !pages.contains((p - 1) as usize))
}

/// What a batch holds: the bytes of each of its pages.
pub type Pages = Map<usize, Seq<u8>>;

/// The pages of a map from page numbers to their bytes.
pub open spec fn pages_of(m: Map<usize, Vec<u8>>) -> Pages {
    Map::new(|p: usize| m.contains_key(p), |p: usize| m[p]@)
}

/// A batch of pages, in ascending order, so that runs of consecutive pages can be
/// written at once. It counts these runs.
#[derive(Debug)]
pub struct WriteBatch {
    items: BTreeMap<usize, Vec<u8>>,
    run_count: usize,
}

impl View for WriteBatch {
    type V = Pages;

    closed spec fn view(&self) -> Pages {
        pages_of(self.items@)
    }
}

/// How the runs change when a page is added.
proof fn lemma_insert_run(pages: Set<usize>, p: usize)
    requires
        pages.finite(),
        !pages.contains(p),
    ensures
        run_starts(pages).finite(),
        run_starts(pages.insert(p)).finite(),
        run_starts(pages).len() <= pages.len(),
        ({
            let left = p > 0 && pages.contains((p - 1) as usize);
            let right = p < usize::MAX && pages.contains((p + 1) as usize);
            &&& left && right ==> run_starts(pages.insert(p)).len() + 1 == run_starts(pages).len()
            &&& left != right ==> run_starts(pages.insert(p)).len() == run_starts(pages).len()
            &&& !left && !right ==> run_starts(pages.insert(p)).len() == run_starts(pages).len()
                + 1
        }),
{
    let left = p > 0 && pages.contains((p - 1) as usize);
    let right = p < usize::MAX && pages.contains((p + 1) as usize);
    let before = run_starts(pages);
    let after = run_starts(pages.insert(p));
    assert(before.subset_of(pages));
    vstd::set_lib::lemma_len_subset(before, pages);
    if right {
        let q = (p + 1) as usize;
        assert(before.contains(q));
        assert(before.remove(q).len() + 1 == before.len());
        if left {
            assert(after =~= before.remove(q));
        } else {
            assert(after =~= before.remove(q).insert(p));
            assert(!before.remove(q).contains(p));
        }
    } else {
        if left {
            assert(after =~= before);
        } else {
            assert(after =~= before.insert(p));
            assert(!before.contains(p));
        }
    }
}

impl WriteBatch {
    /// How many runs the batch counts.
    pub closed spec fn runs(&self) -> nat {
        self.run_count as nat
    }

    /// The batch's count of runs is right.
    pub open spec fn wf(&self) -> bool {
        &&& self@.dom().finite()
        &&& self.runs() == run_starts(self@.dom()).len()
    }

    /// An empty batch.
    pub fn new() -> (r: WriteBatch)
        ensures
            r@ == Pages::empty(),
            r.wf(),
    {
        let r = WriteBatch { items: BTreeMap::new(), run_count: 0 };
        assert(r@ =~= Pages::empty());
        assert(run_starts(r@.dom()) =~= Set::empty());
        r
    }

    /// Adds a page, or replaces its bytes if it is there.
    pub fn insert(&mut self, page_id: usize, buf: Vec<u8>)
        requires
            old(self).wf(),
        ensures
            final(self)@ == old(self)@.insert(page_id, buf@),
            final(self).wf(),
    {
        let ghost dom = self@.dom();
        assert(dom =~= self.items@.dom());
        if self.items.contains_key(&page_id) {
            self.items.insert(page_id, buf);
            assert(self@ =~= old(self)@.insert(page_id, buf@));
            assert(self@.dom() =~= dom);
            return ;
        }
        let has_left = page_id > 0 && self.items.contains_key(&(page_id - 1));
        let has_right = page_id < usize::MAX && self.items.contains_key(&(page_id + 1));
        self.items.insert(page_id, buf);
        let _n: usize = self.items.len();
        proof {
            lemma_insert_run(dom, page_id);
            assert(self.items@.dom() =~= dom.insert(page_id));
        }
        if !has_left && !has_right {
            self.run_count = self.run_count + 1;
        } else if has_left && has_right {
            self.run_count = self.run_count - 1;
        }
        assert(self@ =~= old(self)@.insert(page_id, buf@));
        assert(self@.dom() =~= dom.insert(page_id));
    }

    /// How many pages the batch holds.
    pub fn len(&self) -> (r: usize)
        ensures
            r == self@.dom().len(),
    {
        assert(self@.dom() =~= self.items@.dom());
        self.items.len()
    }

    /// Whether the batch holds no page.
    pub fn is_empty(&self) -> (r: bool)
        ensures
            r == (self@.dom().len() == 0),
    {
        assert(self@.dom() =~= self.items@.dom());
        self.items.is_empty()
    }

    /// Whether the batch should take no more pages.
    pub fn is_full(&self) -> (r: bool)
        ensures
            r == (self@.dom().len() >= CKPT_BATCH_PAGES),
    {
        self.len() >= CKPT_BATCH_PAGES
    }

    /// Whether the runs of a batch that is not empty are `min` pages long on average, or longer.
    pub fn avg_run_len_at_least(&self, min: usize) -> (r: bool)
        ensures
            r == (self.runs() > 0 && self@.dom().len() >= min * self.runs()),
    {
        if self.run_count == 0 {
            false
        } else {
            let runs: usize = self.run_count;
            assert(min * runs <= usize::MAX * usize::MAX) by (nonlinear_arith)
                requires
                    min <= usize::MAX,
                    runs <= usize::MAX,
            ;
            (self.len() as u128) >= (min as u128) * (runs as u128)
        }
    }

    /// Takes the pages out and leaves the batch empty.
    pub fn take(&mut self) -> (r: BTreeMap<usize, Vec<u8>>)
        ensures
            pages_of(r@) == old(self)@,
            final(self)@ == Pages::empty(),
            final(self).wf(),
    {
        let mut items: BTreeMap<usize, Vec<u8>> = BTreeMap::new();
        std::mem::swap(&mut self.items, &mut items);
        self.run_count = 0;
        assert(self@ =~= Pages::empty());
        assert(run_starts(self@.dom()) =~= Set::empty());
        items
    }

    /// Empties the batch.
    pub fn clear(&mut self)
        ensures
            final(self)@ == Pages::empty(),
            final(self).wf(),
    {
        self.items.clear();
        self.run_count = 0;
        assert(self@ =~= Pages::empty());
        assert(run_starts(self@.dom()) =~= Set::empty());
    }
}

} // verus!
