//! The index of the log: for each page, the frames that hold it, oldest first.

use vstd::prelude::*;
use rustc_hash::{FxBuildHasher, FxHashMap, FxHashSet};

verus! {

/// The hasher of the index's map.
#[verifier::external_type_specification]
#[verifier::external_body]
pub struct ExFxBuildHasher(FxBuildHasher);

/// `FxHashMap::default`: a map with nothing in it.
#[verifier::external_body]
fn map_new() -> (m: FxHashMap<u64, Vec<u64>>)
    ensures
        forall|k: u64| !m@.contains_key(k),
{
    FxHashMap::default()
}

/// `FxHashMap::get`: the value at a key, if there is one.
#[verifier::external_body]
fn map_get(m: &FxHashMap<u64, Vec<u64>>, key: u64) -> (r: Option<&Vec<u64>>)
    ensures
        match r {
            Some(v) => m@.contains_key(key) && m@[key] == *v,
            None => !m@.contains_key(key),
        },
{
    m.get(&key)
}

/// `FxHashMap::insert`: puts a value at a key, in place of what was there, and
/// gives that back.
#[verifier::external_body]
fn map_insert(m: &mut FxHashMap<u64, Vec<u64>>, key: u64, value: Vec<u64>) -> (r: Option<Vec<u64>>)
    ensures
        final(m)@ == old(m)@.insert(key, value),
        r == (if old(m)@.contains_key(key) {
            Some(old(m)@[key])
        } else {
            None
        }),
{
    m.insert(key, value)
}

/// `FxHashMap::remove`: takes a key out, and gives back the value that was there.
#[verifier::external_body]
fn map_remove(m: &mut FxHashMap<u64, Vec<u64>>, key: u64) -> (r: Option<Vec<u64>>)
    ensures
        final(m)@ == old(m)@.remove(key),
        r == (if old(m)@.contains_key(key) {
            Some(old(m)@[key])
        } else {
            None
        }),
{
    m.remove(&key)
}

/// `FxHashMap::keys`: each key once. In what order they come is left open.
#[verifier::external_body]
fn map_keys(m: &FxHashMap<u64, Vec<u64>>) -> (r: Vec<u64>)
    ensures
        r@.no_duplicates(),
        forall|k: u64| r@.contains(k) <==> m@.contains_key(k),
{
    m.keys().copied().collect()
}

/// `FxHashSet::default`: a set with nothing in it.
#[verifier::external_body]
fn set_new() -> (s: FxHashSet<u32>)
    ensures
        s@ == Set::<u32>::empty(),
{
    FxHashSet::default()
}

/// `FxHashSet::insert`: adds a value and says whether it was not there before.
#[verifier::external_body]
fn set_insert(s: &mut FxHashSet<u32>, value: u32) -> (r: bool)
    ensures
        final(s)@ == old(s)@.insert(value),
        r == !old(s)@.contains(value),
{
    s.insert(value)
}

/// Whether `a` comes before `b` or is `b`: by the first number, then by the second.
pub open spec fn pair_le(a: (u64, u64), b: (u64, u64)) -> bool {
    a.0 < b.0 || (a.0 == b.0 && a.1 <= b.1)
}

/// `slice::sort_unstable` on pairs: the same pairs, in ascending order.
#[verifier::external_body]
fn sort_pairs(v: &mut Vec<(u64, u64)>)
    ensures
        final(v)@.to_multiset() == old(v)@.to_multiset(),
        forall|i: int, j: int| 0 <= i <= j < final(v)@.len() ==> pair_le(final(v)@[i], final(v)@[j]),
{
    v.sort_unstable()
}

/// The frames of each page.
pub type Frames = Map<u64, Seq<u64>>;

/// The last frame of the list that is in `lo..=hi`.
pub open spec fn last_in_range(list: Seq<u64>, lo: u64, hi: u64) -> Option<u64>
    decreases list.len(),
{
    if list.len() == 0 {
        None
    } else if lo <= list.last() <= hi {
        Some(list.last())
    } else {
        last_in_range(list.drop_last(), lo, hi)
    }
}

/// The list without the frames above `max` at its end.
pub open spec fn trimmed(list: Seq<u64>, max: u64) -> Seq<u64>
    decreases list.len(),
{
    if list.len() > 0 && list.last() > max {
        trimmed(list.drop_last(), max)
    } else {
        list
    }
}

/// The index after `frame` was added at the end of the list of `page`.
pub open spec fn with_frame(frames: Frames, page: u64, frame: u64) -> Frames {
    frames.insert(
        page,
        if frames.contains_key(page) {
            frames[page].push(frame)
        } else {
            seq![frame]
        },
    )
}

/// The index after the frames above `max` were taken off.
pub open spec fn rolled_back(frames: Frames, max: u64) -> Frames {
    Map::new(
        |p: u64| frames.contains_key(p) && trimmed(frames[p], max).len() > 0,
        |p: u64| trimmed(frames[p], max),
    )
}

/// The last frame of `page` in `lo..=hi`.
pub open spec fn page_frame(frames: Frames, page: u64, lo: u64, hi: u64) -> Option<u64> {
    if frames.contains_key(page) {
        last_in_range(frames[page], lo, hi)
    } else {
        None
    }
}

/// Every page has at least one frame, and its frames ascend.
pub open spec fn ascending(frames: Frames) -> bool {
    forall|p: u64| #[trigger]
        frames.contains_key(p) ==> frames[p].len() > 0 && forall|i: int, j: int|
            0 <= i < j < frames[p].len() ==> frames[p][i] < frames[p][j]
}

/// Every frame in the index is `max` at most.
pub open spec fn frames_up_to(frames: Frames, max: u64) -> bool {
    forall|p: u64, i: int|
        #![trigger frames[p][i]]
        frames.contains_key(p) && 0 <= i < frames[p].len() ==> frames[p][i] <= max
}

/// The pages with a frame in `min..=max`, each with its last one, as pairs of
/// page and frame in the order of the frames.
pub open spec fn is_work_list(list: Seq<(u64, u64)>, frames: Frames, min: u64, max: u64) -> bool {
    &&& list.no_duplicates()
    &&& forall|i: int|
        #![trigger list[i]]
        0 <= i < list.len() ==> page_frame(frames, list[i].0, min, max) == Some(list[i].1)
    &&& forall|p: u64|
        #![trigger page_frame(frames, p, min, max)]
        page_frame(frames, p, min, max) matches Some(f) ==> list.contains((p, f))
    &&& forall|i: int, j: int|
        0 <= i < j < list.len() ==> pair_le((list[i].1, list[i].0), (list[j].1, list[j].0))
}

/// The index of the log.
#[derive(Debug)]
pub struct FrameIndex {
    map: FxHashMap<u64, Vec<u64>>,
}

impl View for FrameIndex {
    type V = Frames;

    closed spec fn view(&self) -> Frames {
        Map::new(|p: u64| self.map@.contains_key(p), |p: u64| self.map@[p]@)
    }
}

proof fn lemma_last_in_range(list: Seq<u64>, lo: u64, hi: u64)
    ensures
        match last_in_range(list, lo, hi) {
            Some(f) => lo <= f <= hi && list.contains(f),
            None => forall|i: int| 0 <= i < list.len() ==> !(lo <= #[trigger] list[i] <= hi),
        },
    decreases list.len(),
{
    if list.len() > 0 && !(lo <= list.last() <= hi) {
        let rest = list.drop_last();
        lemma_last_in_range(rest, lo, hi);
        match last_in_range(rest, lo, hi) {
            Some(f) => {
                let i = choose|i: int| 0 <= i < rest.len() && rest[i] == f;
                assert(list[i] == f);
            },
            None => {
                assert forall|i: int| 0 <= i < list.len() implies !(lo <= #[trigger] list[i] <= hi) by {
                    if i < rest.len() {
                        assert(rest[i] == list[i]);
                    }
                }
            },
        }
    }
}

impl FrameIndex {
    /// An index with no frames.
    pub fn new() -> (r: FrameIndex)
        ensures
            r@ == Frames::empty(),
    {
        let r = FrameIndex { map: map_new() };
        assert(r@ =~= Frames::empty());
        r
    }

    /// Forgets every frame.
    pub fn clear(&mut self)
        ensures
            final(self)@ == Frames::empty(),
    {
        self.map = map_new();
        assert(self@ =~= Frames::empty());
    }

    /// Adds a frame at the end of a page's list.
    pub fn append(&mut self, page_id: u64, frame_id: u64)
        ensures
            final(self)@ == with_frame(old(self)@, page_id, frame_id),
    {
        let mut list = match map_remove(&mut self.map, page_id) {
            Some(list) => list,
            None => Vec::new(),
        };
        list.push(frame_id);
        map_insert(&mut self.map, page_id, list);
        assert(self@ =~= with_frame(old(self)@, page_id, frame_id)) by {
            let page = old(self)@;
            if !page.contains_key(page_id) {
                assert(list@ =~= seq![frame_id]);
            }
        }
    }

    /// The last frame of a page in `lo..=hi`.
    pub fn find(&self, page_id: u64, lo: u64, hi: u64) -> (r: Option<u64>)
        ensures
            r == page_frame(self@, page_id, lo, hi),
    {
        let list = match map_get(&self.map, page_id) {
            Some(list) => list,
            None => {
                return None;
            },
        };
        last_frame_in(list, lo, hi)
    }

    /// Takes off the frames above `max`, and the pages that then have none.
    pub fn roll_back(&mut self, max: u64)
        ensures
            final(self)@ == rolled_back(old(self)@, max),
    {
        let keys = map_keys(&self.map);
        let ghost before = self.map@;
        assert forall|j: int| 0 <= j < keys@.len() implies before.contains_key(
            #[trigger] keys@[j],
        ) by {
            assert(keys@.contains(keys@[j]));
        }
        let mut i: usize = 0;
        while i < keys.len()
            invariant
                i <= keys@.len(),
                keys@.no_duplicates(),
                forall|k: u64| keys@.contains(k) <==> before.contains_key(k),
                forall|k: u64| #[trigger] self.map@.contains_key(k) ==> before.contains_key(k),
                forall|j: int|
                    #![trigger keys@[j]]
                    i <= j < keys@.len() ==> self.map@.contains_key(keys@[j])
                        && self.map@[keys@[j]] == before[keys@[j]],
                forall|j: int|
                    #![trigger keys@[j]]
                    0 <= j < i ==> {
                        let t = trimmed(before[keys@[j]]@, max);
                        &&& self.map@.contains_key(keys@[j]) <==> t.len() > 0
                        &&& t.len() > 0 ==> self.map@[keys@[j]]@ == t
                    },
            decreases keys@.len() - i,
        {
            let key: u64 = keys[i];
            let mut list = map_remove(&mut self.map, key).unwrap();
            trim(&mut list, max);
            if list.len() > 0 {
                map_insert(&mut self.map, key, list);
            }
            i = i + 1;
        }
        proof {
            let want = rolled_back(old(self)@, max);
            assert forall|p: u64| self@.contains_key(p) == #[trigger] want.contains_key(p) && (
            self@.contains_key(p) ==> self@[p] == want[p]) by {
                if before.contains_key(p) {
                    let j = choose|j: int| 0 <= j < keys@.len() && keys@[j] == p;
                    assert(keys@[j] == p);
                    assert(old(self)@[p] == before[p]@);
                }
            }
            assert(self@ =~= want);
        }
    }

    /// Lists the pages with a frame in `min..=max`, each with its last one, in
    /// the order of the frames.
    pub fn work_list(&self, min: u64, max: u64) -> (r: Vec<(u64, u64)>)
        ensures
            is_work_list(r@, self@, min, max),
    {
        let keys = map_keys(&self.map);
        let mut pairs: Vec<(u64, u64)> = Vec::new();
        let mut i: usize = 0;
        while i < keys.len()
            invariant
                i <= keys@.len(),
                keys@.no_duplicates(),
                forall|k: u64| keys@.contains(k) <==> self.map@.contains_key(k),
                pairs@.no_duplicates(),
                forall|k: int|
                    #![trigger pairs@[k]]
                    0 <= k < pairs@.len() ==> page_frame(self@, pairs@[k].1, min, max) == Some(
                        pairs@[k].0,
                    ) && exists|j: int| 0 <= j < i && #[trigger] keys@[j] == pairs@[k].1,
                forall|j: int|
                    #![trigger keys@[j]]
                    0 <= j < i ==> (page_frame(self@, keys@[j], min, max) matches Some(f)
                        ==> pairs@.contains((f, keys@[j]))),
            decreases keys@.len() - i,
        {
            let key: u64 = keys[i];
            let ghost before = pairs@;
            assert(keys@.contains(key));
            if let Some(frame) = self.find(key, min, max) {
                pairs.push((frame, key));
                proof {
                    assert forall|j: int| 0 <= j < i + 1 implies (page_frame(
                        self@,
                        #[trigger] keys@[j],
                        min,
                        max,
                    ) matches Some(f) ==> pairs@.contains((f, keys@[j]))) by {
                        if j < i {
                            if let Some(f) = page_frame(self@, keys@[j], min, max) {
                                let k = choose|k: int|
                                    0 <= k < before.len() && before[k] == (f, keys@[j]);
                                assert(pairs@[k] == (f, keys@[j]));
                            }
                        } else {
                            assert(pairs@[before.len() as int] == (frame, key));
                        }
                    }
                    assert forall|a: int, b: int|
                        0 <= a < pairs@.len() && 0 <= b < pairs@.len() && a != b implies pairs@[a]
                        != pairs@[b] by {
                        if a == before.len() {
                            assert(before[b] == pairs@[b]);
                        } else if b == before.len() {
                            assert(before[a] == pairs@[a]);
                        } else {
                            assert(before[a] == pairs@[a] && before[b] == pairs@[b]);
                        }
                    }
                    assert forall|k: int| 0 <= k < pairs@.len() implies page_frame(
                        self@,
                        #[trigger] pairs@[k].1,
                        min,
                        max,
                    ) == Some(pairs@[k].0) && exists|j: int|
                        0 <= j < i + 1 && #[trigger] keys@[j] == pairs@[k].1 by {
                        if k < before.len() {
                            assert(before[k] == pairs@[k]);
                            let j = choose|j: int| 0 <= j < i && #[trigger] keys@[j] == before[k].1;
                            assert(keys@[j] == pairs@[k].1);
                        } else {
                            assert(keys@[i as int] == pairs@[k].1);
                        }
                    }
                }
            }
            i = i + 1;
        }
        let ghost unsorted = pairs@;
        sort_pairs(&mut pairs);
        proof {
            lemma_same_pairs(unsorted, pairs@);
        }
        let mut list: Vec<(u64, u64)> = Vec::new();
        let mut i: usize = 0;
        while i < pairs.len()
            invariant
                i <= pairs@.len(),
                list@.len() == i,
                forall|k: int|
                    #![trigger list@[k]]
                    0 <= k < i ==> list@[k] == (pairs@[k].1, pairs@[k].0),
            decreases pairs@.len() - i,
        {
            let pair = pairs[i];
            list.push((pair.1, pair.0));
            i = i + 1;
        }
        proof {
            assert forall|a: int, b: int|
                0 <= a < list@.len() && 0 <= b < list@.len() && a != b implies list@[a]
                != list@[b] by {
                assert(pairs@[a] != pairs@[b]);
            }
            assert forall|k: int| 0 <= k < list@.len() implies page_frame(
                self@,
                #[trigger] list@[k].0,
                min,
                max,
            ) == Some(list@[k].1) by {
                assert(pairs@.contains(pairs@[k]));
                let u = choose|u: int| 0 <= u < unsorted.len() && unsorted[u] == pairs@[k];
                assert(unsorted[u] == pairs@[k]);
            }
            assert forall|p: u64| (#[trigger] page_frame(self@, p, min, max)) is Some implies list@.contains(
                (p, page_frame(self@, p, min, max)->0),
            ) by {
                let f = page_frame(self@, p, min, max)->0;
                assert(self.map@.contains_key(p));
                assert(keys@.contains(p));
                let j = choose|j: int| 0 <= j < keys@.len() && keys@[j] == p;
                assert(keys@[j] == p);
                assert(unsorted.contains((f, p)));
                assert(pairs@.contains((f, p)));
                let k = choose|k: int| 0 <= k < pairs@.len() && pairs@[k] == (f, p);
                assert(list@[k] == (p, f));
            }
        }
        list
    }
}

/// Two sequences with the same elements as often hold the same elements, and
/// if one has no duplicates, nor has the other.
proof fn lemma_same_pairs(a: Seq<(u64, u64)>, b: Seq<(u64, u64)>)
    requires
        a.to_multiset() == b.to_multiset(),
        a.no_duplicates(),
    ensures
        b.no_duplicates(),
        forall|x: (u64, u64)| a.contains(x) <==> b.contains(x),
{
    broadcast use vstd::seq_lib::group_to_multiset_ensures;

    a.lemma_multiset_has_no_duplicates();
    assert forall|x: (u64, u64)| a.contains(x) <==> b.contains(x) by {
        assert(a.contains(x) <==> a.to_multiset().count(x) > 0);
        assert(b.contains(x) <==> b.to_multiset().count(x) > 0);
    }
    b.lemma_multiset_has_no_duplicates_conv();
}

/// The last frame of the list that is in `lo..=hi`.
fn last_frame_in(list: &Vec<u64>, lo: u64, hi: u64) -> (r: Option<u64>)
    ensures
        r == last_in_range(list@, lo, hi),
{
    let mut i: usize = list.len();
    assert(list@.take(i as int) =~= list@);
    while i > 0
        invariant
            i <= list@.len(),
            last_in_range(list@, lo, hi) == last_in_range(list@.take(i as int), lo, hi),
        decreases i,
    {
        assert(list@.take(i as int).drop_last() =~= list@.take(i - 1));
        let f: u64 = list[i - 1];
        if lo <= f && f <= hi {
            return Some(f);
        }
        i = i - 1;
    }
    None
}

/// Takes the frames above `max` off the end of the list.
fn trim(list: &mut Vec<u64>, max: u64)
    ensures
        final(list)@ == trimmed(old(list)@, max),
{
    while list.len() > 0 && list[list.len() - 1] > max
        invariant
            trimmed(list@, max) == trimmed(old(list)@, max),
        decreases list@.len(),
    {
        assert(list@.last() > max);
        list.pop();
    }
}

/// The distinct values, each where it comes first.
pub open spec fn first_occurrences(s: Seq<u32>) -> Seq<u32>
    decreases s.len(),
{
    if s.len() == 0 {
        Seq::empty()
    } else if s.drop_last().contains(s.last()) {
        first_occurrences(s.drop_last())
    } else {
        first_occurrences(s.drop_last()).push(s.last())
    }
}

/// The distinct page numbers, each where it comes first.
pub fn distinct_pages(pages: &Vec<u32>) -> (r: Vec<u32>)
    ensures
        r@ == first_occurrences(pages@),
{
    let mut seen = set_new();
    let mut r: Vec<u32> = Vec::new();
    let mut i: usize = 0;
    assert(pages@.take(0) =~= Seq::empty());
    while i < pages.len()
        invariant
            i <= pages@.len(),
            r@ == first_occurrences(pages@.take(i as int)),
            forall|x: u32| seen@.contains(x) <==> pages@.take(i as int).contains(x),
        decreases pages@.len() - i,
    {
        let page: u32 = pages[i];
        let ghost taken = pages@.take(i as int);
        let ghost next = pages@.take(i + 1);
        proof {
            assert(next.drop_last() =~= taken);
            assert(next.last() == page);
            assert forall|x: u32| next.contains(x) <==> (taken.contains(x) || x == page) by {
                if taken.contains(x) {
                    let k = choose|k: int| 0 <= k < taken.len() && taken[k] == x;
                    assert(next[k] == x);
                }
                if x == page {
                    assert(next[i as int] == x);
                }
                if next.contains(x) {
                    let k = choose|k: int| 0 <= k < next.len() && next[k] == x;
                    if k < i {
                        assert(taken[k] == x);
                    }
                }
            }
        }
        if set_insert(&mut seen, page) {
            r.push(page);
        }
        i = i + 1;
    }
    assert(pages@.take(pages@.len() as int) =~= pages@);
    r
}

/// In an index whose lists ascend, the frame that is found for a page is the
/// latest of its frames in the range.
pub proof fn law_find_gives_the_latest(frames: Frames, page: u64, lo: u64, hi: u64)
    requires
        ascending(frames),
    ensures
        match page_frame(frames, page, lo, hi) {
            Some(f) => {
                &&& frames[page].contains(f)
                &&& lo <= f <= hi
                &&& forall|g: u64| frames[page].contains(g) && lo <= g <= hi ==> g <= f
            },
            None => frames.contains_key(page) ==> forall|g: u64|
                frames[page].contains(g) ==> !(lo <= g <= hi),
        },
{
    if frames.contains_key(page) {
        lemma_last_in_range(frames[page], lo, hi);
        lemma_latest(frames[page], lo, hi);
    }
}

proof fn lemma_latest(list: Seq<u64>, lo: u64, hi: u64)
    requires
        forall|i: int, j: int| 0 <= i < j < list.len() ==> list[i] < list[j],
    ensures
        last_in_range(list, lo, hi) matches Some(f) ==> forall|g: u64|
            list.contains(g) && lo <= g <= hi ==> g <= f,
    decreases list.len(),
{
    if list.len() > 0 && !(lo <= list.last() <= hi) {
        let rest = list.drop_last();
        lemma_latest(rest, lo, hi);
        if let Some(f) = last_in_range(rest, lo, hi) {
            assert forall|g: u64| list.contains(g) && lo <= g <= hi implies g <= f by {
                let k = choose|k: int| 0 <= k < list.len() && list[k] == g;
                assert(k < rest.len());
                assert(rest[k] == g);
                assert(rest.contains(g));
            }
        }
    }
}

proof fn lemma_trimmed(list: Seq<u64>, max: u64)
    requires
        forall|i: int, j: int| 0 <= i < j < list.len() ==> list[i] < list[j],
    ensures
        trimmed(list, max).is_prefix_of(list),
        forall|i: int| 0 <= i < trimmed(list, max).len() ==> #[trigger] trimmed(list, max)[i] <= max,
        forall|i: int|
            trimmed(list, max).len() <= i < list.len() ==> #[trigger] list[i] > max,
    decreases list.len(),
{
    if list.len() > 0 && list.last() > max {
        let rest = list.drop_last();
        lemma_trimmed(rest, max);
        assert forall|i: int| trimmed(list, max).len() <= i < list.len() implies #[trigger] list[i]
            > max by {
            if i < rest.len() {
                assert(rest[i] == list[i]);
            }
        }
    }
}

/// Adding a frame above all others keeps the lists ascending, and the page is
/// then found in that frame.
pub proof fn law_appended_frame_is_found(frames: Frames, page: u64, frame: u64, max: u64, lo: u64)
    requires
        ascending(frames),
        frames_up_to(frames, max),
        max < frame,
        lo <= frame,
    ensures
        ascending(with_frame(frames, page, frame)),
        frames_up_to(with_frame(frames, page, frame), frame),
        page_frame(with_frame(frames, page, frame), page, lo, frame) == Some(frame),
        forall|p: u64, h: u64|
            p != page || h < frame ==> page_frame(with_frame(frames, page, frame), p, lo, h)
                == page_frame(frames, p, lo, h),
{
    let after = with_frame(frames, page, frame);
    assert forall|p: u64| #[trigger] after.contains_key(p) implies after[p].len() > 0 && forall|
        i: int,
        j: int,
    |
        0 <= i < j < after[p].len() ==> after[p][i] < after[p][j] by {
        if p == page && frames.contains_key(page) {
            assert forall|i: int, j: int| 0 <= i < j < after[p].len() implies after[p][i]
                < after[p][j] by {
                if j == frames[p].len() {
                    assert(frames[p][i] <= max);
                }
            }
        } else if p != page {
            assert(frames.contains_key(p));
        }
    }
    assert forall|p: u64, i: int|
        #![trigger after[p][i]]
        after.contains_key(p) && 0 <= i < after[p].len() implies after[p][i] <= frame by {
        if frames.contains_key(p) && i < frames[p].len() {
            assert(frames[p][i] <= max);
        }
    }
    assert forall|p: u64, h: u64| p != page || h < frame implies page_frame(after, p, lo, h)
        == page_frame(frames, p, lo, h) by {
        if p == page {
            if frames.contains_key(page) {
                assert(after[page].drop_last() =~= frames[page]);
            } else {
                assert(after[page].drop_last() =~= Seq::empty());
                assert(last_in_range(after[page].drop_last(), lo, h) is None);
            }
        }
    }
}

/// Rolling back to where the log ends changes nothing.
pub proof fn lemma_nothing_to_roll_back(frames: Frames, max: u64)
    requires
        ascending(frames),
        frames_up_to(frames, max),
    ensures
        rolled_back(frames, max) == frames,
{
    assert forall|p: u64| frames.contains_key(p) implies #[trigger] trimmed(frames[p], max)
        == frames[p] by {
        assert(frames[p][frames[p].len() - 1] <= max);
    }
    assert(rolled_back(frames, max) =~= frames);
}

/// Rolling back to `max` undoes the frames that were added above it.
pub proof fn law_rollback_undoes_append(frames: Frames, page: u64, frame: u64, max: u64)
    requires
        ascending(frames),
        frames_up_to(frames, max),
        max < frame,
    ensures
        rolled_back(with_frame(frames, page, frame), max) == frames,
        rolled_back(frames, max) == frames,
{
    let after = with_frame(frames, page, frame);
    lemma_nothing_to_roll_back(frames, max);
    assert forall|p: u64| frames.contains_key(p) implies #[trigger] trimmed(frames[p], max)
        == frames[p] by {
        assert(frames[p][frames[p].len() - 1] <= max);
    }
    if frames.contains_key(page) {
        assert(after[page].drop_last() =~= frames[page]);
    } else {
        assert(after[page].drop_last() =~= Seq::empty());
        assert(trimmed(after[page].drop_last(), max).len() == 0);
    }
    assert(rolled_back(after, max) =~= frames);
}

/// After a rollback to `max` no frame above it is left, and every frame up to
/// it is still there.
pub proof fn law_rollback_keeps_older_frames(frames: Frames, max: u64, page: u64, lo: u64, hi: u64)
    requires
        ascending(frames),
        hi <= max,
    ensures
        ascending(rolled_back(frames, max)),
        frames_up_to(rolled_back(frames, max), max),
        page_frame(rolled_back(frames, max), page, lo, hi) == page_frame(frames, page, lo, hi),
{
    let after = rolled_back(frames, max);
    assert forall|p: u64| #[trigger] after.contains_key(p) implies after[p].len() > 0 && forall|
        i: int,
        j: int,
    |
        0 <= i < j < after[p].len() ==> after[p][i] < after[p][j] by {
        assert(frames.contains_key(p));
        lemma_trimmed(frames[p], max);
    }
    assert forall|p: u64, i: int|
        #![trigger after[p][i]]
        after.contains_key(p) && 0 <= i < after[p].len() implies after[p][i] <= max by {
        assert(frames.contains_key(p));
        lemma_trimmed(frames[p], max);
    }
    if frames.contains_key(page) {
        lemma_find_in_trimmed(frames[page], max, lo, hi);
        if trimmed(frames[page], max).len() == 0 {
            assert(last_in_range(trimmed(frames[page], max), lo, hi) is None);
        }
    }
}

proof fn lemma_find_in_trimmed(list: Seq<u64>, max: u64, lo: u64, hi: u64)
    requires
        hi <= max,
    ensures
        last_in_range(trimmed(list, max), lo, hi) == last_in_range(list, lo, hi),
    decreases list.len(),
{
    if list.len() > 0 && list.last() > max {
        lemma_find_in_trimmed(list.drop_last(), max, lo, hi);
    }
}

} // verus!
