use crate::point::Point;
use vstd::prelude::*;

verus! {

/// The map that a sequence of (cell, content) pairs stands for: each pair
/// binds its cell, a later pair for the same cell winning.
pub open spec fn pairs_to_map<V>(s: Seq<(Point, V)>) -> Map<Point, V>
    decreases s.len(),
{
    if s.len() == 0 {
        Map::empty()
    } else {
        pairs_to_map(s.drop_last()).insert(s.last().0, s.last().1)
    }
}

/// True if no cell occurs twice in the sequence.
pub open spec fn distinct_cells<V>(s: Seq<(Point, V)>) -> bool {
    forall|i: int, j: int| 0 <= i < j < s.len() ==> (#[trigger] s[i]).0 != (#[trigger] s[j]).0
}

/// A cell is bound by the map exactly if some pair of the sequence names it.
pub proof fn lemma_pairs_domain<V>(s: Seq<(Point, V)>, p: Point)
    ensures
        pairs_to_map(s).contains_key(p) <==> exists|i: int| 0 <= i < s.len() && (#[trigger] s[i]).0 == p,
        pairs_to_map(s).dom().finite(),
    decreases s.len(),
{
    if s.len() > 0 {
        let t = s.drop_last();
        lemma_pairs_domain(t, p);
        if pairs_to_map(s).contains_key(p) {
            if s.last().0 == p {
                assert(s[s.len() - 1].0 == p);
            } else {
                let i = choose|i: int| 0 <= i < t.len() && (#[trigger] t[i]).0 == p;
                assert(s[i].0 == p);
            }
        }
        if exists|i: int| 0 <= i < s.len() && (#[trigger] s[i]).0 == p {
            let i = choose|i: int| 0 <= i < s.len() && (#[trigger] s[i]).0 == p;
            if i < t.len() {
                assert(t[i].0 == p);
            }
        }
    }
}

/// Where no cell occurs twice, each pair's cell is bound to that pair's
/// content.
pub proof fn lemma_pairs_value<V>(s: Seq<(Point, V)>, i: int)
    requires
        distinct_cells(s),
        0 <= i < s.len(),
    ensures
        pairs_to_map(s).contains_key(s[i].0),
        pairs_to_map(s)[s[i].0] == s[i].1,
    decreases s.len(),
{
    let t = s.drop_last();
    if i < s.len() - 1 {
        assert(distinct_cells(t)) by {
            assert forall|a: int, b: int| 0 <= a < b < t.len() implies (#[trigger] t[a]).0 != (
            #[trigger] t[b]).0 by {
                assert(s[a].0 != s[b].0);
            }
        }
        lemma_pairs_value(t, i);
        assert(t[i] == s[i]);
        assert(s[i].0 != s[s.len() - 1].0);
    }
}

/// Where no cell occurs twice, the map has as many cells as the sequence has
/// pairs.
pub proof fn lemma_pairs_len<V>(s: Seq<(Point, V)>)
    requires
        distinct_cells(s),
    ensures
        pairs_to_map(s).dom().finite(),
        pairs_to_map(s).dom().len() == s.len(),
    decreases s.len(),
{
    if s.len() > 0 {
        let t = s.drop_last();
        assert(distinct_cells(t)) by {
            assert forall|a: int, b: int| 0 <= a < b < t.len() implies (#[trigger] t[a]).0 != (
            #[trigger] t[b]).0 by {
                assert(s[a].0 != s[b].0);
            }
        }
        lemma_pairs_len(t);
        lemma_pairs_domain(t, s.last().0);
        if pairs_to_map(t).contains_key(s.last().0) {
            let i = choose|i: int| 0 <= i < t.len() && (#[trigger] t[i]).0 == s.last().0;
            assert(s[i].0 == s[s.len() - 1].0);
        }
    } else {
        assert(pairs_to_map(s).dom() =~= Set::empty());
    }
}

/// Taking one pair out of a sequence without repeated cells unbinds that
/// pair's cell and leaves the others as they were.
pub proof fn lemma_pairs_remove<V>(s: Seq<(Point, V)>, i: int)
    requires
        distinct_cells(s),
        0 <= i < s.len(),
    ensures
        distinct_cells(s.remove(i)),
        pairs_to_map(s.remove(i)) == pairs_to_map(s).remove(s[i].0),
{
    let r = s.remove(i);
    assert(distinct_cells(r)) by {
        assert forall|a: int, b: int| 0 <= a < b < r.len() implies (#[trigger] r[a]).0 != (
        #[trigger] r[b]).0 by {
            let a2 = if a < i { a } else { a + 1 };
            let b2 = if b < i { b } else { b + 1 };
            assert(s[a2].0 != s[b2].0);
        }
    }
    assert forall|p: Point| #[trigger] pairs_to_map(r).contains_key(p) == pairs_to_map(s).remove(s[i].0).contains_key(p) by {
        lemma_pairs_domain(r, p);
        lemma_pairs_domain(s, p);
        if pairs_to_map(r).contains_key(p) {
            let a = choose|a: int| 0 <= a < r.len() && (#[trigger] r[a]).0 == p;
            let a2 = if a < i { a } else { a + 1 };
            assert(s[a2].0 == p);
            assert(s[a2].0 != s[i].0) by {
                if a2 < i {
                    assert(s[a2].0 != s[i].0);
                } else {
                    assert(s[i].0 != s[a2].0);
                }
            }
        }
        if pairs_to_map(s).remove(s[i].0).contains_key(p) {
            let a = choose|a: int| 0 <= a < s.len() && (#[trigger] s[a]).0 == p;
            let a2 = if a < i { a } else { a - 1 };
            assert(r[a2].0 == p);
        }
    }
    assert forall|p: Point| #[trigger] pairs_to_map(r).contains_key(p) implies pairs_to_map(r)[p] == pairs_to_map(s).remove(s[i].0)[p] by {
        lemma_pairs_domain(r, p);
        let a = choose|a: int| 0 <= a < r.len() && (#[trigger] r[a]).0 == p;
        let a2 = if a < i { a } else { a + 1 };
        lemma_pairs_value(r, a);
        lemma_pairs_value(s, a2);
    }
    assert(pairs_to_map(r) =~= pairs_to_map(s).remove(s[i].0));
}

/// A finite map from grid cells to contents of type `V`, kept as a list of
/// pairs in which no cell occurs twice.
#[derive(Debug)]
pub struct PointMap<V> {
    entries: Vec<(Point, V)>,
}

impl<V: Copy> Clone for PointMap<V> {
    fn clone(&self) -> (r: Self)
        ensures
            r.pairs() == self.pairs(),
            r@ == self@,
            r.wf() == self.wf(),
    {
        let mut entries: Vec<(Point, V)> = Vec::new();
        let mut i: usize = 0;
        while i < self.entries.len()
            invariant
                i <= self.entries@.len(),
                entries@ == self.entries@.subrange(0, i as int),
            decreases self.entries@.len() - i,
        {
            entries.push(self.entries[i]);
            proof {
                assert(entries@ =~= self.entries@.subrange(0, i + 1));
            }
            i += 1;
        }
        proof {
            assert(entries@ =~= self.entries@);
        }
        PointMap { entries }
    }
}

impl<V: Copy> View for PointMap<V> {
    type V = Map<Point, V>;

    closed spec fn view(&self) -> Map<Point, V> {
        pairs_to_map(self.entries@)
    }
}

impl<V: Copy> PointMap<V> {
    /// The pairs in the order in which they are stored.
    pub closed spec fn pairs(&self) -> Seq<(Point, V)> {
        self.entries@
    }

    /// The invariant of the type: no cell is stored twice.
    pub closed spec fn wf(&self) -> bool {
        distinct_cells(self.entries@)
    }

    /// What the stored pairs and the map have to do with each other.
    pub proof fn lemma_pairs(&self)
        requires
            self.wf(),
        ensures
            self@ == pairs_to_map(self.pairs()),
            distinct_cells(self.pairs()),
            self@.dom().finite(),
            self@.dom().len() == self.pairs().len(),
            forall|i: int|
                0 <= i < self.pairs().len() ==> self@.contains_key((#[trigger] self.pairs()[i]).0)
                    && self@[self.pairs()[i].0] == self.pairs()[i].1,
            forall|p: Point| #[trigger]
                self@.contains_key(p) ==> exists|i: int|
                    0 <= i < self.pairs().len() && (#[trigger] self.pairs()[i]).0 == p,
    {
        lemma_pairs_len(self.entries@);
        assert forall|i: int| 0 <= i < self.pairs().len() implies self@.contains_key(
            (#[trigger] self.pairs()[i]).0,
        ) && self@[self.pairs()[i].0] == self.pairs()[i].1 by {
            lemma_pairs_value(self.entries@, i);
        }
        assert forall|p: Point| #[trigger] self@.contains_key(p) implies exists|i: int|
            0 <= i < self.pairs().len() && (#[trigger] self.pairs()[i]).0 == p by {
            lemma_pairs_domain(self.entries@, p);
            let i = choose|i: int| 0 <= i < self.entries@.len() && (#[trigger] self.entries@[i]).0 == p;
            assert(self.pairs()[i].0 == p);
        }
    }

    /// Makes the empty map.
    pub fn new() -> (m: Self)
        ensures
            m.wf(),
            m@ == Map::<Point, V>::empty(),
            m.pairs().len() == 0,
    {
        PointMap { entries: Vec::new() }
    }

    /// Returns the number of cells that are bound.
    pub fn len(&self) -> (n: usize)
        requires
            self.wf(),
        ensures
            n == self@.dom().len(),
            n == self.pairs().len(),
    {
        proof {
            lemma_pairs_len(self.entries@);
        }
        self.entries.len()
    }

    /// Returns true if no cell is bound.
    pub fn is_empty(&self) -> (r: bool)
        requires
            self.wf(),
        ensures
            r == (self@ == Map::<Point, V>::empty()),
            r == (self.pairs().len() == 0),
    {
        proof {
            lemma_pairs_len(self.entries@);
            if self.entries@.len() == 0 {
                assert(self@ =~= Map::<Point, V>::empty());
            }
        }
        self.entries.len() == 0
    }

    /// Returns the pair stored at position `i`.
    pub fn pair(&self, i: usize) -> (e: (Point, V))
        requires
            i < self.pairs().len(),
        ensures
            e == self.pairs()[i as int],
    {
        self.entries[i]
    }

    fn position(&self, p: Point) -> (r: Option<usize>)
        requires
            self.wf(),
        ensures
            match r {
                Some(i) => i < self.entries@.len() && self.entries@[i as int].0 == p
                    && self@.contains_key(p) && self@[p] == self.entries@[i as int].1,
                None => !self@.contains_key(p),
            },
    {
        let mut i: usize = 0;
        while i < self.entries.len()
            invariant
                self.wf(),
                i <= self.entries@.len(),
                forall|j: int| 0 <= j < i ==> (#[trigger] self.entries@[j]).0 != p,
            decreases self.entries@.len() - i,
        {
            if self.entries[i].0 == p {
                proof {
                    lemma_pairs_value(self.entries@, i as int);
                }
                return Some(i);
            }
            i += 1;
        }
        proof {
            lemma_pairs_domain(self.entries@, p);
        }
        None
    }

    /// Returns the content bound to the cell `p`, if any.
    pub fn get(&self, p: Point) -> (r: Option<V>)
        requires
            self.wf(),
        ensures
            r == (if self@.contains_key(p) {
                Some(self@[p])
            } else {
                None
            }),
    {
        match self.position(p) {
            Some(i) => Some(self.entries[i].1),
            None => None,
        }
    }

    /// Returns true if the cell `p` is bound.
    pub fn contains_key(&self, p: Point) -> (r: bool)
        requires
            self.wf(),
        ensures
            r == self@.contains_key(p),
    {
        self.position(p).is_some()
    }

    /// Binds the cell `p` to `v` and returns what it was bound to before.
    pub fn insert(&mut self, p: Point, v: V) -> (r: Option<V>)
        requires
            old(self).wf(),
        ensures
            final(self).wf(),
            final(self)@ == old(self)@.insert(p, v),
            r == (if old(self)@.contains_key(p) {
                Some(old(self)@[p])
            } else {
                None
            }),
    {
        let r = self.remove(p);
        let ghost mid = self.entries@;
        self.entries.push((p, v));
        proof {
            let s = self.entries@;
            assert(s.drop_last() =~= mid);
            assert(distinct_cells(s)) by {
                assert forall|a: int, b: int| 0 <= a < b < s.len() implies (#[trigger] s[a]).0 != (
                #[trigger] s[b]).0 by {
                    if b == s.len() - 1 {
                        lemma_pairs_domain(mid, p);
                        assert(mid[a].0 != p);
                    } else {
                        assert(mid[a].0 != mid[b].0);
                    }
                }
            }
            assert(old(self)@.remove(p).insert(p, v) =~= old(self)@.insert(p, v));
        }
        r
    }

    /// Unbinds the cell `p` and returns what it was bound to.
    pub fn remove(&mut self, p: Point) -> (r: Option<V>)
        requires
            old(self).wf(),
        ensures
            final(self).wf(),
            final(self)@ == old(self)@.remove(p),
            r == (if old(self)@.contains_key(p) {
                Some(old(self)@[p])
            } else {
                None
            }),
    {
        match self.position(p) {
            Some(i) => {
                proof {
                    lemma_pairs_remove(self.entries@, i as int);
                }
                let e = self.entries.remove(i);
                Some(e.1)
            },
            None => {
                proof {
                    assert(self@.remove(p) =~= self@);
                }
                None
            },
        }
    }

    /// Unbinds every cell.
    pub fn clear(&mut self)
        ensures
            final(self).wf(),
            final(self)@ == Map::<Point, V>::empty(),
            final(self).pairs().len() == 0,
    {
        self.entries.clear();
    }
}

} // verus!
