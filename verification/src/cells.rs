//! The wave store: per-cell weights, entropy keys and observations.

use vstd::prelude::*;
use crate::graph::Edge;
use crate::space::Point;

verus! {

/// The read view of one cell: where it is and, once collapsed, the name of
/// the state it collapsed to.
pub struct Cell {
    pub point: Point,
    pub observation: Option<&'static str>,
}

impl Cell {
    pub fn new(point: Point, observation: Option<&'static str>) -> (c: Cell)
        ensures
            c.point == point,
            c.observation == observation,
    {
        Cell { point, observation }
    }
}

/// The mutable per-cell state of a run, kept in parallel columns indexed by
/// cell id: position, adjacency edges, the weight vector, the entropy key
/// used for selection, and the observation (a state id once collapsed).
pub struct Cells {
    pub count: usize,
    pub points: Vec<Point>,
    pub edges: Vec<Vec<Edge>>,
    pub weights: Vec<Vec<i64>>,
    pub entropies: Vec<i64>,
    pub observations: Vec<Option<usize>>,
}

impl Cells {
    /// An empty store with room reserved for the whole lattice.
    pub fn with_capacity(capacity: usize) -> (c: Cells)
        ensures
            c.count == 0,
            c.points@.len() == 0,
            c.edges@.len() == 0,
            c.weights@.len() == 0,
            c.entropies@.len() == 0,
            c.observations@.len() == 0,
    {
        Cells {
            count: 0,
            points: Vec::with_capacity(capacity),
            edges: Vec::with_capacity(capacity),
            weights: Vec::with_capacity(capacity),
            entropies: Vec::with_capacity(capacity),
            observations: Vec::with_capacity(capacity),
        }
    }

    /// Appends one cell; construction is append-only.
    pub fn add(
        &mut self,
        point: Point,
        edges: Vec<Edge>,
        weights: Vec<i64>,
        entropy: i64,
        observation: Option<usize>,
    )
        requires
            old(self).count < usize::MAX,
            old(self).points@.len() == old(self).count,
            old(self).edges@.len() == old(self).count,
            old(self).weights@.len() == old(self).count,
            old(self).entropies@.len() == old(self).count,
            old(self).observations@.len() == old(self).count,
        ensures
            final(self).count == old(self).count + 1,
            final(self).points@ == old(self).points@.push(point),
            final(self).edges@ == old(self).edges@.push(edges),
            final(self).weights@ == old(self).weights@.push(weights),
            final(self).entropies@ == old(self).entropies@.push(entropy),
            final(self).observations@ == old(self).observations@.push(observation),
    {
        self.count = self.count + 1;
        self.points.push(point);
        self.edges.push(edges);
        self.weights.push(weights);
        self.entropies.push(entropy);
        self.observations.push(observation);
    }

    /// The stored data of one cell: its point and, once collapsed, the id
    /// of its observed state.  Resolving the id to a name is the
    /// generator's job, since the generator holds the name table.
    pub fn get(&self, id: usize) -> (r: (Point, Option<usize>))
        requires
            id < self.points@.len(),
            id < self.observations@.len(),
        ensures
            r.0 == self.points@[id as int],
            r.1 == self.observations@[id as int],
    {
        (self.points[id], self.observations[id])
    }
}

/// How many cells are still uncollapsed: the measure that shrinks with
/// every observation.
pub open spec fn count_none(s: Seq<Option<usize>>) -> int
    decreases s.len(),
{
    if s.len() == 0 {
        0
    } else {
        count_none(s.drop_last()) + (if s.last() is None {
            1int
        } else {
            0int
        })
    }
}

pub proof fn lemma_count_none_nonneg(s: Seq<Option<usize>>)
    ensures
        count_none(s) >= 0,
    decreases s.len(),
{
    if s.len() > 0 {
        lemma_count_none_nonneg(s.drop_last());
    }
}

/// Replacing a `None` entry by `Some` lowers the uncollapsed count by one.
pub proof fn lemma_count_none_set_some(s: Seq<Option<usize>>, i: int, v: usize)
    requires
        0 <= i < s.len(),
        s[i] is None,
    ensures
        count_none(s.update(i, Some(v))) == count_none(s) - 1,
    decreases s.len(),
{
    let t = s.update(i, Some(v));
    if i == s.len() - 1 {
        assert(t.drop_last() =~= s.drop_last());
    } else {
        assert(t.drop_last() =~= s.drop_last().update(i, Some(v)));
        lemma_count_none_set_some(s.drop_last(), i, v);
        assert(t.last() == s.last());
    }
}

/// A vector that keeps every `Some` of another has no more `None` entries.
pub proof fn lemma_count_none_monotone(s1: Seq<Option<usize>>, s2: Seq<Option<usize>>)
    requires
        s1.len() == s2.len(),
        forall|i: int| 0 <= i < s1.len() && s1[i] is Some ==> s2[i] == s1[i],
    ensures
        count_none(s2) <= count_none(s1),
    decreases s1.len(),
{
    if s1.len() > 0 {
        assert(forall|i: int|
            0 <= i < s1.drop_last().len() && s1.drop_last()[i] is Some ==> s2.drop_last()[i]
                == s1.drop_last()[i]);
        lemma_count_none_monotone(s1.drop_last(), s2.drop_last());
    }
}

/// How many cells a visited set has not reached yet: the measure that
/// shrinks as a propagation pass touches cells.
pub open spec fn count_false(s: Seq<bool>) -> int
    decreases s.len(),
{
    if s.len() == 0 {
        0
    } else {
        count_false(s.drop_last()) + (if s.last() {
            0int
        } else {
            1int
        })
    }
}

pub proof fn lemma_count_false_nonneg(s: Seq<bool>)
    ensures
        count_false(s) >= 0,
    decreases s.len(),
{
    if s.len() > 0 {
        lemma_count_false_nonneg(s.drop_last());
    }
}

/// Marking an unvisited cell visited lowers the unvisited count by one.
pub proof fn lemma_count_false_set_true(s: Seq<bool>, i: int)
    requires
        0 <= i < s.len(),
        !s[i],
    ensures
        count_false(s.update(i, true)) == count_false(s) - 1,
    decreases s.len(),
{
    let t = s.update(i, true);
    if i == s.len() - 1 {
        assert(t.drop_last() =~= s.drop_last());
    } else {
        assert(t.drop_last() =~= s.drop_last().update(i, true));
        lemma_count_false_set_true(s.drop_last(), i);
        assert(t.last() == s.last());
    }
}

/// An all-false vector of visit marks.
pub fn unvisited(n: usize) -> (r: Vec<bool>)
    ensures
        r@.len() == n,
        forall|i: int| 0 <= i < n ==> !(#[trigger] r@[i]),
{
    let mut r: Vec<bool> = Vec::new();
    let mut i: usize = 0;
    while i < n
        invariant
            0 <= i <= n,
            r@.len() == i,
            forall|j: int| 0 <= j < i ==> !(#[trigger] r@[j]),
        decreases n - i,
    {
        r.push(false);
        i = i + 1;
    }
    r
}

} // verus!
