//! Edges of the boundary, as the sweep orders them.
use core::cmp::Ordering;
use vstd::prelude::*;
use crate::coord::{is_infinite, negated, Coord, INFINITY, NEG_INFINITY};
use crate::geom::{Point2, Vertex3};

verus! {

/// Where a point lies to an edge. `Above` is the side of smaller `y`.
#[derive(Clone, Copy, Debug, PartialEq, Eq, Structural)]
pub enum PtLoc {
    Above,
    On,
    Below,
}

/// A boundary segment without direction, as the sweep reads it.
///
/// [`Edge::new`] puts the end first that comes first by `x` and then by `y`;
/// [`Edge::reversed`] runs the other way. The slope is the rise in `y` over
/// the run in `x`, an infinity where the edge runs along `y`.
#[derive(Clone, Copy, Debug, PartialEq, Eq, Structural)]
pub struct Edge {
    pub a: Point2,
    pub b: Point2,
    pub slope: Coord,
}

/// The slope of the edge from `a` to `b`, where `ratio` is the quotient of
/// the difference in `y` by the difference in `x`: an infinity with the sign
/// of the difference in `y` where the ends agree in `x`, zero where they
/// agree in both, and `ratio` anywhere else.
pub open spec fn slope_spec(a: Point2, b: Point2, ratio: Coord) -> Coord {
    if a.x == b.x {
        if b.y > a.y {
            INFINITY
        } else if b.y < a.y {
            NEG_INFINITY
        } else {
            0
        }
    } else {
        ratio
    }
}

impl Edge {
    /// The edge between the points under two vertices (see [`Edge::new`]).
    pub open spec fn new_spec(a: Vertex3, b: Vertex3, ratio: Coord) -> Edge {
        let p = a.project();
        let q = b.project();
        if p.lex_le(q) {
            Edge { a: p, b: q, slope: slope_spec(p, q, ratio) }
        } else {
            Edge { a: q, b: p, slope: slope_spec(q, p, ratio) }
        }
    }

    /// The same edge run from its end to its start.
    pub open spec fn reversed_spec(self) -> Edge {
        Edge { a: self.b, b: self.a, slope: negated(self.slope) }
    }

    /// Whether the edge runs along `y`.
    pub open spec fn is_upright(self) -> bool {
        is_infinite(self.slope)
    }

    /// Where `pt` lies to the edge, where `y_at` is the `y` at which the line
    /// through the edge passes the `x` of `pt`. For an edge along `y` the
    /// point is beside it, and `On`, between the `y` of its two ends.
    pub open spec fn locate_spec(self, pt: Point2, y_at: Coord) -> PtLoc {
        if !self.is_upright() {
            if pt.y > y_at {
                PtLoc::Below
            } else if pt.y < y_at {
                PtLoc::Above
            } else {
                PtLoc::On
            }
        } else if pt.y < self.a.y {
            PtLoc::Above
        } else if pt.y > self.b.y {
            PtLoc::Below
        } else {
            PtLoc::On
        }
    }

    /// Whether this edge comes before the other one in the order of the
    /// sweep: by its first end, `x` before `y`, and among edges with the same
    /// first end by ascending slope.
    pub open spec fn precedes_spec(self, other: Edge) -> bool {
        self.a.x < other.a.x || (self.a.x == other.a.x && (self.a.y < other.a.y || (self.a.y
            == other.a.y && self.slope < other.slope)))
    }

    /// The edge between the points under two vertices. `ratio` is the
    /// quotient of their difference in `y` by their difference in `x`, which
    /// is the same in both directions; it is not read where the two agree in
    /// `x`.
    pub fn new(a: &Vertex3, b: &Vertex3, ratio: Coord) -> (e: Edge)
        ensures
            e == Edge::new_spec(*a, *b, ratio),
            e.a.lex_le(e.b),
    {
        let p = a.project();
        let q = b.project();
        if p.lex_le(q) {
            Edge { a: p, b: q, slope: Edge::slope(p, q, ratio) }
        } else {
            Edge { a: q, b: p, slope: Edge::slope(q, p, ratio) }
        }
    }

    /// The slope of the edge from `a` to `b` (see [`slope_spec`]).
    pub fn slope(a: Point2, b: Point2, ratio: Coord) -> (s: Coord)
        ensures
            s == slope_spec(a, b, ratio),
    {
        if a.x == b.x {
            if b.y > a.y {
                INFINITY
            } else if b.y < a.y {
                NEG_INFINITY
            } else {
                0
            }
        } else {
            ratio
        }
    }

    /// The same edge run from its end to its start.
    pub fn reversed(&self) -> (e: Edge)
        ensures
            e == self.reversed_spec(),
    {
        Edge { a: self.b, b: self.a, slope: negated(self.slope) }
    }

    /// Where `pt` lies to the edge (see [`Edge::locate_spec`]).
    pub fn locate_pt(&self, pt: &Point2, y_at: Coord) -> (loc: PtLoc)
        ensures
            loc == self.locate_spec(*pt, y_at),
    {
        if !is_infinite(self.slope) {
            if pt.y > y_at {
                PtLoc::Below
            } else if pt.y < y_at {
                PtLoc::Above
            } else {
                PtLoc::On
            }
        } else if pt.y < self.a.y {
            PtLoc::Above
        } else if pt.y > self.b.y {
            PtLoc::Below
        } else {
            PtLoc::On
        }
    }

    /// Whether this edge comes before the other one in the order of the sweep.
    pub fn precedes(&self, other: &Edge) -> (r: bool)
        ensures
            r == self.precedes_spec(*other),
    {
        self.a.x < other.a.x || (self.a.x == other.a.x && (self.a.y < other.a.y || (self.a.y
            == other.a.y && self.slope < other.slope)))
    }
}

impl PartialOrd for Edge {
    /// Compares two edges in the order of the sweep. Edges with the same
    /// first end and slope compare as equal, also where they end apart.
    fn partial_cmp(&self, other: &Edge) -> (r: Option<Ordering>) {
        if self.precedes(other) {
            Some(Ordering::Less)
        } else if other.precedes(self) {
            Some(Ordering::Greater)
        } else {
            Some(Ordering::Equal)
        }
    }
}

impl vstd::std_specs::cmp::PartialOrdSpecImpl for Edge {
    open spec fn obeys_partial_cmp_spec() -> bool {
        true
    }

    open spec fn partial_cmp_spec(&self, other: &Edge) -> Option<Ordering> {
        if self.precedes_spec(*other) {
            Some(Ordering::Less)
        } else if other.precedes_spec(*self) {
            Some(Ordering::Greater)
        } else {
            Some(Ordering::Equal)
        }
    }
}

/// The edge between the points under two vertices (see [`Edge::new`]),
/// unless the two points coincide or are `near` enough to count as one.
pub fn build_edge(a: &Vertex3, b: &Vertex3, ratio: Coord, near: bool) -> (r: Option<Edge>)
    ensures
        near || a.project() == b.project() ==> r is None,
        !near && a.project() != b.project() ==> r == Some(Edge::new_spec(*a, *b, ratio)),
{
    if near || (a.x == b.x && a.y == b.y) {
        None
    } else {
        Some(Edge::new(a, b, ratio))
    }
}

/// `s` with `e` put in behind the last edge that does not come after it.
pub open spec fn insert_sorted(s: Seq<Edge>, e: Edge) -> Seq<Edge>
    decreases s.len(),
{
    if s.len() == 0 {
        seq![e]
    } else if e.precedes_spec(s.last()) {
        insert_sorted(s.drop_last(), e).push(s.last())
    } else {
        s.push(e)
    }
}

/// The edges of `s` in the order of the sweep; edges of which neither comes
/// before the other stay in the order they had.
pub open spec fn sort_edges(s: Seq<Edge>) -> Seq<Edge>
    decreases s.len(),
{
    if s.len() == 0 {
        s
    } else {
        insert_sorted(sort_edges(s.drop_last()), s.last())
    }
}

/// Whether no edge of `s` comes before an edge that stands in front of it.
pub open spec fn in_sweep_order(s: Seq<Edge>) -> bool {
    forall|i: int, j: int| 0 <= i < j < s.len() ==> !(#[trigger] s[j]).precedes_spec(#[trigger] s[i])
}

proof fn lemma_insert_at(s: Seq<Edge>, e: Edge, j: int)
    requires
        0 <= j <= s.len(),
        forall|k: int| j <= k < s.len() ==> e.precedes_spec(#[trigger] s[k]),
        j > 0 ==> !e.precedes_spec(s[j - 1]),
    ensures
        insert_sorted(s, e) == s.insert(j, e),
    decreases s.len() - j,
{
    if s.len() == 0 {
        assert(s.insert(j, e) =~= seq![e]);
    } else if j == s.len() {
        assert(s.insert(j, e) =~= s.push(e));
    } else {
        let t = s.drop_last();
        lemma_insert_at(t, e, j);
        assert(t.insert(j, e).push(s.last()) =~= s.insert(j, e));
    }
}

/// Putting an edge into a list keeps every edge of the list and adds the one.
pub proof fn lemma_insert_sorted_holds(s: Seq<Edge>, e: Edge)
    ensures
        insert_sorted(s, e).len() == s.len() + 1,
        insert_sorted(s, e).to_multiset() == s.to_multiset().insert(e),
    decreases s.len(),
{
    broadcast use vstd::seq_lib::group_to_multiset_ensures;

    if s.len() == 0 {
        assert(seq![e] =~= s.push(e));
    } else if e.precedes_spec(s.last()) {
        let t = s.drop_last();
        lemma_insert_sorted_holds(t, e);
        assert(t.push(s.last()) =~= s);
        assert(insert_sorted(s, e).to_multiset() =~= s.to_multiset().insert(e));
    } else {
    }
}

/// Putting an edge into a list in sweep order leaves it in sweep order.
pub proof fn lemma_insert_sorted_keeps_order(s: Seq<Edge>, e: Edge)
    requires
        in_sweep_order(s),
    ensures
        in_sweep_order(insert_sorted(s, e)),
    decreases s.len(),
{
    if s.len() == 0 {
    } else if e.precedes_spec(s.last()) {
        let t = s.drop_last();
        assert forall|i: int, j: int| 0 <= i < j < t.len() implies !(#[trigger] t[j]).precedes_spec(
            #[trigger] t[i],
        ) by {
            assert(t[i] == s[i] && t[j] == s[j]);
        }
        lemma_insert_sorted_keeps_order(t, e);
        lemma_insert_sorted_holds(t, e);
        lemma_insert_sorted_members(t, e);
        let r = insert_sorted(t, e);
        let out = r.push(s.last());
        assert forall|i: int, j: int| 0 <= i < j < out.len() implies !(#[trigger] out[j]).precedes_spec(
            #[trigger] out[i],
        ) by {
            if j == out.len() - 1 {
                assert(out[i] == r[i]);
                if r[i] != e {
                    let k = choose|k: int| 0 <= k < t.len() && t[k] == r[i];
                    assert(s[k] == r[i]);
                    assert(!s[s.len() - 1].precedes_spec(s[k]));
                }
            } else {
                assert(out[i] == r[i] && out[j] == r[j]);
            }
        }
    } else {
        let out = s.push(e);
        assert forall|i: int, j: int| 0 <= i < j < out.len() implies !(#[trigger] out[j]).precedes_spec(
            #[trigger] out[i],
        ) by {
            if j == out.len() - 1 {
                assert(out[i] == s[i]);
                assert(!s[s.len() - 1].precedes_spec(s[i]));
            } else {
                assert(out[i] == s[i] && out[j] == s[j]);
            }
        }
    }
}

proof fn lemma_insert_sorted_members(s: Seq<Edge>, e: Edge)
    ensures
        forall|i: int|
            0 <= i < insert_sorted(s, e).len() ==> (#[trigger] insert_sorted(s, e)[i]) == e || exists|
                k: int,
            | 0 <= k < s.len() && s[k] == insert_sorted(s, e)[i],
    decreases s.len(),
{
    if s.len() == 0 {
    } else if e.precedes_spec(s.last()) {
        let t = s.drop_last();
        lemma_insert_sorted_members(t, e);
        lemma_insert_sorted_holds(t, e);
        let r = insert_sorted(t, e);
        let out = r.push(s.last());
        assert forall|i: int| 0 <= i < out.len() implies (#[trigger] out[i]) == e || exists|k: int|
            0 <= k < s.len() && s[k] == out[i] by {
            if i == out.len() - 1 {
                assert(s[s.len() - 1] == out[i]);
            } else {
                assert(out[i] == r[i]);
                if r[i] != e {
                    let k = choose|k: int| 0 <= k < t.len() && t[k] == r[i];
                    assert(s[k] == out[i]);
                }
            }
        }
    } else {
        let out = s.push(e);
        assert forall|i: int| 0 <= i < out.len() implies (#[trigger] out[i]) == e || exists|k: int|
            0 <= k < s.len() && s[k] == out[i] by {
            if i < s.len() {
                assert(s[i] == out[i]);
            }
        }
    }
}

/// Sorting puts the edges in sweep order and neither drops nor adds one.
pub proof fn lemma_sort_edges(s: Seq<Edge>)
    ensures
        in_sweep_order(sort_edges(s)),
        sort_edges(s).len() == s.len(),
        sort_edges(s).to_multiset() == s.to_multiset(),
    decreases s.len(),
{
    broadcast use vstd::seq_lib::group_to_multiset_ensures;

    if s.len() == 0 {
    } else {
        let t = s.drop_last();
        lemma_sort_edges(t);
        lemma_insert_sorted_keeps_order(sort_edges(t), s.last());
        lemma_insert_sorted_holds(sort_edges(t), s.last());
        assert(t.push(s.last()) =~= s);
    }
}

/// Puts the edges in the order of the sweep: by first end, `x` before `y`,
/// then by ascending slope. Edges of which neither comes before the other
/// stay in the order they had.
pub fn prepare_edgelist(edges: &mut Vec<Edge>)
    ensures
        final(edges)@ == sort_edges(old(edges)@),
        in_sweep_order(final(edges)@),
        final(edges)@.to_multiset() == old(edges)@.to_multiset(),
{
    let mut out: Vec<Edge> = Vec::new();
    let n: usize = edges.len();
    let mut i: usize = 0;
    while i < n
        invariant
            i <= n,
            n == edges.len(),
            *edges == *old(edges),
            out@ == sort_edges(edges@.take(i as int)),
            out.len() == i,
        decreases n - i,
    {
        let e: Edge = edges[i];
        let mut j: usize = i;
        while j > 0 && e.precedes(&out[j - 1])
            invariant
                j <= i,
                out.len() == i,
                forall|k: int| j <= k < out.len() ==> e.precedes_spec(#[trigger] out@[k]),
            decreases j,
        {
            j = j - 1;
        }
        proof {
            lemma_insert_at(out@, e, j as int);
            assert(edges@.take(i + 1).drop_last() =~= edges@.take(i as int));
            assert(edges@.take(i + 1).last() == e);
        }
        out.insert(j, e);
        i = i + 1;
    }
    proof {
        assert(edges@.take(n as int) =~= edges@);
        lemma_sort_edges(edges@);
    }
    *edges = out;
}

} // verus!
