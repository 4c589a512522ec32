//! Closing the cut with triangles by a sweep over the boundary edges.
//!
//! The sweep runs over the edges in ascending `x` and keeps a list of strips.
//! A strip is the part of the cut face between an upper and a lower chain of
//! edges; `upper` and `lower` are the last edges of the two chains. An edge
//! that continues a chain closes the triangle behind it; an edge that no
//! strip knows opens a new strip together with the edge that follows it.
use vstd::prelude::*;
use crate::coord::{is_infinite, Coord, INFINITY, NEG_ONE};
use crate::edge::{prepare_edgelist, sort_edges, Edge, PtLoc};
use crate::error::SliceError;
use crate::geom::{Point2, Triangle3, Vertex3};

verus! {

/// A strip of the sweep: the last edge of its upper and of its lower chain.
#[derive(Clone, Copy, Debug, PartialEq, Eq, Structural)]
pub struct MonoPoly {
    pub upper: Edge,
    pub lower: Edge,
}

/// What an edge is to a strip.
#[derive(Clone, Copy, Debug, PartialEq, Eq)]
pub enum EdgeDisposition {
    /// The edge starts over or under the strip.
    Outside,
    /// The edge starts between the two chains of the strip.
    Inside,
    /// The edge starts on a chain, or over the upper and under the lower one.
    Crossing,
    /// The edge continues a chain; the corners are those of the triangle
    /// behind it.
    Extends([Point2; 3]),
}

/// What the advance of the sweep does to a strip.
#[derive(Clone, Copy, Debug, PartialEq, Eq)]
pub enum SweepDisposition {
    /// The strip stays.
    Unchanged,
    /// The strip is complete; the corners are those of its last triangle.
    Discard([Point2; 3]),
}

/// The strips and the triangles of a sweep.
pub struct SweepState {
    pub strips: Seq<MonoPoly>,
    pub tris: Seq<Triangle3>,
}

/// What placing one edge in a list of strips comes to.
pub struct Placement {
    /// The strips, a chain continued where the edge continues it.
    pub strips: Seq<MonoPoly>,
    /// The triangles behind the edge, one for each chain that it continues.
    pub tris: Seq<Triangle3>,
    /// Whether the edge continues a chain.
    pub found: bool,
    /// The first strip that has the start of the edge between its chains.
    pub inside: Option<int>,
    /// Whether the edge crosses a strip.
    pub crossing: bool,
}

/// The vertex over `p` at height `z`.
pub open spec fn make_vert_spec(p: Point2, z: Coord) -> Vertex3 {
    p.lift(z)
}

/// The triangle over three points at height `z`, facing down.
pub open spec fn make_tri_spec(v: [Point2; 3], z: Coord) -> Triangle3 {
    Triangle3::of(
        Vertex3 { x: 0, y: 0, z: NEG_ONE },
        make_vert_spec(v[0], z),
        make_vert_spec(v[1], z),
        make_vert_spec(v[2], z),
    )
}

/// The strip that two edges open of which `first` comes first in the sweep:
/// where both start in one point `first` is the upper one; where `second`
/// ends where `first` starts, `second` run backwards is the upper one. Two
/// edges that do neither open no strip.
pub open spec fn pair_up(first: Edge, second: Edge) -> Option<MonoPoly> {
    if first.a == second.a {
        Some(MonoPoly { upper: first, lower: second })
    } else if first.a == second.b {
        Some(MonoPoly { upper: second.reversed_spec(), lower: first })
    } else {
        None
    }
}

impl MonoPoly {
    /// The strip after `edge`, and what the edge is to it. `upper_y` and
    /// `lower_y` are the `y` at which the lines through the upper and the
    /// lower edge pass the `x` at which `edge` starts.
    ///
    /// An edge that starts where a chain ends continues that chain, the upper
    /// one first; so does an edge along `y` that ends where a chain ends, run
    /// backwards. The triangle behind it has the ends of the edge that it
    /// follows and the start of the last edge of the other chain. Any other
    /// edge leaves the strip as it is.
    pub open spec fn edge_step(self, edge: Edge, upper_y: Coord, lower_y: Coord) -> (
        MonoPoly,
        EdgeDisposition,
    ) {
        if edge.a == self.upper.b {
            (
                MonoPoly { upper: edge, lower: self.lower },
                EdgeDisposition::Extends([self.upper.a, self.upper.b, self.lower.a]),
            )
        } else if edge.a == self.lower.b {
            (
                MonoPoly { upper: self.upper, lower: edge },
                EdgeDisposition::Extends([self.lower.b, self.lower.a, self.upper.a]),
            )
        } else if edge.is_upright() && edge.b == self.upper.b {
            (
                MonoPoly { upper: edge.reversed_spec(), lower: self.lower },
                EdgeDisposition::Extends([self.upper.a, self.upper.b, self.lower.a]),
            )
        } else if edge.is_upright() && edge.b == self.lower.b {
            (
                MonoPoly { upper: self.upper, lower: edge.reversed_spec() },
                EdgeDisposition::Extends([self.lower.b, self.lower.a, self.upper.a]),
            )
        } else {
            (
                self,
                match (
                    self.upper.locate_spec(edge.a, upper_y),
                    self.lower.locate_spec(edge.a, lower_y),
                ) {
                    (PtLoc::Above, PtLoc::Above) => EdgeDisposition::Outside,
                    (PtLoc::Below, PtLoc::Below) => EdgeDisposition::Outside,
                    (PtLoc::Below, PtLoc::Above) => EdgeDisposition::Inside,
                    _ => EdgeDisposition::Crossing,
                },
            )
        }
    }

    /// What becomes of the strip when the sweep has come to `sweep`: it is
    /// complete where the sweep has passed the end of one of its chains and
    /// both chains end in one point.
    pub open spec fn sweep_step(self, sweep: Coord) -> SweepDisposition {
        if (sweep > self.upper.b.x || sweep > self.lower.b.x) && self.upper.b == self.lower.b {
            SweepDisposition::Discard([self.upper.a, self.upper.b, self.lower.b])
        } else {
            SweepDisposition::Unchanged
        }
    }

    /// Places `edge` against the strip (see [`MonoPoly::edge_step`]).
    pub fn handle_edge(&mut self, edge: &Edge, upper_y: Coord, lower_y: Coord) -> (d:
        EdgeDisposition)
        ensures
            (*final(self), d) == old(self).edge_step(*edge, upper_y, lower_y),
    {
        if edge.a == self.upper.b {
            let prior = self.upper;
            self.upper = *edge;
            EdgeDisposition::Extends([prior.a, prior.b, self.lower.a])
        } else if edge.a == self.lower.b {
            let prior = self.lower;
            self.lower = *edge;
            EdgeDisposition::Extends([prior.b, prior.a, self.upper.a])
        } else if is_infinite(edge.slope) && edge.b == self.upper.b {
            let prior = self.upper;
            self.upper = edge.reversed();
            EdgeDisposition::Extends([prior.a, prior.b, self.lower.a])
        } else if is_infinite(edge.slope) && edge.b == self.lower.b {
            let prior = self.lower;
            self.lower = edge.reversed();
            EdgeDisposition::Extends([prior.b, prior.a, self.upper.a])
        } else {
            let aloc = self.upper.locate_pt(&edge.a, upper_y);
            let bloc = self.lower.locate_pt(&edge.a, lower_y);
            match (aloc, bloc) {
                (PtLoc::Above, PtLoc::Above) => EdgeDisposition::Outside,
                (PtLoc::Below, PtLoc::Below) => EdgeDisposition::Outside,
                (PtLoc::Below, PtLoc::Above) => EdgeDisposition::Inside,
                _ => EdgeDisposition::Crossing,
            }
        }
    }

    /// Tells what becomes of the strip when the sweep has come to `sweep`
    /// (see [`MonoPoly::sweep_step`]).
    pub fn handle_sweep(&self, sweep: Coord) -> (d: SweepDisposition)
        ensures
            d == self.sweep_step(sweep),
    {
        if sweep > self.upper.b.x || sweep > self.lower.b.x {
            if self.upper.b == self.lower.b {
                SweepDisposition::Discard([self.upper.a, self.upper.b, self.lower.b])
            } else {
                SweepDisposition::Unchanged
            }
        } else {
            SweepDisposition::Unchanged
        }
    }
}

/// The vertex over `p` at height `z`.
pub fn make_vert(p: &Point2, z: Coord) -> (v: Vertex3)
    ensures
        v == make_vert_spec(*p, z),
{
    Vertex3 { x: p.x, y: p.y, z }
}

/// The triangle over three points at height `z`, facing down.
pub fn make_tri(v: &[Point2; 3], z: Coord) -> (t: Triangle3)
    ensures
        t == make_tri_spec(*v, z),
{
    Triangle3 {
        normal: Vertex3 { x: 0, y: 0, z: NEG_ONE },
        vertices: [make_vert(&v[0], z), make_vert(&v[1], z), make_vert(&v[2], z)],
    }
}

/// The strips that stay when the sweep has come to `sweep`, in their order,
/// and the last triangles of those that are complete, at height `z`.
pub open spec fn retire(strips: Seq<MonoPoly>, sweep: Coord, z: Coord) -> SweepState
    decreases strips.len(),
{
    if strips.len() == 0 {
        SweepState { strips: Seq::empty(), tris: Seq::empty() }
    } else {
        let before = retire(strips.drop_last(), sweep, z);
        match strips.last().sweep_step(sweep) {
            SweepDisposition::Unchanged => SweepState {
                strips: before.strips.push(strips.last()),
                tris: before.tris,
            },
            SweepDisposition::Discard(corners) => SweepState {
                strips: before.strips,
                tris: before.tris.push(make_tri_spec(corners, z)),
            },
        }
    }
}

/// What placing `edge` in `strips` comes to, one strip after the other, where
/// `height(e, x)` is the `y` at which the line through `e` passes `x`. No
/// strip behind one that the edge crosses is looked at.
pub open spec fn place(strips: Seq<MonoPoly>, edge: Edge, z: Coord, height: spec_fn(Edge, Coord) -> Coord) -> Placement
    decreases strips.len(),
{
    if strips.len() == 0 {
        Placement { strips: Seq::empty(), tris: Seq::empty(), found: false, inside: None, crossing: false }
    } else {
        let before = place(strips.drop_last(), edge, z, height);
        let strip = strips.last();
        if before.crossing {
            Placement { strips: before.strips.push(strip), ..before }
        } else {
            let (next, disposition) = strip.edge_step(
                edge,
                height(strip.upper, edge.a.x),
                height(strip.lower, edge.a.x),
            );
            match disposition {
                EdgeDisposition::Outside => Placement { strips: before.strips.push(next), ..before },
                EdgeDisposition::Inside => Placement {
                    strips: before.strips.push(next),
                    inside: if before.inside is None {
                        Some(strips.len() - 1)
                    } else {
                        before.inside
                    },
                    ..before
                },
                EdgeDisposition::Crossing => Placement {
                    strips: before.strips.push(next),
                    crossing: true,
                    ..before
                },
                EdgeDisposition::Extends(corners) => Placement {
                    strips: before.strips.push(next),
                    tris: before.tris.push(make_tri_spec(corners, z)),
                    found: true,
                    ..before
                },
            }
        }
    }
}

/// The strips after two edges have opened the strip `opened` at the point
/// `at`, and the triangles with them. Where `at` lies between the chains of
/// the strip `inside`, that strip is split: its upper chain goes on over the
/// upper edge of `opened`, its lower chain under the lower edge of `opened`
/// as a strip of its own, and the triangle between `at` and the starts of its
/// two last edges is closed. Otherwise `opened` is one more strip.
pub open spec fn open_strip(
    strips: Seq<MonoPoly>,
    tris: Seq<Triangle3>,
    inside: Option<int>,
    opened: MonoPoly,
    at: Point2,
    z: Coord,
) -> SweepState {
    match inside {
        Some(k) if 0 <= k < strips.len() => {
            let whole = strips[k];
            SweepState {
                strips: strips.update(k, MonoPoly { upper: whole.upper, lower: opened.upper }).push(
                    MonoPoly { upper: opened.lower, lower: whole.lower },
                ),
                tris: tris.push(make_tri_spec([whole.upper.a, at, whole.lower.a], z)),
            }
        },
        _ => SweepState { strips: strips.push(opened), tris },
    }
}

/// What the sweep over `sorted` from its edge `i` on yields, begun with the
/// strips and triangles of `state`.
///
/// For each edge the complete strips are retired, then the edge is placed. An
/// edge that crosses a strip ends the sweep with
/// [`SliceError::CrossingEdge`]. An edge that continues no chain opens a
/// strip with the edge behind it, which is then not placed itself; without
/// such an edge the sweep ends with [`SliceError::DanglingEdge`], with one
/// that does not fit with [`SliceError::UnmatchedEdge`]. Where the two open
/// between the chains of a strip they split it (see [`open_strip`]). When
/// the edges have run out the strips are retired a last time, and a strip
/// that stays ends the sweep with [`SliceError::DanglingEdge`].
pub open spec fn sweep_from(
    sorted: Seq<Edge>,
    i: nat,
    state: SweepState,
    z: Coord,
    height: spec_fn(Edge, Coord) -> Coord,
) -> Result<Seq<Triangle3>, SliceError>
    decreases sorted.len() - i,
{
    if i >= sorted.len() {
        let last = retire(state.strips, INFINITY, z);
        if last.strips.len() > 0 {
            Err(SliceError::DanglingEdge { edge: last.strips[0].upper })
        } else {
            Ok(state.tris + last.tris)
        }
    } else {
        let edge = sorted[i as int];
        let retired = retire(state.strips, edge.a.x, z);
        let placed = place(retired.strips, edge, z, height);
        let tris = state.tris + retired.tris + placed.tris;
        if placed.crossing {
            Err(SliceError::CrossingEdge { edge })
        } else if placed.found {
            sweep_from(sorted, i + 1, SweepState { strips: placed.strips, tris }, z, height)
        } else if i + 1 >= sorted.len() {
            Err(SliceError::DanglingEdge { edge })
        } else {
            match pair_up(edge, sorted[i as int + 1]) {
                None => Err(SliceError::UnmatchedEdge { edge, next: sorted[i as int + 1] }),
                Some(opened) => sweep_from(
                    sorted,
                    i + 2,
                    open_strip(placed.strips, tris, placed.inside, opened, edge.a, z),
                    z,
                    height,
                ),
            }
        }
    }
}

/// The triangles that close the cut bounded by `edges` at height `z`, where
/// `height(e, x)` is the `y` at which the line through `e` passes `x`.
pub open spec fn sweep_spec(edges: Seq<Edge>, z: Coord, height: spec_fn(Edge, Coord) -> Coord) -> Result<
    Seq<Triangle3>,
    SliceError,
> {
    sweep_from(
        sort_edges(edges),
        0,
        SweepState { strips: Seq::empty(), tris: Seq::empty() },
        z,
        height,
    )
}

/// Whether the triangle lies in the plane at height `z` and faces down.
pub open spec fn is_flat(t: Triangle3, z: Coord) -> bool {
    &&& t.normal == Vertex3 { x: 0, y: 0, z: NEG_ONE }
    &&& t.vertices[0].z == z
    &&& t.vertices[1].z == z
    &&& t.vertices[2].z == z
}

/// Whether all triangles lie in the plane at height `z` and face down.
pub open spec fn all_flat(tris: Seq<Triangle3>, z: Coord) -> bool {
    forall|i: int| 0 <= i < tris.len() ==> is_flat(#[trigger] tris[i], z)
}

proof fn lemma_retire_flat(strips: Seq<MonoPoly>, sweep: Coord, z: Coord)
    ensures
        all_flat(retire(strips, sweep, z).tris, z),
    decreases strips.len(),
{
    if strips.len() > 0 {
        lemma_retire_flat(strips.drop_last(), sweep, z);
    }
}

proof fn lemma_place_flat(
    strips: Seq<MonoPoly>,
    edge: Edge,
    z: Coord,
    height: spec_fn(Edge, Coord) -> Coord,
)
    ensures
        all_flat(place(strips, edge, z, height).tris, z),
    decreases strips.len(),
{
    if strips.len() > 0 {
        lemma_place_flat(strips.drop_last(), edge, z, height);
    }
}

proof fn lemma_sweep_from_flat(
    sorted: Seq<Edge>,
    i: nat,
    state: SweepState,
    z: Coord,
    height: spec_fn(Edge, Coord) -> Coord,
)
    requires
        all_flat(state.tris, z),
    ensures
        sweep_from(sorted, i, state, z, height) matches Ok(tris) ==> all_flat(tris, z),
    decreases sorted.len() - i,
{
    if i >= sorted.len() {
        lemma_retire_flat(state.strips, INFINITY, z);
    } else {
        let edge = sorted[i as int];
        let retired = retire(state.strips, edge.a.x, z);
        let placed = place(retired.strips, edge, z, height);
        let tris = state.tris + retired.tris + placed.tris;
        lemma_retire_flat(state.strips, edge.a.x, z);
        lemma_place_flat(retired.strips, edge, z, height);
        assert(all_flat(tris, z));
        if placed.crossing {
        } else if placed.found {
            lemma_sweep_from_flat(sorted, i + 1, SweepState { strips: placed.strips, tris }, z, height);
        } else if i + 1 >= sorted.len() {
        } else {
            match pair_up(edge, sorted[i as int + 1]) {
                None => {},
                Some(opened) => {
                    let next = open_strip(placed.strips, tris, placed.inside, opened, edge.a, z);
                    assert(all_flat(next.tris, z));
                    lemma_sweep_from_flat(sorted, i + 2, next, z, height);
                },
            }
        }
    }
}

/// Every triangle of a sweep lies in the plane of the cut and faces down.
pub proof fn lemma_sweep_faces_are_flat(
    edges: Seq<Edge>,
    z: Coord,
    height: spec_fn(Edge, Coord) -> Coord,
)
    ensures
        sweep_spec(edges, z, height) matches Ok(tris) ==> all_flat(tris, z),
{
    lemma_sweep_from_flat(
        sort_edges(edges),
        0,
        SweepState { strips: Seq::empty(), tris: Seq::empty() },
        z,
        height,
    );
}

/// Whether every answer of `f` is the one that `height` gives.
pub open spec fn answers_as<F: Fn(Edge, Coord) -> Coord>(f: F, height: spec_fn(Edge, Coord) -> Coord) -> bool {
    forall|e: Edge, x: Coord, y: Coord| #[trigger] call_ensures(f, (e, x), y) ==> y == height(e, x)
}

/// The triangles of a result, or its failure.
pub open spec fn outcome(r: Result<Vec<Triangle3>, SliceError>) -> Result<Seq<Triangle3>, SliceError> {
    match r {
        Ok(tris) => Ok(tris@),
        Err(e) => Err(e),
    }
}

/// Retires the complete strips (see [`retire`]): they leave `strips`, and
/// their last triangles are added to `tris`.
pub fn retire_strips(strips: &mut Vec<MonoPoly>, tris: &mut Vec<Triangle3>, sweep: Coord, z: Coord)
    ensures
        final(strips)@ == retire(old(strips)@, sweep, z).strips,
        final(tris)@ == old(tris)@ + retire(old(strips)@, sweep, z).tris,
{
    let mut kept: Vec<MonoPoly> = Vec::new();
    let n: usize = strips.len();
    let mut k: usize = 0;
    while k < n
        invariant
            k <= n,
            n == strips.len(),
            *strips == *old(strips),
            kept@ == retire(strips@.take(k as int), sweep, z).strips,
            tris@ == old(tris)@ + retire(strips@.take(k as int), sweep, z).tris,
        decreases n - k,
    {
        proof {
            assert(strips@.take(k + 1).drop_last() =~= strips@.take(k as int));
        }
        let strip: MonoPoly = strips[k];
        match strip.handle_sweep(sweep) {
            SweepDisposition::Unchanged => {
                kept.push(strip);
            },
            SweepDisposition::Discard(corners) => {
                tris.push(make_tri(&corners, z));
                assert(tris@ =~= old(tris)@ + retire(strips@.take(k + 1), sweep, z).tris);
            },
        }
        k = k + 1;
    }
    proof {
        assert(strips@.take(n as int) =~= strips@);
    }
    *strips = kept;
}

/// Closes the cut bounded by `edges` with triangles at height `z`.
///
/// `height_at(e, x)` gives the `y` at which the line through the edge `e`
/// passes `x`; it is asked for the last edges of strips only, and not read
/// for an edge along `y`. The edges are put in sweep order first. For the
/// course of the sweep and for its failures see [`sweep_from`]: where
/// `height_at` answers as a function does, the result is the one described
/// there. Whatever it answers, the triangles lie in the plane and face down.
pub fn sweep_edges<F: Fn(Edge, Coord) -> Coord>(edges: Vec<Edge>, z: Coord, height_at: F) -> (r: Result<
    Vec<Triangle3>,
    SliceError,
>)
    requires
        forall|e: Edge, x: Coord| call_requires(height_at, (e, x)),
    ensures
        forall|height: spec_fn(Edge, Coord) -> Coord| #[trigger]
            answers_as(height_at, height) ==> outcome(r) == sweep_spec(edges@, z, height),
        r matches Ok(tris) ==> all_flat(tris@, z),
{
    let mut sorted = edges;
    prepare_edgelist(&mut sorted);
    let mut tri_list: Vec<Triangle3> = Vec::new();
    let mut mp_list: Vec<MonoPoly> = Vec::new();
    let n: usize = sorted.len();
    let mut i: usize = 0;
    while i < n
        invariant
            i <= n,
            n == sorted.len(),
            sorted@ == sort_edges(edges@),
            all_flat(tri_list@, z),
            forall|e: Edge, x: Coord| call_requires(height_at, (e, x)),
            forall|height: spec_fn(Edge, Coord) -> Coord| #[trigger]
                answers_as(height_at, height) ==> sweep_from(
                    sorted@,
                    i as nat,
                    SweepState { strips: mp_list@, tris: tri_list@ },
                    z,
                    height,
                ) == sweep_spec(edges@, z, height),
        decreases n - i,
    {
        let edge: Edge = sorted[i];
        let ghost before = SweepState { strips: mp_list@, tris: tri_list@ };
        let ghost retired = retire(mp_list@, edge.a.x, z);
        retire_strips(&mut mp_list, &mut tri_list, edge.a.x, z);
        proof {
            lemma_retire_flat(before.strips, edge.a.x, z);
        }
        // Place the edge in every strip, one after the other.
        let mut placed: Vec<MonoPoly> = Vec::new();
        let mut found = false;
        let mut crossing = false;
        let mut inside: Option<usize> = None;
        let m: usize = mp_list.len();
        let ghost mid_tris = tri_list@;
        let mut k: usize = 0;
        while k < m
            invariant
                k <= m,
                m == mp_list.len(),
                mp_list@ == retired.strips,
                all_flat(tri_list@, z),
                forall|e: Edge, x: Coord| call_requires(height_at, (e, x)),
                placed.len() == k,
                inside matches Some(j) ==> j < k,
                forall|height: spec_fn(Edge, Coord) -> Coord| #[trigger]
                    answers_as(height_at, height) ==> {
                        let p = place(mp_list@.take(k as int), edge, z, height);
                        &&& placed@ == p.strips
                        &&& tri_list@ == mid_tris + p.tris
                        &&& found == p.found
                        &&& crossing == p.crossing
                        &&& (match inside {
                            Some(j) => p.inside == Some(j as int),
                            None => p.inside is None,
                        })
                    },
            decreases m - k,
        {
            let mut strip: MonoPoly = mp_list[k];
            let ghost old_placed = placed@;
            let ghost old_tris = tri_list@;
            let ghost old_found = found;
            let ghost old_crossing = crossing;
            let ghost old_inside = inside;
            let ghost asked = !crossing;
            let ghost mut upper_y: Coord = 0;
            let ghost mut lower_y: Coord = 0;
            if !crossing {
                let uy: Coord = height_at(strip.upper, edge.a.x);
                let ly: Coord = height_at(strip.lower, edge.a.x);
                proof {
                    upper_y = uy;
                    lower_y = ly;
                }
                match strip.handle_edge(&edge, uy, ly) {
                    EdgeDisposition::Outside => {},
                    EdgeDisposition::Inside => {
                        if inside.is_none() {
                            inside = Some(k);
                        }
                    },
                    EdgeDisposition::Crossing => {
                        crossing = true;
                    },
                    EdgeDisposition::Extends(corners) => {
                        found = true;
                        tri_list.push(make_tri(&corners, z));
                    },
                }
            }
            placed.push(strip);
            proof {
                assert(mp_list@.take(k + 1).drop_last() =~= mp_list@.take(k as int));
                assert forall|height: spec_fn(Edge, Coord) -> Coord| #[trigger]
                    answers_as(height_at, height) implies {
                    let p = place(mp_list@.take(k + 1), edge, z, height);
                    &&& placed@ == p.strips
                    &&& tri_list@ == mid_tris + p.tris
                    &&& found == p.found
                    &&& crossing == p.crossing
                    &&& (match inside {
                        Some(j) => p.inside == Some(j as int),
                        None => p.inside is None,
                    })
                } by {
                    let q = place(mp_list@.take(k as int), edge, z, height);
                    let p = place(mp_list@.take(k + 1), edge, z, height);
                    assert(old_placed == q.strips);
                    if asked {
                        assert(upper_y == height(mp_list@[k as int].upper, edge.a.x));
                        assert(lower_y == height(mp_list@[k as int].lower, edge.a.x));
                    }
                    assert(tri_list@ =~= mid_tris + p.tris);
                }
            }
            k = k + 1;
        }
        proof {
            assert(mp_list@.take(m as int) =~= mp_list@);
        }
        if crossing {
            proof {
                assert forall|height: spec_fn(Edge, Coord) -> Coord| #[trigger]
                    answers_as(height_at, height) implies sweep_from(sorted@, i as nat, before, z, height)
                    == Err::<Seq<Triangle3>, SliceError>(SliceError::CrossingEdge { edge }) by {
                    let p = place(retired.strips, edge, z, height);
                    assert(p.crossing);
                }
            }
            return Err(SliceError::CrossingEdge { edge });
        }
        mp_list = placed;
        if found {
            proof {
                assert forall|height: spec_fn(Edge, Coord) -> Coord| #[trigger]
                    answers_as(height_at, height) implies sweep_from(
                    sorted@,
                    (i + 1) as nat,
                    SweepState { strips: mp_list@, tris: tri_list@ },
                    z,
                    height,
                ) == sweep_spec(edges@, z, height) by {
                    let p = place(retired.strips, edge, z, height);
                    assert(tri_list@ =~= before.tris + retired.tris + p.tris);
                }
            }
            i = i + 1;
        } else {
            if i + 1 >= n {
                proof {
                    assert forall|height: spec_fn(Edge, Coord) -> Coord| #[trigger]
                        answers_as(height_at, height) implies sweep_from(
                        sorted@,
                        i as nat,
                        before,
                        z,
                        height,
                    ) == Err::<Seq<Triangle3>, SliceError>(SliceError::DanglingEdge { edge }) by {
                        let p = place(retired.strips, edge, z, height);
                        assert(!p.crossing && !p.found);
                    }
                }
                return Err(SliceError::DanglingEdge { edge });
            }
            let edge2: Edge = sorted[i + 1];
            let opened: MonoPoly = if edge.a == edge2.a {
                MonoPoly { upper: edge, lower: edge2 }
            } else if edge.a == edge2.b {
                MonoPoly { upper: edge2.reversed(), lower: edge }
            } else {
                proof {
                    assert forall|height: spec_fn(Edge, Coord) -> Coord| #[trigger]
                        answers_as(height_at, height) implies sweep_from(
                        sorted@,
                        i as nat,
                        before,
                        z,
                        height,
                    ) == Err::<Seq<Triangle3>, SliceError>(
                        SliceError::UnmatchedEdge { edge, next: edge2 },
                    ) by {
                        let p = place(retired.strips, edge, z, height);
                        assert(!p.crossing && !p.found);
                        assert(pair_up(edge, sorted@[i + 1]) is None);
                    }
                }
                return Err(SliceError::UnmatchedEdge { edge, next: edge2 });
            };
            let ghost unopened = mp_list@;
            let ghost untris = tri_list@;
            match inside {
                Some(j) => {
                    let whole: MonoPoly = mp_list[j];
                    mp_list.set(j, MonoPoly { upper: whole.upper, lower: opened.upper });
                    mp_list.push(MonoPoly { upper: opened.lower, lower: whole.lower });
                    tri_list.push(make_tri(&[whole.upper.a, edge.a, whole.lower.a], z));
                },
                None => {
                    mp_list.push(opened);
                },
            }
            proof {
                assert forall|height: spec_fn(Edge, Coord) -> Coord| #[trigger]
                    answers_as(height_at, height) implies sweep_from(
                    sorted@,
                    (i + 2) as nat,
                    SweepState { strips: mp_list@, tris: tri_list@ },
                    z,
                    height,
                ) == sweep_spec(edges@, z, height) by {
                    let p = place(retired.strips, edge, z, height);
                    assert(untris =~= before.tris + retired.tris + p.tris);
                    let next = open_strip(p.strips, untris, p.inside, opened, edge.a, z);
                    assert(mp_list@ =~= next.strips);
                    assert(tri_list@ =~= next.tris);
                }
            }
            i = i + 2;
        }
    }
    let ghost before = SweepState { strips: mp_list@, tris: tri_list@ };
    retire_strips(&mut mp_list, &mut tri_list, INFINITY, z);
    proof {
        lemma_retire_flat(before.strips, INFINITY, z);
        assert forall|height: spec_fn(Edge, Coord) -> Coord| #[trigger]
            answers_as(height_at, height) implies sweep_from(sorted@, n as nat, before, z, height) == (
        if mp_list@.len() > 0 {
            Err::<Seq<Triangle3>, SliceError>(SliceError::DanglingEdge { edge: mp_list@[0].upper })
        } else {
            Ok::<Seq<Triangle3>, SliceError>(tri_list@)
        }) by {}
    }
    if mp_list.len() > 0 {
        return Err(SliceError::DanglingEdge { edge: mp_list[0].upper });
    }
    Ok(tri_list)
}

} // verus!
