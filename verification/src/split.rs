//! Splitting one triangle against the cutting plane.
use vstd::prelude::*;
use crate::coord::Coord;
use crate::error::SliceError;
use crate::geom::{Point2, Triangle3, Vertex3};
use crate::segment::{build_seg, Segment};

verus! {

/// How a triangle whose corners are ordered by height lies to the plane.
#[derive(Clone, Copy, Debug, PartialEq, Eq, Structural)]
pub enum SplitCase {
    /// Under the plane, touching it with one corner at most.
    Below,
    /// Under the plane, with the edge between its two upper corners in it.
    BelowEdge,
    /// Two corners under the plane, one over it.
    UpperCut,
    /// One corner under the plane, one in it, one over it.
    MiddleCut,
    /// One corner under the plane, two over it.
    LowerCut,
    /// Over the plane, with the edge between its two lower corners in it.
    AboveEdge,
    /// Over the plane, touching it with one corner at most.
    Above,
    /// All three corners in the plane.
    InPlane,
}

/// Where the plane meets the edges of a triangle that it cuts.
///
/// The corners `v0`, `v1`, `v2` are those of the triangle ordered by height.
/// For [`SplitCase::UpperCut`], `x` lies on the edge from `v1` to `v2` and `y`
/// on the edge from `v0` to `v2`. For [`SplitCase::MiddleCut`], `x` lies on
/// the edge from `v0` to `v2`. For [`SplitCase::LowerCut`], `x` lies on the
/// edge from `v0` to `v1` and `y` on the edge from `v0` to `v2`. `near` says
/// that `x` and `y` are so close that they count as one point. What a case
/// does not name it does not read.
#[derive(Clone, Copy, Debug, PartialEq, Eq, Structural)]
pub struct PlaneCuts {
    pub x: Point2,
    pub y: Point2,
    pub near: bool,
}

/// An edge of a triangle that the plane cuts, from its lower to its upper end.
#[derive(Clone, Copy, Debug, PartialEq, Eq, Structural)]
pub struct CutEdge {
    pub low: Vertex3,
    pub high: Vertex3,
}

/// The edges on which the cut points of a triangle lie: the one of
/// [`PlaneCuts::x`] and the one of [`PlaneCuts::y`], as far as the case of the
/// triangle reads them.
#[derive(Clone, Copy, Debug, PartialEq, Eq, Structural)]
pub struct CutPlan {
    pub x: Option<CutEdge>,
    pub y: Option<CutEdge>,
}

/// What one triangle contributes to the two halves and to the boundary.
pub struct Pieces {
    pub above: Seq<Triangle3>,
    pub below: Seq<Triangle3>,
    pub edge: Seq<Segment>,
}

/// The triangles of both halves and the boundary segments of one slicing run.
pub struct SplitModel {
    /// The triangles of the half over the plane.
    pub zplus: Vec<Triangle3>,
    /// The triangles of the half under the plane.
    pub zminus: Vec<Triangle3>,
    /// The segments in which triangles cross or touch the plane.
    pub edge: Vec<Segment>,
}

/// Two vertices in ascending height, and whether they had to change places.
pub open spec fn ascending(a: Vertex3, b: Vertex3) -> (Vertex3, Vertex3, bool) {
    if a.z > b.z {
        (b, a, true)
    } else {
        (a, b, false)
    }
}

/// The corners of a triangle ordered by height with three exchanges (first
/// and second, first and third, second and third), and whether an odd number
/// of exchanges took place.
pub open spec fn reorder_spec(tri: Triangle3) -> (Triangle3, bool) {
    let (a1, b1, s1) = ascending(tri.vertices[0], tri.vertices[1]);
    let (a2, c2, s2) = ascending(a1, tri.vertices[2]);
    let (b3, c3, s3) = ascending(b1, c2);
    (Triangle3::of(tri.normal, a2, b3, c3), (s1 != s2) != s3)
}

/// Whether `b` has the corners of `a` in the same cyclic order.
pub open spec fn same_winding(a: Triangle3, b: Triangle3) -> bool {
    let (p, q, r) = (a.vertices[0], a.vertices[1], a.vertices[2]);
    let (u, v, w) = (b.vertices[0], b.vertices[1], b.vertices[2]);
    (u == p && v == q && w == r) || (u == q && v == r && w == p) || (u == r && v == p && w == q)
}

/// Whether `b` has the corners of `a` in the opposite cyclic order.
pub open spec fn opposite_winding(a: Triangle3, b: Triangle3) -> bool {
    let (p, q, r) = (a.vertices[0], a.vertices[1], a.vertices[2]);
    let (u, v, w) = (b.vertices[0], b.vertices[1], b.vertices[2]);
    (u == p && v == r && w == q) || (u == r && v == q && w == p) || (u == q && v == p && w == r)
}

/// The triangle with its last two corners exchanged where `sense` is set.
pub open spec fn corrected(tri: Triangle3, sense: bool) -> Triangle3 {
    if sense {
        Triangle3::of(tri.normal, tri.vertices[0], tri.vertices[2], tri.vertices[1])
    } else {
        tri
    }
}

/// The case of a triangle with the corner heights `z0 <= z1 <= z2` against a
/// plane at height `z`.
pub open spec fn case_of(z0: Coord, z1: Coord, z2: Coord, z: Coord) -> SplitCase {
    if z2 <= z {
        if z0 == z && z1 == z {
            SplitCase::InPlane
        } else if z1 == z {
            SplitCase::BelowEdge
        } else {
            SplitCase::Below
        }
    } else if z1 < z {
        SplitCase::UpperCut
    } else if z1 == z {
        if z0 < z {
            SplitCase::MiddleCut
        } else {
            SplitCase::AboveEdge
        }
    } else if z0 < z {
        SplitCase::LowerCut
    } else {
        SplitCase::Above
    }
}

/// The edges that the plane at height `z` cuts of a triangle: for each cut
/// point that splitting it reads, the edge on which the point lies.
pub open spec fn cut_plan(tri: Triangle3, z: Coord) -> CutPlan {
    let sorted = reorder_spec(tri).0;
    let (v0, v1, v2) = (sorted.vertices[0], sorted.vertices[1], sorted.vertices[2]);
    match case_of(v0.z, v1.z, v2.z, z) {
        SplitCase::UpperCut => CutPlan {
            x: Some(CutEdge { low: v1, high: v2 }),
            y: Some(CutEdge { low: v0, high: v2 }),
        },
        SplitCase::MiddleCut => CutPlan { x: Some(CutEdge { low: v0, high: v2 }), y: None },
        SplitCase::LowerCut => CutPlan {
            x: Some(CutEdge { low: v0, high: v1 }),
            y: Some(CutEdge { low: v0, high: v2 }),
        },
        _ => CutPlan { x: None, y: None },
    }
}

/// Whether the plane at height `z` passes between the two ends of the edge,
/// through neither.
pub open spec fn is_cut(edge: CutEdge, z: Coord) -> bool {
    edge.low.z < z < edge.high.z
}

/// Whether the two cut points count as one.
pub open spec fn is_sliver(cuts: PlaneCuts) -> bool {
    cuts.near || cuts.x == cuts.y
}

/// A piece of a split triangle: the three corners under the normal of the
/// whole, wound like the whole.
pub open spec fn piece(whole: Triangle3, sense: bool, a: Vertex3, b: Vertex3, c: Vertex3) -> Triangle3 {
    corrected(Triangle3::of(whole.normal, a, b, c), sense)
}

/// Nothing over the plane, the whole triangle under it.
pub open spec fn whole_below(tri: Triangle3, edge: Seq<Segment>) -> Pieces {
    Pieces { above: Seq::empty(), below: seq![tri], edge }
}

/// Nothing under the plane, the whole triangle over it.
pub open spec fn whole_above(tri: Triangle3, edge: Seq<Segment>) -> Pieces {
    Pieces { above: seq![tri], below: Seq::empty(), edge }
}

/// The boundary segment between the points under two vertices, or the
/// failure to make one.
pub open spec fn joined(a: Vertex3, b: Vertex3) -> Result<Seq<Segment>, SliceError> {
    if a.project() == b.project() {
        Err(SliceError::DegenerateSegment { at: a.project() })
    } else {
        Ok(seq![Segment::between(a.project(), b.project())])
    }
}

/// What splitting `tri` at height `z` yields, with the plane meeting the
/// edges of the triangle in `cuts`.
///
/// A triangle that the plane does not cut goes whole to its side, corners in
/// the order given. A triangle that is cut goes in pieces, each wound like
/// the whole; where both cut points count as one it goes whole to the side
/// that holds two of its corners. A triangle with an edge in the plane gives
/// that edge as boundary segment; one with all corners in the plane goes
/// under the plane and bounds nothing.
pub open spec fn split_spec(tri: Triangle3, z: Coord, cuts: PlaneCuts) -> Result<Pieces, SliceError> {
    let (sorted, sense) = reorder_spec(tri);
    let (v0, v1, v2) = (sorted.vertices[0], sorted.vertices[1], sorted.vertices[2]);
    let x = cuts.x.lift(z);
    let y = cuts.y.lift(z);
    match case_of(v0.z, v1.z, v2.z, z) {
        SplitCase::Below | SplitCase::InPlane => Ok(whole_below(tri, Seq::empty())),
        SplitCase::BelowEdge => match joined(v1, v2) {
            Ok(edge) => Ok(whole_below(tri, edge)),
            Err(e) => Err(e),
        },
        SplitCase::UpperCut => if is_sliver(cuts) {
            Ok(whole_below(tri, Seq::empty()))
        } else {
            Ok(
                Pieces {
                    above: seq![piece(tri, sense, x, v2, y)],
                    below: seq![piece(tri, sense, v0, v1, x), piece(tri, sense, v0, x, y)],
                    edge: seq![Segment::between(cuts.x, cuts.y)],
                },
            )
        },
        SplitCase::MiddleCut => match joined(x, v1) {
            Ok(edge) => Ok(
                Pieces {
                    above: seq![piece(tri, sense, v1, v2, x)],
                    below: seq![piece(tri, sense, v0, v1, x)],
                    edge,
                },
            ),
            Err(e) => Err(e),
        },
        SplitCase::LowerCut => if is_sliver(cuts) {
            Ok(whole_above(tri, Seq::empty()))
        } else {
            Ok(
                Pieces {
                    above: seq![piece(tri, sense, y, x, v2), piece(tri, sense, x, v1, v2)],
                    below: seq![piece(tri, sense, v0, x, y)],
                    edge: seq![Segment::between(cuts.x, cuts.y)],
                },
            )
        },
        SplitCase::AboveEdge => match joined(v0, v1) {
            Ok(edge) => Ok(whole_above(tri, edge)),
            Err(e) => Err(e),
        },
        SplitCase::Above => Ok(whole_above(tri, Seq::empty())),
    }
}

/// Orders the corners of a triangle by ascending height. The flag tells
/// whether the corners now run in the opposite cyclic order.
pub fn reorder(tri: &Triangle3) -> (r: (Triangle3, bool))
    ensures
        r == reorder_spec(*tri),
        r.0.normal == tri.normal,
        r.0.vertices[0].z <= r.0.vertices[1].z <= r.0.vertices[2].z,
        r.1 ==> opposite_winding(*tri, r.0),
        !r.1 ==> same_winding(*tri, r.0),
{
    let mut a: Vertex3 = tri.vertices[0];
    let mut b: Vertex3 = tri.vertices[1];
    let mut c: Vertex3 = tri.vertices[2];
    let mut sense = false;
    if a.z > b.z {
        let tmp = a;
        a = b;
        b = tmp;
        sense = !sense;
    }
    if a.z > c.z {
        let tmp = a;
        a = c;
        c = tmp;
        sense = !sense;
    }
    if b.z > c.z {
        let tmp = b;
        b = c;
        c = tmp;
        sense = !sense;
    }
    (Triangle3 { normal: tri.normal, vertices: [a, b, c] }, sense)
}

/// Exchanges the last two corners of the triangle where `sense` is set, which
/// turns its winding around.
pub fn correct_sense(tri: &mut Triangle3, sense: bool)
    ensures
        *final(tri) == corrected(*old(tri), sense),
{
    if sense {
        let tmp = tri.vertices[2];
        tri.vertices[2] = tri.vertices[1];
        tri.vertices[1] = tmp;
        assert(tri.vertices =~= corrected(*old(tri), sense).vertices);
    }
}

/// The case of a triangle, its corners ordered by height, against a plane at
/// height `z`.
pub fn classify(sorted: &Triangle3, z: Coord) -> (c: SplitCase)
    ensures
        c == case_of(sorted.vertices[0].z, sorted.vertices[1].z, sorted.vertices[2].z, z),
{
    let z0: Coord = sorted.vertices[0].z;
    let z1: Coord = sorted.vertices[1].z;
    let z2: Coord = sorted.vertices[2].z;
    if z2 <= z {
        if z0 == z && z1 == z {
            SplitCase::InPlane
        } else if z1 == z {
            SplitCase::BelowEdge
        } else {
            SplitCase::Below
        }
    } else if z1 < z {
        SplitCase::UpperCut
    } else if z1 == z {
        if z0 < z {
            SplitCase::MiddleCut
        } else {
            SplitCase::AboveEdge
        }
    } else if z0 < z {
        SplitCase::LowerCut
    } else {
        SplitCase::Above
    }
}

/// Tells on which edges of the triangle the cut points lie that splitting
/// it at height `z` reads. The plane passes between the two ends of each
/// such edge.
pub fn plan_cuts(tri: &Triangle3, z: Coord) -> (plan: CutPlan)
    ensures
        plan == cut_plan(*tri, z),
        plan.x matches Some(e) ==> is_cut(e, z),
        plan.y matches Some(e) ==> is_cut(e, z),
{
    let (sorted, _) = reorder(tri);
    let v0: Vertex3 = sorted.vertices[0];
    let v1: Vertex3 = sorted.vertices[1];
    let v2: Vertex3 = sorted.vertices[2];
    match classify(&sorted, z) {
        SplitCase::UpperCut => CutPlan {
            x: Some(CutEdge { low: v1, high: v2 }),
            y: Some(CutEdge { low: v0, high: v2 }),
        },
        SplitCase::MiddleCut => CutPlan { x: Some(CutEdge { low: v0, high: v2 }), y: None },
        SplitCase::LowerCut => CutPlan {
            x: Some(CutEdge { low: v0, high: v1 }),
            y: Some(CutEdge { low: v0, high: v2 }),
        },
        _ => CutPlan { x: None, y: None },
    }
}

impl SplitModel {
    /// Whether nothing has been split into this model yet.
    pub open spec fn is_empty(self) -> bool {
        self.zplus@.len() == 0 && self.zminus@.len() == 0 && self.edge@.len() == 0
    }

    /// Whether this model holds what `before` held and after it `pieces`.
    pub open spec fn extends(self, before: SplitModel, pieces: Pieces) -> bool {
        &&& self.zplus@ == before.zplus@ + pieces.above
        &&& self.zminus@ == before.zminus@ + pieces.below
        &&& self.edge@ == before.edge@ + pieces.edge
    }

    /// Whether this model holds what `before` held.
    pub open spec fn same_as(self, before: SplitModel) -> bool {
        &&& self.zplus@ == before.zplus@
        &&& self.zminus@ == before.zminus@
        &&& self.edge@ == before.edge@
    }

    /// A model without triangles and segments.
    pub fn new() -> (m: SplitModel)
        ensures
            m.is_empty(),
    {
        SplitModel { zplus: Vec::new(), zminus: Vec::new(), edge: Vec::new() }
    }

    /// Adds a piece of a split triangle to the upper half (`zplus` set) or to
    /// the lower half, its winding turned around where `sense` is set.
    pub fn add_tri(&mut self, t2: Triangle3, sense: bool, zplus: bool)
        ensures
            final(self).edge@ == old(self).edge@,
            zplus ==> final(self).zplus@ == old(self).zplus@.push(corrected(t2, sense))
                && final(self).zminus@ == old(self).zminus@,
            !zplus ==> final(self).zminus@ == old(self).zminus@.push(corrected(t2, sense))
                && final(self).zplus@ == old(self).zplus@,
    {
        let mut t2 = t2;
        correct_sense(&mut t2, sense);
        if zplus {
            self.zplus.push(t2);
        } else {
            self.zminus.push(t2);
        }
    }

    /// Splits one triangle at height `z` and adds what comes of it to the
    /// model. `cuts` holds the points in which the plane meets the edges of
    /// the triangle (see [`PlaneCuts`]).
    ///
    /// Fails with [`SliceError::DegenerateSegment`], and leaves the model as
    /// it was, where the triangle has an edge in the plane, or a corner in it
    /// and the opposite edge cut, and the two ends of the boundary segment
    /// coincide.
    pub fn split_tri(&mut self, tri: &Triangle3, z: Coord, cuts: &PlaneCuts) -> (r: Result<(), SliceError>)
        ensures
            match split_spec(*tri, z, *cuts) {
                Ok(pieces) => r is Ok && final(self).extends(*old(self), pieces),
                Err(e) => r == Err::<(), SliceError>(e) && final(self).same_as(*old(self)),
            },
    {
        let (sorted, sense) = reorder(tri);
        let v0: Vertex3 = sorted.vertices[0];
        let v1: Vertex3 = sorted.vertices[1];
        let v2: Vertex3 = sorted.vertices[2];
        let x: Vertex3 = cuts.x.lift(z);
        let y: Vertex3 = cuts.y.lift(z);
        let ghost goal = split_spec(*tri, z, *cuts);
        match classify(&sorted, z) {
            SplitCase::Below | SplitCase::InPlane => {
                self.zminus.push(*tri);
            },
            SplitCase::BelowEdge => {
                let seg = Segment::new(&v1, &v2)?;
                self.zminus.push(*tri);
                self.edge.push(seg);
            },
            SplitCase::UpperCut => {
                if let Some(seg) = build_seg(&x, &y, cuts.near) {
                    self.add_tri(Triangle3 { normal: tri.normal, vertices: [v0, v1, x] }, sense, false);
                    self.add_tri(Triangle3 { normal: tri.normal, vertices: [v0, x, y] }, sense, false);
                    self.add_tri(Triangle3 { normal: tri.normal, vertices: [x, v2, y] }, sense, true);
                    self.edge.push(seg);
                } else {
                    self.zminus.push(*tri);
                }
            },
            SplitCase::MiddleCut => {
                let seg = Segment::new(&x, &v1)?;
                self.add_tri(Triangle3 { normal: tri.normal, vertices: [v0, v1, x] }, sense, false);
                self.add_tri(Triangle3 { normal: tri.normal, vertices: [v1, v2, x] }, sense, true);
                self.edge.push(seg);
            },
            SplitCase::LowerCut => {
                if let Some(seg) = build_seg(&x, &y, cuts.near) {
                    self.add_tri(Triangle3 { normal: tri.normal, vertices: [v0, x, y] }, sense, false);
                    self.add_tri(Triangle3 { normal: tri.normal, vertices: [y, x, v2] }, sense, true);
                    self.add_tri(Triangle3 { normal: tri.normal, vertices: [x, v1, v2] }, sense, true);
                    self.edge.push(seg);
                } else {
                    self.zplus.push(*tri);
                }
            },
            SplitCase::AboveEdge => {
                let seg = Segment::new(&v0, &v1)?;
                self.zplus.push(*tri);
                self.edge.push(seg);
            },
            SplitCase::Above => {
                self.zplus.push(*tri);
            },
        }
        proof {
            let pieces = goal->Ok_0;
            assert(self.zplus@ =~= old(self).zplus@ + pieces.above);
            assert(self.zminus@ =~= old(self).zminus@ + pieces.below);
            assert(self.edge@ =~= old(self).edge@ + pieces.edge);
        }
        Ok(())
    }
}

/// Whether `a` and `b` are corners of the triangle.
pub open spec fn has_corners(tri: Triangle3, a: Vertex3, b: Vertex3) -> bool {
    let (p, q, r) = (tri.vertices[0], tri.vertices[1], tri.vertices[2]);
    (p == a || q == a || r == a) && (p == b || q == b || r == b)
}

/// Whether the segment, lifted to the height `z`, joins two corners of one of
/// the triangles.
pub open spec fn bounds_one_of(seg: Segment, z: Coord, tris: Seq<Triangle3>) -> bool {
    exists|i: int|
        0 <= i < tris.len() && has_corners(#[trigger] tris[i], seg.start().lift(z), seg.end().lift(z))
}

/// Ordering the corners of a triangle by height and turning the winding
/// around where the order says so gives a triangle with the same corners in
/// the same cyclic order, and so with the same outward side.
pub proof fn lemma_corrected_keeps_winding(tri: Triangle3)
    ensures
        same_winding(tri, corrected(reorder_spec(tri).0, reorder_spec(tri).1)),
        reorder_spec(tri).0.vertices[0].z <= reorder_spec(tri).0.vertices[1].z
            <= reorder_spec(tri).0.vertices[2].z,
{
}

/// A triangle with all corners over the plane, or all under it, goes to its
/// side as it is, whatever the cut points, and gives no boundary segment.
pub proof fn lemma_clear_of_plane(tri: Triangle3, z: Coord, cuts: PlaneCuts)
    ensures
        tri.vertices[0].z > z && tri.vertices[1].z > z && tri.vertices[2].z > z ==> split_spec(
            tri,
            z,
            cuts,
        ) == Ok::<Pieces, SliceError>(whole_above(tri, Seq::empty())),
        tri.vertices[0].z < z && tri.vertices[1].z < z && tri.vertices[2].z < z ==> split_spec(
            tri,
            z,
            cuts,
        ) == Ok::<Pieces, SliceError>(whole_below(tri, Seq::empty())),
{
}

/// Whether no corner of the triangle lies under the height `z`.
pub open spec fn not_under(tri: Triangle3, z: Coord) -> bool {
    tri.vertices[0].z >= z && tri.vertices[1].z >= z && tri.vertices[2].z >= z
}

/// Whether no corner of the triangle lies over the height `z`.
pub open spec fn not_over(tri: Triangle3, z: Coord) -> bool {
    tri.vertices[0].z <= z && tri.vertices[1].z <= z && tri.vertices[2].z <= z
}

/// Unless the cut points count as one, what goes over the plane has no
/// corner under it, and what goes under the plane has no corner over it.
pub proof fn lemma_pieces_keep_their_side(tri: Triangle3, z: Coord, cuts: PlaneCuts)
    requires
        !is_sliver(cuts),
    ensures
        split_spec(tri, z, cuts) matches Ok(pieces) ==> {
            &&& forall|i: int| 0 <= i < pieces.above.len() ==> not_under(#[trigger] pieces.above[i], z)
            &&& forall|i: int| 0 <= i < pieces.below.len() ==> not_over(#[trigger] pieces.below[i], z)
        },
{
}

/// One triangle gives one to three triangles, at most two to one side, and
/// at most one boundary segment.
pub proof fn lemma_split_counts(tri: Triangle3, z: Coord, cuts: PlaneCuts)
    ensures
        split_spec(tri, z, cuts) matches Ok(pieces) ==> {
            &&& 1 <= pieces.above.len() + pieces.below.len() <= 3
            &&& pieces.above.len() <= 2
            &&& pieces.below.len() <= 2
            &&& pieces.edge.len() <= 1
        },
{
}

/// A boundary segment lies in the plane on a side of a triangle of each half
/// to which the split triangle gives a piece: it joins two corners of such
/// a triangle at the height of the plane.
pub proof fn lemma_segment_bounds_pieces(tri: Triangle3, z: Coord, cuts: PlaneCuts)
    ensures
        split_spec(tri, z, cuts) matches Ok(pieces) ==> (pieces.edge.len() == 1 ==> {
            &&& pieces.above.len() > 0 ==> bounds_one_of(pieces.edge[0], z, pieces.above)
            &&& pieces.below.len() > 0 ==> bounds_one_of(pieces.edge[0], z, pieces.below)
        }),
{
    broadcast use Segment::lemma_between_ends;

    match split_spec(tri, z, cuts) {
        Ok(pieces) => {
            if pieces.edge.len() == 1 {
                let seg = pieces.edge[0];
                let a = seg.start().lift(z);
                let b = seg.end().lift(z);
                if pieces.above.len() > 0 {
                    assert(has_corners(pieces.above[0], a, b));
                }
                if pieces.below.len() > 0 {
                    assert(has_corners(pieces.below[pieces.below.len() - 1], a, b));
                }
            }
        },
        Err(_) => {},
    }
}

/// Whether the triangle has a side that runs from `a` to `b` in the order of
/// its corners.
pub open spec fn runs_along(tri: Triangle3, a: Vertex3, b: Vertex3) -> bool {
    let (p, q, r) = (tri.vertices[0], tri.vertices[1], tri.vertices[2]);
    (p == a && q == b) || (q == a && r == b) || (r == a && p == b)
}

/// Whether one of the triangles has a side that runs from `a` to `b`.
pub open spec fn one_runs_along(tris: Seq<Triangle3>, a: Vertex3, b: Vertex3) -> bool {
    exists|i: int| 0 <= i < tris.len() && runs_along(#[trigger] tris[i], a, b)
}

/// Where a triangle is cut in pieces, a piece over the plane and a piece
/// under it have the boundary segment as a side, and run along it in
/// opposite directions, as the two sides of one cut do.
pub proof fn lemma_cut_runs_both_ways(tri: Triangle3, z: Coord, cuts: PlaneCuts)
    ensures
        split_spec(tri, z, cuts) matches Ok(pieces) ==> (pieces.above.len() > 0
            && pieces.below.len() > 0 ==> {
            let a = pieces.edge[0].start().lift(z);
            let b = pieces.edge[0].end().lift(z);
            &&& pieces.edge.len() == 1
            &&& (one_runs_along(pieces.above, a, b) && one_runs_along(pieces.below, b, a))
                || (one_runs_along(pieces.above, b, a) && one_runs_along(pieces.below, a, b))
        }),
{
    broadcast use Segment::lemma_between_ends;

    match split_spec(tri, z, cuts) {
        Ok(pieces) => {
            if pieces.above.len() > 0 && pieces.below.len() > 0 {
                let a = pieces.edge[0].start().lift(z);
                let b = pieces.edge[0].end().lift(z);
                let over = pieces.above[0];
                let under = pieces.below[pieces.below.len() - 1];
                assert((runs_along(over, a, b) && runs_along(under, b, a)) || (runs_along(
                    over,
                    b,
                    a,
                ) && runs_along(under, a, b)));
            }
        },
        Err(_) => {},
    }
}

/// Where one side of the plane gets two pieces of a triangle, the two share
/// a side and run along it in opposite directions, as neighbours in a
/// surface do.
pub proof fn lemma_pieces_fit(tri: Triangle3, z: Coord, cuts: PlaneCuts)
    ensures
        split_spec(tri, z, cuts) matches Ok(pieces) ==> {
            &&& pieces.above.len() == 2 ==> exists|a: Vertex3, b: Vertex3|
                runs_along(pieces.above[0], a, b) && #[trigger] runs_along(pieces.above[1], b, a)
            &&& pieces.below.len() == 2 ==> exists|a: Vertex3, b: Vertex3|
                runs_along(pieces.below[0], a, b) && #[trigger] runs_along(pieces.below[1], b, a)
        },
{
    match split_spec(tri, z, cuts) {
        Ok(pieces) => {
            let (sorted, sense) = reorder_spec(tri);
            let v0 = sorted.vertices[0];
            let v2 = sorted.vertices[2];
            let x = cuts.x.lift(z);
            if pieces.above.len() == 2 {
                if sense {
                    assert(runs_along(pieces.above[0], v2, x) && runs_along(pieces.above[1], x, v2));
                } else {
                    assert(runs_along(pieces.above[0], x, v2) && runs_along(pieces.above[1], v2, x));
                }
            }
            if pieces.below.len() == 2 {
                if sense {
                    assert(runs_along(pieces.below[0], v0, x) && runs_along(pieces.below[1], x, v0));
                } else {
                    assert(runs_along(pieces.below[0], x, v0) && runs_along(pieces.below[1], v0, x));
                }
            }
        },
        Err(_) => {},
    }
}

} // verus!
