//! Why the halves of a closed surface stay closed up to the cut.
use vstd::prelude::*;
use crate::coord::Coord;
use crate::geom::{Point2, Triangle3, Vertex3};
use crate::split::{cut_plan, one_runs_along, runs_along, split_spec, Pieces, PlaneCuts};

verus! {

/// The cut points of a triangle as a map from edges to points gives them:
/// `cut(low, high)` is the point in which the plane meets the edge from its
/// lower end `low` to its upper end `high`.
pub open spec fn cuts_from(cut: spec_fn(Vertex3, Vertex3) -> Point2, tri: Triangle3, z: Coord) -> PlaneCuts {
    let plan = cut_plan(tri, z);
    PlaneCuts {
        x: match plan.x {
            Some(e) => cut(e.low, e.high),
            None => Point2 { x: 0, y: 0 },
        },
        y: match plan.y {
            Some(e) => cut(e.low, e.high),
            None => Point2 { x: 0, y: 0 },
        },
        near: false,
    }
}

/// Whether the triangle is split in pieces without failure, and not kept
/// whole because its two cut points coincide.
pub open spec fn splits_well(cut: spec_fn(Vertex3, Vertex3) -> Point2, tri: Triangle3, z: Coord) -> bool {
    let plan = cut_plan(tri, z);
    let cuts = cuts_from(cut, tri, z);
    &&& split_spec(tri, z, cuts) is Ok
    &&& plan.x is Some && plan.y is Some ==> cuts.x != cuts.y
}

/// What the triangle gives to the two halves.
pub open spec fn pieces_of(cut: spec_fn(Vertex3, Vertex3) -> Point2, tri: Triangle3, z: Coord) -> Pieces {
    split_spec(tri, z, cuts_from(cut, tri, z))->Ok_0
}

/// Whether the first or the second of the triangles has a side that runs
/// from `a` to `b`.
spec fn first_two_run_along(tris: Seq<Triangle3>, a: Vertex3, b: Vertex3) -> bool {
    (tris.len() >= 1 && runs_along(tris[0], a, b)) || (tris.len() >= 2 && runs_along(tris[1], a, b))
}

proof fn lemma_first_two(tris: Seq<Triangle3>, a: Vertex3, b: Vertex3)
    requires
        first_two_run_along(tris, a, b),
    ensures
        one_runs_along(tris, a, b),
{
    if tris.len() >= 1 && runs_along(tris[0], a, b) {
    } else {
        assert(runs_along(tris[1], a, b));
    }
}

proof fn lemma_sides_are_kept_by_the_first_two(
    cut: spec_fn(Vertex3, Vertex3) -> Point2,
    tri: Triangle3,
    z: Coord,
    p: Vertex3,
    q: Vertex3,
)
    requires
        splits_well(cut, tri, z),
        runs_along(tri, p, q),
    ensures
        p.z >= z && q.z >= z && !(p.z == z && q.z == z) ==> first_two_run_along(
            pieces_of(cut, tri, z).above,
            p,
            q,
        ),
        p.z <= z && q.z <= z && !(p.z == z && q.z == z) ==> first_two_run_along(
            pieces_of(cut, tri, z).below,
            p,
            q,
        ),
        p.z < z < q.z ==> first_two_run_along(pieces_of(cut, tri, z).below, p, cut(p, q).lift(z))
            && first_two_run_along(pieces_of(cut, tri, z).above, cut(p, q).lift(z), q),
        q.z < z < p.z ==> first_two_run_along(pieces_of(cut, tri, z).above, p, cut(q, p).lift(z))
            && first_two_run_along(pieces_of(cut, tri, z).below, cut(q, p).lift(z), q),
{
}

/// Every side of a triangle is a side of its pieces, run in the same
/// direction: whole where the plane does not cut it, in two parts on the
/// two sides of the plane where it does.
pub proof fn lemma_sides_are_kept(
    cut: spec_fn(Vertex3, Vertex3) -> Point2,
    tri: Triangle3,
    z: Coord,
    p: Vertex3,
    q: Vertex3,
)
    requires
        splits_well(cut, tri, z),
        runs_along(tri, p, q),
    ensures
        p.z >= z && q.z >= z && !(p.z == z && q.z == z) ==> one_runs_along(
            pieces_of(cut, tri, z).above,
            p,
            q,
        ),
        p.z <= z && q.z <= z && !(p.z == z && q.z == z) ==> one_runs_along(
            pieces_of(cut, tri, z).below,
            p,
            q,
        ),
        p.z < z < q.z ==> one_runs_along(pieces_of(cut, tri, z).below, p, cut(p, q).lift(z))
            && one_runs_along(pieces_of(cut, tri, z).above, cut(p, q).lift(z), q),
        q.z < z < p.z ==> one_runs_along(pieces_of(cut, tri, z).above, p, cut(q, p).lift(z))
            && one_runs_along(pieces_of(cut, tri, z).below, cut(q, p).lift(z), q),
{
    let pieces = pieces_of(cut, tri, z);
    lemma_sides_are_kept_by_the_first_two(cut, tri, z, p, q);
    if p.z >= z && q.z >= z && !(p.z == z && q.z == z) {
        lemma_first_two(pieces.above, p, q);
    }
    if p.z <= z && q.z <= z && !(p.z == z && q.z == z) {
        lemma_first_two(pieces.below, p, q);
    }
    if p.z < z < q.z {
        lemma_first_two(pieces.below, p, cut(p, q).lift(z));
        lemma_first_two(pieces.above, cut(p, q).lift(z), q);
    }
    if q.z < z < p.z {
        lemma_first_two(pieces.above, p, cut(q, p).lift(z));
        lemma_first_two(pieces.below, cut(q, p).lift(z), q);
    }
}

/// Whether a side from `u` to `v` is what stays over the plane of the side
/// from `p` to `q`: the whole side where neither end lies under the plane,
/// the part behind or in front of the cut point where one does.
pub open spec fn is_upper_part(
    cut: spec_fn(Vertex3, Vertex3) -> Point2,
    z: Coord,
    p: Vertex3,
    q: Vertex3,
    u: Vertex3,
    v: Vertex3,
) -> bool {
    ||| p.z >= z && q.z >= z && u == p && v == q
    ||| p.z < z < q.z && u == cut(p, q).lift(z) && v == q
    ||| q.z < z < p.z && u == p && v == cut(q, p).lift(z)
}

/// Whether a side from `u` to `v` is what stays under the plane of the side
/// from `p` to `q`.
pub open spec fn is_lower_part(
    cut: spec_fn(Vertex3, Vertex3) -> Point2,
    z: Coord,
    p: Vertex3,
    q: Vertex3,
    u: Vertex3,
    v: Vertex3,
) -> bool {
    ||| p.z <= z && q.z <= z && u == p && v == q
    ||| p.z < z < q.z && u == p && v == cut(p, q).lift(z)
    ||| q.z < z < p.z && u == cut(q, p).lift(z) && v == q
}

/// Whether both ends of a side lie in the plane.
pub open spec fn in_plane(z: Coord, u: Vertex3, v: Vertex3) -> bool {
    u.z == z && v.z == z
}

/// A side of a piece over the plane lies in the plane, or is shared with
/// the other piece over the plane, which runs along it the other way, or is
/// what stays over the plane of a side of the whole triangle.
proof fn lemma_upper_sides(
    cut: spec_fn(Vertex3, Vertex3) -> Point2,
    tri: Triangle3,
    z: Coord,
    k: int,
    u: Vertex3,
    v: Vertex3,
)
    requires
        splits_well(cut, tri, z),
        0 <= k < pieces_of(cut, tri, z).above.len(),
        runs_along(pieces_of(cut, tri, z).above[k], u, v),
    ensures
        in_plane(z, u, v) || first_two_run_along(pieces_of(cut, tri, z).above, v, u)
            || is_upper_part(cut, z, tri.vertices[0], tri.vertices[1], u, v) || is_upper_part(
            cut,
            z,
            tri.vertices[1],
            tri.vertices[2],
            u,
            v,
        ) || is_upper_part(cut, z, tri.vertices[2], tri.vertices[0], u, v),
{
}

/// A side of a piece under the plane lies in the plane, or is shared with
/// the other piece under the plane, which runs along it the other way, or
/// is what stays under the plane of a side of the whole triangle.
proof fn lemma_lower_sides(
    cut: spec_fn(Vertex3, Vertex3) -> Point2,
    tri: Triangle3,
    z: Coord,
    k: int,
    u: Vertex3,
    v: Vertex3,
)
    requires
        splits_well(cut, tri, z),
        0 <= k < pieces_of(cut, tri, z).below.len(),
        runs_along(pieces_of(cut, tri, z).below[k], u, v),
    ensures
        in_plane(z, u, v) || first_two_run_along(pieces_of(cut, tri, z).below, v, u)
            || is_lower_part(cut, z, tri.vertices[0], tri.vertices[1], u, v) || is_lower_part(
            cut,
            z,
            tri.vertices[1],
            tri.vertices[2],
            u,
            v,
        ) || is_lower_part(cut, z, tri.vertices[2], tri.vertices[0], u, v),
{
}

/// Whether the mesh is closed: whether every side of one of its triangles
/// is run the other way by one of its triangles.
pub open spec fn is_closed(mesh: Seq<Triangle3>) -> bool {
    forall|i: int, p: Vertex3, q: Vertex3|
        0 <= i < mesh.len() && #[trigger] runs_along(mesh[i], p, q) ==> exists|j: int|
            0 <= j < mesh.len() && #[trigger] runs_along(mesh[j], q, p)
}

/// Whether every triangle of the mesh is split in pieces without failure,
/// and none is kept whole because its two cut points coincide.
pub open spec fn all_split_well(
    cut: spec_fn(Vertex3, Vertex3) -> Point2,
    mesh: Seq<Triangle3>,
    z: Coord,
) -> bool {
    forall|i: int| 0 <= i < mesh.len() ==> splits_well(cut, #[trigger] mesh[i], z)
}

/// Whether a triangle that the mesh gives to the half over the plane has a
/// side that runs from `a` to `b`.
pub open spec fn upper_runs_along(
    cut: spec_fn(Vertex3, Vertex3) -> Point2,
    mesh: Seq<Triangle3>,
    z: Coord,
    a: Vertex3,
    b: Vertex3,
) -> bool {
    exists|i: int|
        0 <= i < mesh.len() && one_runs_along(pieces_of(cut, #[trigger] mesh[i], z).above, a, b)
}

/// Whether a triangle that the mesh gives to the half under the plane has a
/// side that runs from `a` to `b`.
pub open spec fn lower_runs_along(
    cut: spec_fn(Vertex3, Vertex3) -> Point2,
    mesh: Seq<Triangle3>,
    z: Coord,
    a: Vertex3,
    b: Vertex3,
) -> bool {
    exists|i: int|
        0 <= i < mesh.len() && one_runs_along(pieces_of(cut, #[trigger] mesh[i], z).below, a, b)
}

/// The half over the plane of a closed mesh is closed up to the cut: every
/// side of one of its triangles that does not lie in the plane is run the
/// other way by one of its triangles. The plane has to meet every edge in
/// one point, whichever triangle the edge is a side of, and no triangle may
/// be kept whole for a sliver.
pub proof fn lemma_upper_half_is_closed(
    cut: spec_fn(Vertex3, Vertex3) -> Point2,
    mesh: Seq<Triangle3>,
    z: Coord,
    a: Vertex3,
    b: Vertex3,
)
    requires
        is_closed(mesh),
        all_split_well(cut, mesh, z),
        upper_runs_along(cut, mesh, z, a, b),
        !in_plane(z, a, b),
    ensures
        upper_runs_along(cut, mesh, z, b, a),
{
    let i = choose|i: int|
        0 <= i < mesh.len() && one_runs_along(pieces_of(cut, #[trigger] mesh[i], z).above, a, b);
    let tri = mesh[i];
    let above = pieces_of(cut, tri, z).above;
    let k = choose|k: int| 0 <= k < above.len() && runs_along(#[trigger] above[k], a, b);
    lemma_upper_sides(cut, tri, z, k, a, b);
    if first_two_run_along(above, b, a) {
        lemma_first_two(above, b, a);
    } else {
        let (p, q) = if is_upper_part(cut, z, tri.vertices[0], tri.vertices[1], a, b) {
            (tri.vertices[0], tri.vertices[1])
        } else if is_upper_part(cut, z, tri.vertices[1], tri.vertices[2], a, b) {
            (tri.vertices[1], tri.vertices[2])
        } else {
            (tri.vertices[2], tri.vertices[0])
        };
        assert(runs_along(tri, p, q));
        let j = choose|j: int| 0 <= j < mesh.len() && #[trigger] runs_along(mesh[j], q, p);
        lemma_sides_are_kept(cut, mesh[j], z, q, p);
        assert(one_runs_along(pieces_of(cut, mesh[j], z).above, b, a));
    }
}

/// The half under the plane of a closed mesh is closed up to the cut (see
/// [`lemma_upper_half_is_closed`]).
pub proof fn lemma_lower_half_is_closed(
    cut: spec_fn(Vertex3, Vertex3) -> Point2,
    mesh: Seq<Triangle3>,
    z: Coord,
    a: Vertex3,
    b: Vertex3,
)
    requires
        is_closed(mesh),
        all_split_well(cut, mesh, z),
        lower_runs_along(cut, mesh, z, a, b),
        !in_plane(z, a, b),
    ensures
        lower_runs_along(cut, mesh, z, b, a),
{
    let i = choose|i: int|
        0 <= i < mesh.len() && one_runs_along(pieces_of(cut, #[trigger] mesh[i], z).below, a, b);
    let tri = mesh[i];
    let below = pieces_of(cut, tri, z).below;
    let k = choose|k: int| 0 <= k < below.len() && runs_along(#[trigger] below[k], a, b);
    lemma_lower_sides(cut, tri, z, k, a, b);
    if first_two_run_along(below, b, a) {
        lemma_first_two(below, b, a);
    } else {
        let (p, q) = if is_lower_part(cut, z, tri.vertices[0], tri.vertices[1], a, b) {
            (tri.vertices[0], tri.vertices[1])
        } else if is_lower_part(cut, z, tri.vertices[1], tri.vertices[2], a, b) {
            (tri.vertices[1], tri.vertices[2])
        } else {
            (tri.vertices[2], tri.vertices[0])
        };
        assert(runs_along(tri, p, q));
        let j = choose|j: int| 0 <= j < mesh.len() && #[trigger] runs_along(mesh[j], q, p);
        lemma_sides_are_kept(cut, mesh[j], z, q, p);
        assert(one_runs_along(pieces_of(cut, mesh[j], z).below, b, a));
    }
}

} // verus!
