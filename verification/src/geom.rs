//! Points, vertices and triangles.
use vstd::prelude::*;
use crate::coord::Coord;

verus! {

/// A point of the cutting plane.
#[derive(Clone, Copy, Debug, PartialEq, Eq, Hash, Structural)]
pub struct Point2 {
    pub x: Coord,
    pub y: Coord,
}

/// A vertex of a mesh, or a direction in space. The third coordinate is the
/// height, the axis along which the cutting plane is placed.
#[derive(Clone, Copy, Debug, PartialEq, Eq, Hash, Structural)]
pub struct Vertex3 {
    pub x: Coord,
    pub y: Coord,
    pub z: Coord,
}

/// A triangle of a mesh. The order of its vertices gives its outward side;
/// the normal is carried along as given.
#[derive(Clone, Copy, Debug, PartialEq, Eq)]
pub struct Triangle3 {
    pub normal: Vertex3,
    pub vertices: [Vertex3; 3],
}

impl Point2 {
    /// The vertex above this point at the given height.
    pub open spec fn lift_spec(self, z: Coord) -> Vertex3 {
        Vertex3 { x: self.x, y: self.y, z }
    }

    /// Whether this point comes before the other one, or is the same, when
    /// points are ordered by `x` and then by `y`.
    pub open spec fn lex_le_spec(self, other: Point2) -> bool {
        self.x < other.x || (self.x == other.x && self.y <= other.y)
    }

    /// The vertex above this point at the given height.
    #[verifier::when_used_as_spec(lift_spec)]
    pub fn lift(self, z: Coord) -> (v: Vertex3)
        ensures
            v == self.lift_spec(z),
    {
        Vertex3 { x: self.x, y: self.y, z }
    }

    /// Whether this point comes before the other one, or is the same, when
    /// points are ordered by `x` and then by `y`.
    #[verifier::when_used_as_spec(lex_le_spec)]
    pub fn lex_le(self, other: Point2) -> (r: bool)
        ensures
            r == self.lex_le_spec(other),
    {
        self.x < other.x || (self.x == other.x && self.y <= other.y)
    }
}

impl Vertex3 {
    /// The point of the plane below or above this vertex.
    pub open spec fn project_spec(self) -> Point2 {
        Point2 { x: self.x, y: self.y }
    }

    /// The point of the plane below or above this vertex.
    #[verifier::when_used_as_spec(project_spec)]
    pub fn project(self) -> (p: Point2)
        ensures
            p == self.project_spec(),
    {
        Point2 { x: self.x, y: self.y }
    }
}

impl Triangle3 {
    /// The triangle with the given normal and corners.
    pub open spec fn of(normal: Vertex3, v0: Vertex3, v1: Vertex3, v2: Vertex3) -> Triangle3 {
        Triangle3 { normal, vertices: [v0, v1, v2] }
    }
}

} // verus!
