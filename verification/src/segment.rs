//! Boundary segments: where one triangle crosses the cutting plane.
use vstd::prelude::*;
use crate::error::SliceError;
use crate::geom::{Point2, Vertex3};

verus! {

/// A directed pair of distinct points of the cutting plane.
///
/// The two ends of a segment never coincide: [`Segment::new`] is the only way
/// to make one, and it refuses equal ends.
#[derive(Clone, Copy, Debug, PartialEq, Eq)]
pub struct Segment {
    a: Point2,
    b: Point2,
}

impl Segment {
    #[verifier::type_invariant]
    spec fn ends_differ(self) -> bool {
        self.a != self.b
    }

    /// The point the segment starts in.
    pub closed spec fn start(self) -> Point2 {
        self.a
    }

    /// The point the segment ends in.
    pub closed spec fn end(self) -> Point2 {
        self.b
    }

    /// The segment from `a` to `b`.
    pub closed spec fn between(a: Point2, b: Point2) -> Segment {
        Segment { a, b }
    }

    /// Whether the segment starts or ends in `p`.
    pub open spec fn touches(self, p: Point2) -> bool {
        self.start() == p || self.end() == p
    }

    /// The end of the segment that is not `from`; the start, where `from` is
    /// neither end.
    pub open spec fn other_spec(self, from: Point2) -> Point2 {
        if self.start() == from {
            self.end()
        } else {
            self.start()
        }
    }

    /// A segment is known by its two ends.
    pub broadcast proof fn lemma_between_ends(a: Point2, b: Point2)
        ensures
            (#[trigger] Segment::between(a, b)).start() == a,
            Segment::between(a, b).end() == b,
    {
    }

    /// Two segments with the same ends are the same segment.
    pub proof fn lemma_same_ends(s: Segment, t: Segment)
        requires
            s.start() == t.start(),
            s.end() == t.end(),
        ensures
            s == t,
    {
    }

    /// The segment between the points below two vertices, in that order.
    /// Fails with [`SliceError::DegenerateSegment`] exactly when the two
    /// points coincide.
    pub fn new(v1: &Vertex3, v2: &Vertex3) -> (r: Result<Segment, SliceError>)
        ensures
            v1.project() != v2.project() ==> r == Ok::<Segment, SliceError>(
                Segment::between(v1.project(), v2.project()),
            ),
            v1.project() == v2.project() ==> r == Err::<Segment, SliceError>(
                SliceError::DegenerateSegment { at: v1.project() },
            ),
    {
        if v1.x == v2.x && v1.y == v2.y {
            Err(SliceError::DegenerateSegment { at: Point2 { x: v1.x, y: v1.y } })
        } else {
            Ok(Segment { a: Point2 { x: v1.x, y: v1.y }, b: Point2 { x: v2.x, y: v2.y } })
        }
    }

    /// The point the segment starts in.
    pub fn a(&self) -> (p: Point2)
        ensures
            p == self.start(),
            self.start() != self.end(),
    {
        proof {
            use_type_invariant(self);
        }
        self.a
    }

    /// The point the segment ends in.
    pub fn b(&self) -> (p: Point2)
        ensures
            p == self.end(),
            self.start() != self.end(),
    {
        proof {
            use_type_invariant(self);
        }
        self.b
    }

    /// The end of the segment that is not `from`; the start, where `from` is
    /// neither end.
    pub fn other(&self, from: &Point2) -> (p: Point2)
        ensures
            p == self.other_spec(*from),
            self.start() != self.end(),
    {
        proof {
            use_type_invariant(self);
        }
        if self.a.x == from.x && self.a.y == from.y {
            self.b
        } else {
            self.a
        }
    }
}

/// The boundary segment between the points below two vertices, unless the
/// two points coincide or are `near` enough to count as one.
pub fn build_seg(x: &Vertex3, y: &Vertex3, near: bool) -> (r: Option<Segment>)
    ensures
        near || x.project() == y.project() ==> r is None,
        !near && x.project() != y.project() ==> r == Some(
            Segment::between(x.project(), y.project()),
        ),
{
    if near {
        None
    } else {
        match Segment::new(x, y) {
            Ok(seg) => Some(seg),
            Err(_) => None,
        }
    }
}

} // verus!
