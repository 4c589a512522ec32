//! The conditions under which a slicing run fails.
use vstd::prelude::*;
use crate::edge::Edge;
use crate::geom::Point2;

verus! {

/// Why a step of a slicing run failed.
#[derive(Clone, Copy, Debug, PartialEq, Eq, Structural)]
pub enum SliceError {
    /// A boundary segment was asked for from the point `at` to itself.
    DegenerateSegment { at: Point2 },
    /// More than two boundary segments meet in one point: `from` is the
    /// segment that was followed into the point, `first` and `second` are two
    /// further segments that end there.
    BranchingBoundary { from: usize, first: usize, second: usize },
    /// The edge touches a strip of the sweep without continuing it.
    CrossingEdge { edge: Edge },
    /// The edge opens a strip, and the edge `next` behind it does not start
    /// or end in the point in which it starts.
    UnmatchedEdge { edge: Edge, next: Edge },
    /// The edge opens a strip and has no edge behind it, or it is the last
    /// edge of the upper chain of a strip that was still open when the edges
    /// ran out.
    DanglingEdge { edge: Edge },
    /// The loop with the given position in its list does not return to its
    /// first point.
    OpenLoop { index: usize },
}

} // verus!
