//! Planar slicing of triangulated solids.
//!
//! A closed triangle mesh is cut by a plane of constant height. Every triangle
//! is split against the plane ([`split`]), the segments in which triangles
//! cross the plane ([`segment`]) are joined into boundary loops
//! ([`boundary`]), and the loops are closed by flat faces ([`faces`], or the
//! sweep over the boundary edges in [`edge`] and [`sweep`]) so that both
//! halves stay solid. A step that cannot go on says why ([`error`]). That the
//! halves of a closed surface are closed up to the cut is shown in [`solid`].
//!
//! The library never computes with real numbers. A coordinate is an integer
//! that stands for a single-precision number and is ordered like it
//! ([`coord`]); the library compares coordinates and moves them about. Where
//! a new number has to be computed (where an edge meets the plane, how steep
//! an edge is, how high it runs at some position) the caller computes it and
//! hands it in as a coordinate.
//!
//! The loops are found with the help of an R*-tree of the crate `rstar`
//! ([`index`]). What the tree does is taken on trust and written down there;
//! everything else is proved.
use vstd::prelude::*;

pub mod boundary;
pub mod coord;
pub mod edge;
pub mod error;
pub mod faces;
pub mod geom;
pub mod index;
pub mod segment;
pub mod solid;
pub mod split;
pub mod sweep;
