//! A spatial index over tagged points of the cutting plane.
use vstd::prelude::*;
use vstd::multiset::Multiset;
use crate::coord::Coord;

verus! {

/// An `rstar::RTree` of points, each with a tag. A point may be held more
/// than once, under one tag or several. The tree holds the coordinates in a
/// wider integer type, in which the squares and products that it forms of
/// their differences have room.
#[verifier::external_body]
pub struct PointIndex {
    tree: rstar::RTree<rstar::primitives::GeomWithData<[i128; 2], (usize, i32, i32)>>,
}

/// What the index holds: for each entry its tag and the two coordinates of
/// its point.
pub uninterp spec fn index_entries(index: PointIndex) -> Multiset<(usize, Coord, Coord)>;

/// The square of the distance between two points.
pub open spec fn distance_2(ax: Coord, ay: Coord, bx: Coord, by: Coord) -> int {
    (ax - bx) * (ax - bx) + (ay - by) * (ay - by)
}

/// `rstar::RTree::new`: a tree that holds nothing.
#[verifier::external_body]
pub(crate) fn index_new() -> (index: PointIndex)
    ensures
        index_entries(index) == Multiset::<(usize, Coord, Coord)>::empty(),
{
    PointIndex { tree: rstar::RTree::new() }
}

/// `rstar::RTree::insert`: the tree holds one entry more, the point with its
/// tag, also where it held an equal one before.
#[verifier::external_body]
pub(crate) fn index_insert(index: &mut PointIndex, tag: usize, x: Coord, y: Coord)
    ensures
        index_entries(*final(index)) == index_entries(*old(index)).insert((tag, x, y)),
{
    index.tree.insert(rstar::primitives::GeomWithData::new([x as i128, y as i128], (tag, x, y)))
}

/// `rstar::RTree::size`: the number of entries, each counted as often as it
/// is held.
#[verifier::external_body]
pub(crate) fn index_size(index: &PointIndex) -> (n: usize)
    ensures
        n == index_entries(*index).len(),
{
    index.tree.size()
}

/// `rstar::RTree::pop_nearest_neighbor`: takes out and returns one entry
/// whose point no other entry is closer to `(x, y)` than; which one among
/// several at the same distance is open. Returns nothing, and changes
/// nothing, where the tree is empty.
#[verifier::external_body]
pub(crate) fn index_pop_nearest(index: &mut PointIndex, x: Coord, y: Coord) -> (r: Option<
    (usize, Coord, Coord),
>)
    ensures
        match r {
            Some(e) => {
                &&& index_entries(*old(index)).count(e) > 0
                &&& index_entries(*final(index)) == index_entries(*old(index)).remove(e)
                &&& forall|o: (usize, Coord, Coord)| #[trigger]
                    index_entries(*old(index)).count(o) > 0 ==> distance_2(e.1, e.2, x, y)
                        <= distance_2(o.1, o.2, x, y)
            },
            None => {
                &&& index_entries(*old(index)).len() == 0
                &&& index_entries(*final(index)) == index_entries(*old(index))
            },
        },
{
    index.tree.pop_nearest_neighbor([x as i128, y as i128]).map(|e| e.data)
}

/// `rstar::RTree::remove`: takes out one entry with this tag and point, and
/// tells whether there was one.
#[verifier::external_body]
pub(crate) fn index_remove(index: &mut PointIndex, tag: usize, x: Coord, y: Coord) -> (r: bool)
    ensures
        r == (index_entries(*old(index)).count((tag, x, y)) > 0),
        index_entries(*final(index)) == index_entries(*old(index)).remove((tag, x, y)),
{
    index.tree.remove(&rstar::primitives::GeomWithData::new([x as i128, y as i128], (tag, x, y))).is_some()
}

/// `rstar::RTree::locate_all_at_point`: the tags of all entries whose point
/// is `(x, y)`, each as often as the tree holds it there, in no stated order.
#[verifier::external_body]
pub(crate) fn index_locate_all(index: &PointIndex, x: Coord, y: Coord) -> (tags: Vec<usize>)
    ensures
        forall|tag: usize| #[trigger]
            tags@.to_multiset().count(tag) == index_entries(*index).count((tag, x, y)),
{
    index.tree.locate_all_at_point([x as i128, y as i128]).map(|e| e.data.0).collect()
}

} // verus!
