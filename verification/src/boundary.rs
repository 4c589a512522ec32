//! Joining boundary segments into loops.
use vstd::prelude::*;
use crate::coord::Coord;
use crate::error::SliceError;
use crate::geom::Point2;
use crate::index::{
    distance_2, index_entries, index_insert, index_locate_all, index_new, index_pop_nearest,
    index_remove, index_size, PointIndex,
};
use crate::segment::Segment;

verus! {

/// A walk along boundary segments, from point to point. It is closed where
/// its last point is its first.
#[derive(Clone, Debug, PartialEq, Eq)]
pub struct Loop {
    pub pts: Vec<Point2>,
    pub closed: bool,
}

/// The point of an entry of the index.
spec fn point_of(e: (usize, Coord, Coord)) -> Point2 {
    Point2 { x: e.1, y: e.2 }
}

/// The square of the distance of a point from the origin.
pub open spec fn origin_distance_2(p: Point2) -> int {
    distance_2(p.x, p.y, 0, 0)
}

/// Whether `pts` are the points that one passes on the segments `route`, one
/// after the other, each left by the end that it was not entered by.
pub open spec fn is_path(segs: Seq<Segment>, route: Seq<int>, pts: Seq<Point2>) -> bool {
    &&& pts.len() == route.len() + 1
    &&& forall|i: int|
        0 <= i < route.len() ==> {
            &&& 0 <= #[trigger] route[i] < segs.len()
            &&& segs[route[i]].touches(pts[i])
            &&& pts[i + 1] == segs[route[i]].other_spec(pts[i])
        }
}

/// Whether `pts` are the points of a path along at least one segment.
pub open spec fn is_walk(segs: Seq<Segment>, route: Seq<int>, pts: Seq<Point2>) -> bool {
    route.len() >= 1 && is_path(segs, route, pts)
}

/// Whether the segment `s` lies on one of the routes.
pub open spec fn on_route(routes: Seq<Seq<int>>, s: int) -> bool {
    exists|k: int, i: int|
        0 <= k < routes.len() && 0 <= i < routes[k].len() && #[trigger] routes[k][i] == s
}

/// Whether each loop is a walk along its route, closed exactly where it
/// returns to its first point.
pub open spec fn walks_along(segs: Seq<Segment>, loops: Seq<Loop>, routes: Seq<Seq<int>>) -> bool {
    &&& routes.len() == loops.len()
    &&& forall|k: int|
        0 <= k < loops.len() ==> {
            &&& is_walk(segs, #[trigger] routes[k], loops[k].pts@)
            &&& loops[k].closed == (loops[k].pts@.first() == loops[k].pts@.last())
        }
}

/// Whether no segment lies on two routes, or twice on one.
pub open spec fn routes_apart(routes: Seq<Seq<int>>) -> bool {
    forall|k: int, i: int, l: int, j: int|
        0 <= k < routes.len() && 0 <= i < routes[k].len() && 0 <= l < routes.len() && 0 <= j
            < routes[l].len() && #[trigger] routes[k][i] == #[trigger] routes[l][j] ==> k == l && i
            == j
}

/// Whether no segment touches a point behind the first of a loop of an
/// earlier route.
pub open spec fn ends_clear(segs: Seq<Segment>, loops: Seq<Loop>, routes: Seq<Seq<int>>) -> bool {
    forall|k: int, l: int, j: int, q: int|
        0 <= k < l < routes.len() && 0 <= j < routes[l].len() && 1 <= q < loops[k].pts@.len()
            ==> !segs[#[trigger] routes[l][j]].touches(#[trigger] loops[k].pts@[q])
}

/// Whether a walk never comes back to a point that it has left: no segment
/// of the route touches a point that lies behind the first and in front of
/// the one in which the segment is entered.
pub open spec fn passes_once(segs: Seq<Segment>, route: Seq<int>, pts: Seq<Point2>) -> bool {
    forall|q: int, j: int|
        1 <= q < j < route.len() ==> !segs[#[trigger] route[j]].touches(#[trigger] pts[q])
}

/// Whether every loop passes its points once (see [`passes_once`]).
pub open spec fn pass_once(segs: Seq<Segment>, loops: Seq<Loop>, routes: Seq<Seq<int>>) -> bool {
    forall|k: int|
        0 <= k < loops.len() ==> passes_once(segs, #[trigger] routes[k], loops[k].pts@)
}

/// Whether `p` is as close to the origin as both ends of `seg`.
pub open spec fn no_farther(p: Point2, seg: Segment) -> bool {
    origin_distance_2(p) <= origin_distance_2(seg.start()) && origin_distance_2(p)
        <= origin_distance_2(seg.end())
}

/// Whether each loop starts in a point that is as close to the origin as
/// any end of a segment of its own or a later route.
pub open spec fn seeds_nearest(segs: Seq<Segment>, loops: Seq<Loop>, routes: Seq<Seq<int>>) -> bool {
    forall|k: int, l: int, j: int|
        0 <= k <= l < routes.len() && 0 <= j < routes[l].len() ==> no_farther(
            (#[trigger] loops[k]).pts@.first(),
            segs[#[trigger] routes[l][j]],
        )
}

/// Whether `loops` are the walks along `routes` that the loop builder makes
/// of `segs`:
/// each loop is a walk along its route and closed exactly where it returns
/// to its first point; every segment lies on exactly one route, once; where
/// a walk has come to a point, exactly one segment not yet walked touches
/// the point and is walked next, or none does and the walk ends, so that no
/// segment walked later touches that point; and each walk starts in a point
/// that is as close to the origin as any end of a segment of its own or a
/// later route.
pub open spec fn traced(segs: Seq<Segment>, loops: Seq<Loop>, routes: Seq<Seq<int>>) -> bool {
    &&& walks_along(segs, loops, routes)
    &&& forall|s: int| 0 <= s < segs.len() ==> #[trigger] on_route(routes, s)
    &&& routes_apart(routes)
    &&& pass_once(segs, loops, routes)
    &&& ends_clear(segs, loops, routes)
    &&& seeds_nearest(segs, loops, routes)
}

/// Whether `loops` are walks that the loop builder may have made of `segs`
/// (see [`traced`]).
pub open spec fn walked_out(segs: Seq<Segment>, loops: Seq<Loop>) -> bool {
    exists|routes: Seq<Seq<int>>| traced(segs, loops, routes)
}

/// Whether three different segments of `segs` touch one point.
pub open spec fn is_hub(segs: Seq<Segment>, i: int, j: int, k: int) -> bool {
    &&& 0 <= i < segs.len() && 0 <= j < segs.len() && 0 <= k < segs.len()
    &&& i != j && i != k && j != k
    &&& exists|p: Point2| #[trigger] segs[i].touches(p) && segs[j].touches(p) && segs[k].touches(p)
}

/// Whether some point is touched by three different segments of `segs`.
pub open spec fn has_hub(segs: Seq<Segment>) -> bool {
    exists|i: int, j: int, k: int| is_hub(segs, i, j, k)
}

/// Whether the entry is an end of a segment that has not been walked.
spec fn live(segs: Seq<Segment>, walked: Seq<bool>, e: (usize, Coord, Coord)) -> bool {
    &&& e.0 < segs.len()
    &&& !walked[e.0 as int]
    &&& segs[e.0 as int].touches(point_of(e))
}

/// Whether the index holds the ends of the segments that have not been
/// walked, each once, but for the entry `taken`.
spec fn holds_live(
    index: PointIndex,
    segs: Seq<Segment>,
    walked: Seq<bool>,
    taken: Option<(usize, Coord, Coord)>,
) -> bool {
    forall|e: (usize, Coord, Coord)| #[trigger]
        index_entries(index).count(e) == (if live(segs, walked, e) && Some(e) != taken {
            1nat
        } else {
            0nat
        })
}

/// Whether the segments on the routes are the ones that have been walked.
spec fn routes_cover(segs: Seq<Segment>, routes: Seq<Seq<int>>, walked: Seq<bool>) -> bool {
    &&& walked.len() == segs.len()
    &&& forall|k: int, i: int|
        0 <= k < routes.len() && 0 <= i < routes[k].len() ==> 0 <= #[trigger] routes[k][i]
            < segs.len() && walked[routes[k][i]]
    &&& forall|s: int| 0 <= s < segs.len() && walked[s] ==> #[trigger] on_route(routes, s)
}

/// Whether no segment that has not been walked touches a point behind the
/// first of a loop, and each loop starts as close to the origin as any end
/// of such a segment.
spec fn clear_of_rest(segs: Seq<Segment>, loops: Seq<Loop>, walked: Seq<bool>) -> bool {
    &&& forall|k: int, s: int, q: int|
        0 <= k < loops.len() && 0 <= s < segs.len() && !#[trigger] walked[s] && 1 <= q
            < loops[k].pts@.len() ==> !segs[s].touches(#[trigger] loops[k].pts@[q])
    &&& forall|k: int, s: int|
        0 <= k < loops.len() && 0 <= s < segs.len() && !#[trigger] walked[s] ==> no_farther(
            (#[trigger] loops[k]).pts@.first(),
            segs[s],
        )
}

/// What holds of the loops made so far and their routes while segments are
/// left: as [`traced`], with the segments that have not been walked in the
/// place of those of later routes.
spec fn traced_so_far(
    segs: Seq<Segment>,
    loops: Seq<Loop>,
    routes: Seq<Seq<int>>,
    walked: Seq<bool>,
) -> bool {
    &&& walks_along(segs, loops, routes)
    &&& routes_cover(segs, routes, walked)
    &&& routes_apart(routes)
    &&& pass_once(segs, loops, routes)
    &&& ends_clear(segs, loops, routes)
    &&& seeds_nearest(segs, loops, routes)
    &&& clear_of_rest(segs, loops, walked)
}

/// Whether every segment of `segs` has two different ends.
pub open spec fn ends_differ(segs: Seq<Segment>) -> bool {
    forall|i: int| 0 <= i < segs.len() ==> (#[trigger] segs[i]).start() != segs[i].end()
}

/// What holds of a walk that has come to its end, against the state before
/// it began.
spec fn walk_done(
    segs: Seq<Segment>,
    walked0: Seq<bool>,
    added: Loop,
    route: Seq<int>,
    walked: Seq<bool>,
) -> bool {
    &&& walked.len() == segs.len()
    &&& walked0.len() == segs.len()
    &&& forall|s: int| 0 <= s < segs.len() && walked0[s] ==> #[trigger] walked[s]
    &&& forall|s: int| 0 <= s < segs.len() && #[trigger] walked[s] && !walked0[s] ==> route.contains(s)
    &&& forall|i: int|
        0 <= i < route.len() ==> 0 <= #[trigger] route[i] < segs.len() && walked[route[i]]
            && !walked0[route[i]]
    &&& route.no_duplicates()
    &&& is_walk(segs, route, added.pts@)
    &&& added.closed == (added.pts@.first() == added.pts@.last())
    &&& passes_once(segs, route, added.pts@)
    &&& forall|s: int, q: int|
        0 <= s < segs.len() && !#[trigger] walked[s] && 1 <= q < added.pts@.len()
            ==> !segs[s].touches(#[trigger] added.pts@[q])
    &&& forall|s: int|
        0 <= s < segs.len() && !#[trigger] walked0[s] ==> no_farther(added.pts@.first(), segs[s])
}

proof fn lemma_added_walks(
    segs: Seq<Segment>,
    loops: Seq<Loop>,
    routes: Seq<Seq<int>>,
    walked0: Seq<bool>,
    added: Loop,
    route: Seq<int>,
    walked: Seq<bool>,
)
    requires
        traced_so_far(segs, loops, routes, walked0),
        walk_done(segs, walked0, added, route, walked),
    ensures
        walks_along(segs, loops.push(added), routes.push(route)),
        routes_cover(segs, routes.push(route), walked),
        pass_once(segs, loops.push(added), routes.push(route)),
{
    let loops2 = loops.push(added);
    let routes2 = routes.push(route);
    let m = loops.len() as int;
    assert forall|k: int| 0 <= k < loops2.len() implies passes_once(
        segs,
        #[trigger] routes2[k],
        loops2[k].pts@,
    ) by {
        if k < m {
            assert(routes2[k] == routes[k] && loops2[k] == loops[k]);
        }
    }
    assert forall|k: int| 0 <= k < loops2.len() implies {
        &&& is_walk(segs, #[trigger] routes2[k], loops2[k].pts@)
        &&& loops2[k].closed == (loops2[k].pts@.first() == loops2[k].pts@.last())
    } by {
        if k < m {
            assert(routes2[k] == routes[k] && loops2[k] == loops[k]);
        }
    }
    assert forall|k: int, i: int| 0 <= k < routes2.len() && 0 <= i < routes2[k].len() implies 0
        <= #[trigger] routes2[k][i] < segs.len() && walked[routes2[k][i]] by {
        if k < m {
            assert(routes2[k] == routes[k]);
            assert(walked0[routes[k][i]]);
        }
    }
    assert forall|s: int| 0 <= s < segs.len() && walked[s] implies #[trigger] on_route(routes2, s) by {
        if walked0[s] {
            assert(on_route(routes, s));
            let (k, i) = choose|k: int, i: int|
                0 <= k < routes.len() && 0 <= i < routes[k].len() && #[trigger] routes[k][i] == s;
            assert(routes2[k][i] == s);
        } else {
            assert(route.contains(s));
            let i = choose|i: int| 0 <= i < route.len() && route[i] == s;
            assert(routes2[m][i] == s);
        }
    }
}

proof fn lemma_added_apart(
    segs: Seq<Segment>,
    loops: Seq<Loop>,
    routes: Seq<Seq<int>>,
    walked0: Seq<bool>,
    added: Loop,
    route: Seq<int>,
    walked: Seq<bool>,
)
    requires
        traced_so_far(segs, loops, routes, walked0),
        walk_done(segs, walked0, added, route, walked),
    ensures
        routes_apart(routes.push(route)),
{
    let routes2 = routes.push(route);
    let m = routes.len() as int;
    assert forall|k: int, i: int, l: int, j: int|
        0 <= k < routes2.len() && 0 <= i < routes2[k].len() && 0 <= l < routes2.len() && 0 <= j
            < routes2[l].len() && #[trigger] routes2[k][i] == #[trigger] routes2[l][j] implies k == l
        && i == j by {
        if k < m {
            assert(routes2[k] == routes[k]);
            assert(walked0[routes[k][i]]);
        } else {
            assert(!walked0[route[i]]);
        }
        if l < m {
            assert(routes2[l] == routes[l]);
            assert(walked0[routes[l][j]]);
        } else {
            assert(!walked0[route[j]]);
        }
    }
}

proof fn lemma_added_clear(
    segs: Seq<Segment>,
    loops: Seq<Loop>,
    routes: Seq<Seq<int>>,
    walked0: Seq<bool>,
    added: Loop,
    route: Seq<int>,
    walked: Seq<bool>,
)
    requires
        traced_so_far(segs, loops, routes, walked0),
        walk_done(segs, walked0, added, route, walked),
    ensures
        ends_clear(segs, loops.push(added), routes.push(route)),
        seeds_nearest(segs, loops.push(added), routes.push(route)),
        clear_of_rest(segs, loops.push(added), walked),
{
    let loops2 = loops.push(added);
    let routes2 = routes.push(route);
    let m = loops.len() as int;
    assert forall|k: int, l: int, j: int, q: int|
        0 <= k < l < routes2.len() && 0 <= j < routes2[l].len() && 1 <= q
            < loops2[k].pts@.len() implies !segs[#[trigger] routes2[l][j]].touches(
        #[trigger] loops2[k].pts@[q],
    ) by {
        assert(loops2[k] == loops[k]);
        if l < m {
            assert(routes2[l] == routes[l]);
            assert(!segs[routes[l][j]].touches(loops[k].pts@[q]));
        } else {
            assert(!walked0[route[j]]);
            assert(!segs[route[j]].touches(loops[k].pts@[q]));
        }
    }
    assert forall|k: int, l: int, j: int|
        0 <= k <= l < routes2.len() && 0 <= j < routes2[l].len() implies no_farther(
        (#[trigger] loops2[k]).pts@.first(),
        segs[#[trigger] routes2[l][j]],
    ) by {
        if l < m {
            assert(routes2[l] == routes[l] && loops2[k] == loops[k]);
        } else {
            assert(!walked0[route[j]]);
            if k < m {
                assert(loops2[k] == loops[k]);
            }
        }
    }
    assert forall|k: int, s: int, q: int|
        0 <= k < loops2.len() && 0 <= s < segs.len() && !#[trigger] walked[s] && 1 <= q
            < loops2[k].pts@.len() implies !segs[s].touches(#[trigger] loops2[k].pts@[q]) by {
        assert(!walked0[s]);
        if k < m {
            assert(loops2[k] == loops[k]);
            assert(!segs[s].touches(loops[k].pts@[q]));
        }
    }
    assert forall|k: int, s: int|
        0 <= k < loops2.len() && 0 <= s < segs.len() && !#[trigger] walked[s] implies no_farther(
        (#[trigger] loops2[k]).pts@.first(),
        segs[s],
    ) by {
        assert(!walked0[s]);
        if k < m {
            assert(loops2[k] == loops[k]);
        }
    }
}

/// Whether every point that a segment of `segs` touches is touched by two
/// of them and no more, as it is in the cut through a closed surface.
pub open spec fn joined_in_pairs(segs: Seq<Segment>) -> bool {
    &&& forall|i: int, p: Point2|
        0 <= i < segs.len() && #[trigger] segs[i].touches(p) ==> exists|j: int|
            0 <= j < segs.len() && j != i && #[trigger] segs[j].touches(p)
    &&& !has_hub(segs)
}

/// Whether every loop is closed.
pub open spec fn all_closed(loops: Seq<Loop>) -> bool {
    forall|k: int| 0 <= k < loops.len() ==> (#[trigger] loops[k]).closed
}

proof fn lemma_no_hub(segs: Seq<Segment>, i: int, j: int, k: int, p: Point2)
    requires
        !has_hub(segs),
        0 <= i < segs.len(),
        0 <= j < segs.len(),
        0 <= k < segs.len(),
        segs[i].touches(p),
        segs[j].touches(p),
        segs[k].touches(p),
    ensures
        i == j || i == k || j == k,
{
    if i != j && i != k && j != k {
        assert(is_hub(segs, i, j, k));
    }
}

/// Loops that were walked out of segments joined in pairs return to their
/// first point: the loop with the position `k` is closed.
pub proof fn lemma_paired_loop_closes(
    segs: Seq<Segment>,
    loops: Seq<Loop>,
    routes: Seq<Seq<int>>,
    k: int,
)
    requires
        ends_differ(segs),
        joined_in_pairs(segs),
        traced(segs, loops, routes),
        0 <= k < loops.len(),
    ensures
        loops[k].closed,
    decreases k,
{
    let route = routes[k];
    let pts = loops[k].pts@;
    let m = route.len() as int;
    let s = route[m - 1];
    let pm = pts[m];
    assert(is_walk(segs, route, pts));
    assert(0 <= s < segs.len() && segs[s].touches(pts[m - 1]) && pm == segs[s].other_spec(
        pts[m - 1],
    ));
    assert(segs[s].touches(pm) && pm != pts[m - 1]);
    let j = choose|j: int| 0 <= j < segs.len() && j != s && #[trigger] segs[j].touches(pm);
    assert(on_route(routes, j));
    let (l, i) = choose|l: int, i: int|
        0 <= l < routes.len() && 0 <= i < routes[l].len() && #[trigger] routes[l][i] == j;
    let other = loops[l].pts@;
    let ml = routes[l].len() as int;
    assert(is_walk(segs, routes[l], other));
    assert(segs[j].touches(other[i]) && other[i + 1] == segs[j].other_spec(other[i]));
    let q = if other[i] == pm {
        i
    } else {
        i + 1
    };
    assert(other[q] == pm);
    if l > k {
        assert(!segs[routes[l][i]].touches(loops[k].pts@[m]));
    } else if l < k {
        if q == ml {
            assert(!segs[routes[k][m - 1]].touches(loops[l].pts@[ml]));
        } else if q >= 1 {
            let before = routes[l][q - 1];
            let after = routes[l][q];
            assert(segs[before].touches(other[q - 1]) && other[q] == segs[before].other_spec(
                other[q - 1],
            ));
            assert(segs[after].touches(other[q]));
            lemma_no_hub(segs, before, after, s, pm);
        } else {
            lemma_paired_loop_closes(segs, loops, routes, l);
            assert(other.first() == other.last());
            assert(!segs[routes[k][m - 1]].touches(loops[l].pts@[ml]));
        }
    } else {
        assert(i != m - 1);
        if q == m - 1 {
        } else if q >= 1 {
            let before = route[q - 1];
            let after = route[q];
            assert(segs[before].touches(pts[q - 1]) && pts[q] == segs[before].other_spec(
                pts[q - 1],
            ));
            assert(segs[after].touches(pts[q]));
            lemma_no_hub(segs, before, after, s, pm);
        } else {
            assert(pts.first() == pts.last());
        }
    }
}

/// Loops that were walked out of segments joined in pairs are all closed.
pub proof fn lemma_paired_loops_close(segs: Seq<Segment>, loops: Seq<Loop>)
    requires
        ends_differ(segs),
        joined_in_pairs(segs),
        walked_out(segs, loops),
    ensures
        all_closed(loops),
{
    let routes = choose|routes: Seq<Seq<int>>| traced(segs, loops, routes);
    assert forall|k: int| 0 <= k < loops.len() implies (#[trigger] loops[k]).closed by {
        lemma_paired_loop_closes(segs, loops, routes, k);
    }
}

/// Where a walk goes on from a point to which it has come along the segment
/// `from`, where `left` are the segments that are left at the point: it
/// ends where none is left, follows the one that is, and fails with
/// [`SliceError::BranchingBoundary`] where more are left, naming the first
/// two of them.
pub fn next_segment(from: usize, left: &Vec<usize>) -> (r: Result<Option<usize>, SliceError>)
    ensures
        left.len() == 0 ==> r == Ok::<Option<usize>, SliceError>(None),
        left.len() == 1 ==> r == Ok::<Option<usize>, SliceError>(Some(left[0])),
        left.len() > 1 ==> r == Err::<Option<usize>, SliceError>(
            SliceError::BranchingBoundary { from, first: left[0], second: left[1] },
        ),
{
    if left.len() == 0 {
        Ok(None)
    } else if left.len() == 1 {
        Ok(Some(left[0]))
    } else {
        Err(SliceError::BranchingBoundary { from, first: left[0], second: left[1] })
    }
}

/// Joins boundary segments into loops.
///
/// A loop starts in an end of a segment that is as close to the origin as any
/// end of a segment not yet walked, and follows segment after segment, each
/// from the end by which it was reached to its other end, until no segment is
/// left at the point it has come to. It is closed where that point is the one
/// it started in. Loops are made until every segment has been walked.
///
/// Fails with [`SliceError::BranchingBoundary`] where the walk comes to a
/// point at which more than one segment is left (see [`next_segment`]). That
/// cannot happen unless three segments touch one point. Segments that are
/// joined in pairs, as a plane cuts them out of a closed surface, give
/// closed loops only.
///
/// The loops are walks as [`traced`] describes them. Where several ends of
/// segments are equally close to the origin, any of them may start a loop.
pub fn build_loops(segs: &Vec<Segment>) -> (r: Result<Vec<Loop>, SliceError>)
    ensures
        ends_differ(segs@),
        r matches Ok(loops) ==> walked_out(segs@, loops@),
        joined_in_pairs(segs@) ==> (r matches Ok(loops) && all_closed(loops@)),
        r matches Err(e) ==> e matches SliceError::BranchingBoundary { from, first, second }
            && is_hub(segs@, from as int, first as int, second as int),
        !has_hub(segs@) ==> r is Ok,
{
    broadcast use vstd::multiset::group_multiset_axioms;

    let n: usize = segs.len();
    let mut tree = index_new();
    let mut idx: usize = 0;
    while idx < n
        invariant
            idx <= n,
            n == segs.len(),
            forall|i: int| 0 <= i < idx ==> (#[trigger] segs@[i]).start() != segs@[i].end(),
            forall|e: (usize, Coord, Coord)| #[trigger]
                index_entries(tree).count(e) == (if e.0 < idx && segs@[e.0 as int].touches(point_of(e)) {
                    1nat
                } else {
                    0nat
                }),
        decreases n - idx,
    {
        let a: Point2 = segs[idx].a();
        let b: Point2 = segs[idx].b();
        index_insert(&mut tree, idx, a.x, a.y);
        index_insert(&mut tree, idx, b.x, b.y);
        idx = idx + 1;
    }
    let mut loops: Vec<Loop> = Vec::new();
    let ghost mut walked: Seq<bool> = Seq::new(n as nat, |i: int| false);
    let ghost mut routes: Seq<Seq<int>> = Seq::empty();
    while index_size(&tree) > 0
        invariant
            n == segs.len(),
            ends_differ(segs@),
            holds_live(tree, segs@, walked, None),
            traced_so_far(segs@, loops@, routes, walked),
        decreases index_entries(tree).len(),
    {
        let ghost walked0 = walked;
        let ghost entries0 = index_entries(tree);
        let seed: (usize, Coord, Coord) = match index_pop_nearest(&mut tree, 0, 0) {
            Some(e) => e,
            None => {
                // The index is not empty here.
                return Ok(loops);
            },
        };
        let mut idx: usize = seed.0;
        let mut pos: Point2 = Point2 { x: seed.1, y: seed.2 };
        let mut pts: Vec<Point2> = Vec::new();
        let ghost mut route: Seq<int> = Seq::empty();
        let ghost mut trail: Seq<Point2> = seq![pos];
        let ghost start = pos;
        proof {
            assert(live(segs@, walked, seed));
            assert forall|s: int| 0 <= s < n && !#[trigger] walked0[s] implies no_farther(
                start,
                segs@[s],
            ) by {
                let a = segs@[s].start();
                let b = segs@[s].end();
                assert(live(segs@, walked0, (s as usize, a.x, a.y)));
                assert(live(segs@, walked0, (s as usize, b.x, b.y)));
                assert(entries0.count((s as usize, a.x, a.y)) > 0);
                assert(entries0.count((s as usize, b.x, b.y)) > 0);
            }
        }
        loop
            invariant_except_break
                idx < n,
                !walked[idx as int],
                segs@[idx as int].touches(pos),
                holds_live(tree, segs@, walked, Some((idx, pos.x, pos.y))),
                trail == pts@.push(pos),
                is_path(segs@, route, trail),
                trail[0] == start,
                passes_once(segs@, route, trail),
                forall|s: int, q: int|
                    0 <= s < n && !#[trigger] walked[s] && 1 <= q < route.len() ==> !segs@[s].touches(
                        #[trigger] trail[q],
                    ),
                route.len() >= 1 ==> forall|s: int|
                    0 <= s < n && !#[trigger] walked[s] && s != idx ==> !segs@[s].touches(pos),
            invariant
                n == segs.len(),
                ends_differ(segs@),
                walked.len() == n,
                walked0.len() == n,
                index_entries(tree).len() < entries0.len(),
                forall|s: int| 0 <= s < n && !#[trigger] walked0[s] ==> no_farther(start, segs@[s]),
                forall|s: int| 0 <= s < n && walked0[s] ==> #[trigger] walked[s],
                forall|s: int| 0 <= s < n && #[trigger] walked[s] && !walked0[s] ==> route.contains(s),
                forall|i: int|
                    0 <= i < route.len() ==> 0 <= #[trigger] route[i] < n && walked[route[i]]
                        && !walked0[route[i]],
                route.no_duplicates(),
            ensures
                is_walk(segs@, route, pts@),
                pts@[0] == start,
                holds_live(tree, segs@, walked, None),
                passes_once(segs@, route, pts@),
                forall|s: int, q: int|
                    0 <= s < n && !#[trigger] walked[s] && 1 <= q < pts@.len() ==> !segs@[s].touches(
                        #[trigger] pts@[q],
                    ),
            decreases index_entries(tree).len(),
        {
            let ghost full = trail;
            let ghost old_route = route;
            pts.push(pos);
            let nextpos: Point2 = segs[idx].other(&pos);
            proof {
                assert(live(segs@, walked, (idx, nextpos.x, nextpos.y)));
                assert(index_entries(tree).count((idx, nextpos.x, nextpos.y)) == 1);
            }
            index_remove(&mut tree, idx, nextpos.x, nextpos.y);
            proof {
                walked = walked.update(idx as int, true);
                route = route.push(idx as int);
                assert(old_route.push(idx as int).no_duplicates()) by {
                    assert forall|i: int| 0 <= i < old_route.len() implies old_route[i] != idx by {
                        assert(walked.update(idx as int, false)[old_route[i]]);
                    }
                }
                assert forall|s: int| 0 <= s < n && #[trigger] walked[s] && !walked0[s] implies route.contains(s) by {
                    if s == idx {
                        assert(route[route.len() - 1] == s);
                    } else {
                        assert(old_route.contains(s));
                        let i = choose|i: int| 0 <= i < old_route.len() && old_route[i] == s;
                        assert(route[i] == s);
                    }
                }
                assert(holds_live(tree, segs@, walked, None));
                trail = full.push(nextpos);
                assert forall|q: int, j: int| 1 <= q < j < route.len() implies !segs@[#[trigger] route[j]].touches(
                    #[trigger] trail[q],
                ) by {
                    assert(trail[q] == full[q]);
                    if j < old_route.len() {
                        assert(route[j] == old_route[j]);
                    }
                }
                assert forall|s: int, q: int|
                    0 <= s < n && !#[trigger] walked[s] && 1 <= q < route.len() implies !segs@[s].touches(
                    #[trigger] trail[q],
                ) by {
                    assert(trail[q] == full[q]);
                    assert(!walked.update(idx as int, false)[s]);
                }
                assert(is_path(segs@, route, trail)) by {
                    assert forall|i: int| 0 <= i < route.len() implies {
                        &&& 0 <= #[trigger] route[i] < segs@.len()
                        &&& segs@[route[i]].touches(trail[i])
                        &&& trail[i + 1] == segs@[route[i]].other_spec(trail[i])
                    } by {
                        if i < old_route.len() {
                            assert(route[i] == old_route[i]);
                        }
                    }
                }
            }
            let found: Vec<usize> = index_locate_all(&tree, nextpos.x, nextpos.y);
            proof {
                assert forall|t: usize| #[trigger]
                    found@.to_multiset().contains(t) implies found@.to_multiset().count(t) == 1 by {}
                found@.lemma_multiset_has_no_duplicates_conv();
                broadcast use vstd::seq_lib::group_to_multiset_ensures;
            }
            let next: usize = match next_segment(idx, &found) {
                Ok(None) => {
                    pts.push(nextpos);
                    proof {
                        assert(pts@ == trail);
                        assert forall|s: int, q: int|
                            0 <= s < n && !#[trigger] walked[s] && 1 <= q < pts@.len() implies !segs@[s].touches(
                            #[trigger] pts@[q],
                        ) by {
                            if q == route.len() && segs@[s].touches(nextpos) {
                                assert(live(segs@, walked, (s as usize, nextpos.x, nextpos.y)));
                                assert(found@.to_multiset().count(s as usize) == 1);
                                assert(found@.contains(s as usize));
                            }
                        }
                    }
                    break;
                },
                Ok(Some(next)) => next,
                Err(e) => {
                    proof {
                        let first = found@[0];
                        let second = found@[1];
                        assert(found@.contains(first) && found@.contains(second));
                        assert(found@.to_multiset().count(first) > 0);
                        assert(found@.to_multiset().count(second) > 0);
                        assert(live(segs@, walked, (first, nextpos.x, nextpos.y)));
                        assert(live(segs@, walked, (second, nextpos.x, nextpos.y)));
                        assert(segs@[idx as int].touches(nextpos));
                        assert(is_hub(segs@, idx as int, first as int, second as int));
                    }
                    return Err(e);
                },
            };
            proof {
                assert(found@.contains(next));
                assert(found@.to_multiset().count(next) > 0);
                assert(live(segs@, walked, (next, nextpos.x, nextpos.y)));
                assert forall|s: int| 0 <= s < n && !#[trigger] walked[s] && s != next implies !segs@[s].touches(
                    nextpos,
                ) by {
                    if segs@[s].touches(nextpos) {
                        assert(live(segs@, walked, (s as usize, nextpos.x, nextpos.y)));
                        assert(found@.to_multiset().count(s as usize) == 1);
                        assert(found@.contains(s as usize));
                    }
                }
            }
            index_remove(&mut tree, next, nextpos.x, nextpos.y);
            idx = next;
            pos = nextpos;
        }
        let last: usize = pts.len() - 1;
        let closed = pts[0].x == pts[last].x && pts[0].y == pts[last].y;
        let added = Loop { pts, closed };
        proof {
            assert(walk_done(segs@, walked0, added, route, walked));
            lemma_added_walks(segs@, loops@, routes, walked0, added, route, walked);
            lemma_added_apart(segs@, loops@, routes, walked0, added, route, walked);
            lemma_added_clear(segs@, loops@, routes, walked0, added, route, walked);
            routes = routes.push(route);
        }
        loops.push(added);
    }
    proof {
        assert forall|s: int| 0 <= s < segs@.len() implies #[trigger] on_route(routes, s) by {
            if !walked[s] {
                let a = segs@[s].start();
                assert(live(segs@, walked, (s as usize, a.x, a.y)));
                assert(index_entries(tree).count((s as usize, a.x, a.y)) == 1);
            }
        }
        assert(traced(segs@, loops@, routes));
        assert(walked_out(segs@, loops@));
        if joined_in_pairs(segs@) {
            lemma_paired_loops_close(segs@, loops@);
        }
    }
    Ok(loops)
}

/// Checks that every loop is closed. Fails with [`SliceError::OpenLoop`] at
/// the first loop that is not.
pub fn require_closed(loops: &Vec<Loop>) -> (r: Result<(), SliceError>)
    ensures
        all_closed(loops@) ==> r is Ok,
        !all_closed(loops@) ==> (r matches Err(SliceError::OpenLoop { index }) && index
            < loops.len() && !loops[index as int].closed && all_closed(loops@.take(index as int))),
{
    let n: usize = loops.len();
    let mut k: usize = 0;
    while k < n
        invariant
            k <= n,
            n == loops.len(),
            all_closed(loops@.take(k as int)),
        decreases n - k,
    {
        if !loops[k].closed {
            return Err(SliceError::OpenLoop { index: k });
        }
        proof {
            assert forall|i: int| 0 <= i < k + 1 implies (#[trigger] loops@.take(k + 1)[i]).closed by {
                if i < k {
                    assert(loops@.take(k as int)[i].closed);
                }
            }
        }
        k = k + 1;
    }
    proof {
        assert(loops@.take(n as int) =~= loops@);
    }
    Ok(())
}

} // verus!
