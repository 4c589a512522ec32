use solid_slicer::coord::{from_bits, to_bits, Coord};
use solid_slicer::error::SliceError;
use solid_slicer::geom::{Point2, Triangle3, Vertex3};
use solid_slicer::segment::{build_seg, Segment};
use solid_slicer::split::{
    classify, correct_sense, plan_cuts, reorder, CutEdge, CutPlan, PlaneCuts, SplitCase, SplitModel,
};

fn c(v: f32) -> Coord {
    from_bits(v.to_bits())
}

fn f(k: Coord) -> f32 {
    f32::from_bits(to_bits(k))
}

fn v(x: f32, y: f32, z: f32) -> Vertex3 {
    Vertex3 { x: c(x), y: c(y), z: c(z) }
}

fn p(x: f32, y: f32) -> Point2 {
    Point2 { x: c(x), y: c(y) }
}

fn tri(a: Vertex3, b: Vertex3, c: Vertex3) -> Triangle3 {
    Triangle3 { normal: v(0.25, 0.5, 0.75), vertices: [a, b, c] }
}

fn piece(a: Vertex3, b: Vertex3, c: Vertex3) -> Triangle3 {
    tri(a, b, c)
}

fn meet(e: &CutEdge, z: f32) -> Point2 {
    let t = (z - f(e.low.z)) / (f(e.high.z) - f(e.low.z));
    p(
        f(e.low.x) + t * (f(e.high.x) - f(e.low.x)),
        f(e.low.y) + t * (f(e.high.y) - f(e.low.y)),
    )
}

fn cuts_of(t: &Triangle3, z: f32) -> PlaneCuts {
    let plan = plan_cuts(t, c(z));
    let x = match plan.x {
        Some(e) => meet(&e, z),
        None => p(0.0, 0.0),
    };
    let y = match plan.y {
        Some(e) => meet(&e, z),
        None => p(0.0, 0.0),
    };
    PlaneCuts { x, y, near: false }
}

fn no_cuts() -> PlaneCuts {
    PlaneCuts { x: p(77.0, 78.0), y: p(79.0, 80.0), near: false }
}

fn seg(a: Point2, b: Point2) -> Segment {
    Segment::new(&a.lift(0), &b.lift(0)).unwrap()
}

#[test]
fn reorder_leaves_ascending_corners_alone() {
    let t = tri(v(0.0, 0.0, 1.0), v(1.0, 0.0, 2.0), v(0.0, 1.0, 3.0));
    assert_eq!(reorder(&t), (t, false));
}

#[test]
fn reorder_sorts_every_order_of_three_heights() {
    let a = v(1.0, 0.0, 1.0);
    let b = v(2.0, 0.0, 2.0);
    let c3 = v(3.0, 0.0, 3.0);
    let sorted = tri(a, b, c3);
    assert_eq!(reorder(&tri(a, b, c3)), (sorted, false));
    assert_eq!(reorder(&tri(b, c3, a)), (sorted, false));
    assert_eq!(reorder(&tri(c3, a, b)), (sorted, false));
    assert_eq!(reorder(&tri(a, c3, b)), (sorted, true));
    assert_eq!(reorder(&tri(c3, b, a)), (sorted, true));
    assert_eq!(reorder(&tri(b, a, c3)), (sorted, true));
}

#[test]
fn reorder_keeps_the_normal_and_exchanges_only_higher_before_lower() {
    let a = v(1.0, 0.0, 5.0);
    let b = v(2.0, 0.0, 5.0);
    let c3 = v(3.0, 0.0, 0.0);
    let (r, sense) = reorder(&tri(a, b, c3));
    assert_eq!(r.normal, v(0.25, 0.5, 0.75));
    assert_eq!(r.vertices, [c3, b, a]);
    assert!(sense);
    let flat = tri(a, b, v(3.0, 0.0, 5.0));
    assert_eq!(reorder(&flat), (flat, false));
    let low = v(0.0, 0.0, -1.0);
    assert_eq!(reorder(&tri(a, low, b)), (tri(low, a, b), true));
}

#[test]
fn correct_sense_exchanges_the_last_two_corners() {
    let a = v(1.0, 0.0, 1.0);
    let b = v(2.0, 0.0, 2.0);
    let c3 = v(3.0, 0.0, 3.0);
    let mut t = tri(a, b, c3);
    correct_sense(&mut t, false);
    assert_eq!(t, tri(a, b, c3));
    correct_sense(&mut t, true);
    assert_eq!(t, tri(a, c3, b));
    correct_sense(&mut t, true);
    assert_eq!(t, tri(a, b, c3));
}

#[test]
fn classify_tells_the_cases_apart() {
    let at = |z0: f32, z1: f32, z2: f32| {
        classify(&tri(v(0.0, 0.0, z0), v(1.0, 0.0, z1), v(0.0, 1.0, z2)), c(5.0))
    };
    assert_eq!(at(1.0, 2.0, 3.0), SplitCase::Below);
    assert_eq!(at(1.0, 2.0, 5.0), SplitCase::Below);
    assert_eq!(at(1.0, 5.0, 5.0), SplitCase::BelowEdge);
    assert_eq!(at(5.0, 5.0, 5.0), SplitCase::InPlane);
    assert_eq!(at(1.0, 2.0, 6.0), SplitCase::UpperCut);
    assert_eq!(at(1.0, 5.0, 6.0), SplitCase::MiddleCut);
    assert_eq!(at(1.0, 6.0, 7.0), SplitCase::LowerCut);
    assert_eq!(at(1.0, 6.0, 6.0), SplitCase::LowerCut);
    assert_eq!(at(5.0, 5.0, 6.0), SplitCase::AboveEdge);
    assert_eq!(at(5.0, 6.0, 7.0), SplitCase::Above);
    assert_eq!(at(6.0, 7.0, 8.0), SplitCase::Above);
    assert_eq!(at(-8.0, -7.0, -6.0), SplitCase::Below);
}

#[test]
fn plan_names_the_edges_that_are_cut() {
    let v0 = v(0.0, 0.0, 0.0);
    let v1 = v(4.0, 0.0, 2.0);
    let v2 = v(0.0, 4.0, 10.0);
    let t = tri(v2, v0, v1);
    assert_eq!(
        plan_cuts(&t, c(5.0)),
        CutPlan {
            x: Some(CutEdge { low: v1, high: v2 }),
            y: Some(CutEdge { low: v0, high: v2 }),
        }
    );
    assert_eq!(
        plan_cuts(&t, c(2.0)),
        CutPlan { x: Some(CutEdge { low: v0, high: v2 }), y: None }
    );
    assert_eq!(
        plan_cuts(&t, c(1.0)),
        CutPlan {
            x: Some(CutEdge { low: v0, high: v1 }),
            y: Some(CutEdge { low: v0, high: v2 }),
        }
    );
    assert_eq!(plan_cuts(&t, c(-1.0)), CutPlan { x: None, y: None });
    assert_eq!(plan_cuts(&t, c(0.0)), CutPlan { x: None, y: None });
    assert_eq!(plan_cuts(&t, c(10.0)), CutPlan { x: None, y: None });
    assert_eq!(plan_cuts(&t, c(11.0)), CutPlan { x: None, y: None });
}

#[test]
fn new_model_is_empty() {
    let m = SplitModel::new();
    assert!(m.zplus.is_empty());
    assert!(m.zminus.is_empty());
    assert!(m.edge.is_empty());
}

#[test]
fn add_tri_turns_and_sorts_pieces() {
    let a = v(1.0, 0.0, 1.0);
    let b = v(2.0, 0.0, 2.0);
    let c3 = v(3.0, 0.0, 3.0);
    let mut m = SplitModel::new();
    m.add_tri(tri(a, b, c3), false, true);
    m.add_tri(tri(a, b, c3), true, true);
    m.add_tri(tri(a, b, c3), true, false);
    assert_eq!(m.zplus, vec![tri(a, b, c3), tri(a, c3, b)]);
    assert_eq!(m.zminus, vec![tri(a, c3, b)]);
    assert!(m.edge.is_empty());
}

#[test]
fn triangle_under_the_plane_stays_whole() {
    let t = tri(v(0.0, 0.0, 3.0), v(1.0, 0.0, 1.0), v(0.0, 1.0, 2.0));
    let mut m = SplitModel::new();
    assert_eq!(m.split_tri(&t, c(5.0), &no_cuts()), Ok(()));
    assert_eq!(m.zminus, vec![t]);
    assert!(m.zplus.is_empty());
    assert!(m.edge.is_empty());
    let near = PlaneCuts { x: p(1.0, 1.0), y: p(1.0, 1.0), near: true };
    assert_eq!(m.split_tri(&t, c(3.5), &near), Ok(()));
    assert_eq!(m.zminus, vec![t, t]);
    assert!(m.zplus.is_empty());
    assert!(m.edge.is_empty());
}

#[test]
fn triangle_over_the_plane_stays_whole() {
    let t = tri(v(0.0, 0.0, 3.0), v(1.0, 0.0, 1.0), v(0.0, 1.0, 2.0));
    let mut m = SplitModel::new();
    assert_eq!(m.split_tri(&t, c(0.5), &no_cuts()), Ok(()));
    assert_eq!(m.zplus, vec![t]);
    assert!(m.zminus.is_empty());
    assert!(m.edge.is_empty());
}

#[test]
fn triangle_touching_the_plane_with_a_corner_gives_no_segment() {
    let under = tri(v(0.0, 0.0, 5.0), v(1.0, 0.0, 1.0), v(0.0, 1.0, 2.0));
    let over = tri(v(0.0, 0.0, 5.0), v(1.0, 0.0, 7.0), v(0.0, 1.0, 6.0));
    let mut m = SplitModel::new();
    assert_eq!(m.split_tri(&under, c(5.0), &no_cuts()), Ok(()));
    assert_eq!(m.split_tri(&over, c(5.0), &no_cuts()), Ok(()));
    assert_eq!(m.zminus, vec![under]);
    assert_eq!(m.zplus, vec![over]);
    assert!(m.edge.is_empty());
}

#[test]
fn triangle_hanging_from_the_plane_gives_its_upper_edge() {
    let t = tri(v(2.0, 0.0, 5.0), v(1.0, 1.0, 1.0), v(0.0, 3.0, 5.0));
    let mut m = SplitModel::new();
    assert_eq!(m.split_tri(&t, c(5.0), &no_cuts()), Ok(()));
    assert_eq!(m.zminus, vec![t]);
    assert!(m.zplus.is_empty());
    assert_eq!(m.edge, vec![seg(p(2.0, 0.0), p(0.0, 3.0))]);
}

#[test]
fn triangle_standing_on_the_plane_gives_its_lower_edge() {
    let t = tri(v(2.0, 0.0, 5.0), v(1.0, 1.0, 9.0), v(0.0, 3.0, 5.0));
    let mut m = SplitModel::new();
    assert_eq!(m.split_tri(&t, c(5.0), &no_cuts()), Ok(()));
    assert_eq!(m.zplus, vec![t]);
    assert!(m.zminus.is_empty());
    assert_eq!(m.edge, vec![seg(p(2.0, 0.0), p(0.0, 3.0))]);
}

#[test]
fn triangle_in_the_plane_goes_under_it_without_segment() {
    let t = tri(v(2.0, 0.0, 5.0), v(1.0, 1.0, 5.0), v(0.0, 3.0, 5.0));
    let mut m = SplitModel::new();
    assert_eq!(m.split_tri(&t, c(5.0), &no_cuts()), Ok(()));
    assert_eq!(m.zminus, vec![t]);
    assert!(m.zplus.is_empty());
    assert!(m.edge.is_empty());
}

#[test]
fn plane_under_the_top_corner_cuts_off_one_piece() {
    let v0 = v(0.0, 0.0, 0.0);
    let v1 = v(4.0, 0.0, 0.0);
    let v2 = v(0.0, 4.0, 8.0);
    let t = tri(v0, v1, v2);
    let cuts = cuts_of(&t, 2.0);
    assert_eq!(cuts, PlaneCuts { x: p(3.0, 1.0), y: p(0.0, 1.0), near: false });
    let x = v(3.0, 1.0, 2.0);
    let y = v(0.0, 1.0, 2.0);
    let mut m = SplitModel::new();
    assert_eq!(m.split_tri(&t, c(2.0), &cuts), Ok(()));
    assert_eq!(m.zminus, vec![piece(v0, v1, x), piece(v0, x, y)]);
    assert_eq!(m.zplus, vec![piece(x, v2, y)]);
    assert_eq!(m.edge, vec![seg(p(3.0, 1.0), p(0.0, 1.0))]);
}

#[test]
fn pieces_of_a_turned_triangle_are_turned_back() {
    let v0 = v(0.0, 0.0, -12.0);
    let v1 = v(4.0, 0.0, -2.0);
    let v2 = v(0.0, 4.0, 8.0);
    let t = tri(v0, v2, v1);
    assert_eq!(reorder(&t), (tri(v0, v1, v2), true));
    let cuts = cuts_of(&t, 3.0);
    assert_eq!(cuts, PlaneCuts { x: p(2.0, 2.0), y: p(0.0, 3.0), near: false });
    let x = v(2.0, 2.0, 3.0);
    let y = v(0.0, 3.0, 3.0);
    let mut m = SplitModel::new();
    assert_eq!(m.split_tri(&t, c(3.0), &cuts), Ok(()));
    assert_eq!(m.zminus, vec![piece(v0, x, v1), piece(v0, y, x)]);
    assert_eq!(m.zplus, vec![piece(x, y, v2)]);
    assert_eq!(m.edge, vec![seg(p(2.0, 2.0), p(0.0, 3.0))]);
}

#[test]
fn corners_of_equal_height_keep_their_places() {
    let v0 = v(0.0, 0.0, 0.0);
    let v1 = v(4.0, 0.0, 0.0);
    let v2 = v(0.0, 4.0, 8.0);
    let t = tri(v2, v1, v0);
    assert_eq!(reorder(&t), (tri(v1, v0, v2), false));
    let cuts = cuts_of(&t, 2.0);
    assert_eq!(cuts, PlaneCuts { x: p(0.0, 1.0), y: p(3.0, 1.0), near: false });
    let x = v(0.0, 1.0, 2.0);
    let y = v(3.0, 1.0, 2.0);
    let mut m = SplitModel::new();
    assert_eq!(m.split_tri(&t, c(2.0), &cuts), Ok(()));
    assert_eq!(m.zminus, vec![piece(v1, v0, x), piece(v1, x, y)]);
    assert_eq!(m.zplus, vec![piece(x, v2, y)]);
    assert_eq!(m.edge, vec![seg(p(0.0, 1.0), p(3.0, 1.0))]);
}

#[test]
fn plane_over_the_bottom_corner_cuts_off_one_piece() {
    let v0 = v(0.0, 0.0, 0.0);
    let v1 = v(4.0, 0.0, 8.0);
    let v2 = v(0.0, 4.0, 8.0);
    let t = tri(v0, v1, v2);
    let cuts = cuts_of(&t, 2.0);
    assert_eq!(cuts, PlaneCuts { x: p(1.0, 0.0), y: p(0.0, 1.0), near: false });
    let x = v(1.0, 0.0, 2.0);
    let y = v(0.0, 1.0, 2.0);
    let mut m = SplitModel::new();
    assert_eq!(m.split_tri(&t, c(2.0), &cuts), Ok(()));
    assert_eq!(m.zminus, vec![piece(v0, x, y)]);
    assert_eq!(m.zplus, vec![piece(y, x, v2), piece(x, v1, v2)]);
    assert_eq!(m.edge, vec![seg(p(1.0, 0.0), p(0.0, 1.0))]);
}

#[test]
fn plane_through_the_middle_corner_splits_in_two() {
    let v0 = v(0.0, 0.0, 0.0);
    let v1 = v(4.0, 0.0, 2.0);
    let v2 = v(0.0, 4.0, 8.0);
    let t = tri(v0, v1, v2);
    let cuts = cuts_of(&t, 2.0);
    assert_eq!(cuts.x, p(0.0, 1.0));
    let x = v(0.0, 1.0, 2.0);
    let mut m = SplitModel::new();
    assert_eq!(m.split_tri(&t, c(2.0), &cuts), Ok(()));
    assert_eq!(m.zminus, vec![piece(v0, v1, x)]);
    assert_eq!(m.zplus, vec![piece(v1, v2, x)]);
    assert_eq!(m.edge, vec![seg(p(0.0, 1.0), p(4.0, 0.0))]);
}

#[test]
fn cut_points_are_placed_at_the_height_of_the_plane() {
    let v0 = v(0.0, 0.0, 0.0);
    let v1 = v(4.0, 0.0, 0.0);
    let v2 = v(0.0, 4.0, 8.0);
    let t = tri(v0, v1, v2);
    let cuts = PlaneCuts { x: p(10.0, 11.0), y: p(12.0, 13.0), near: false };
    let mut m = SplitModel::new();
    assert_eq!(m.split_tri(&t, c(2.5), &cuts), Ok(()));
    assert_eq!(m.zplus, vec![piece(v(10.0, 11.0, 2.5), v2, v(12.0, 13.0, 2.5))]);
    assert_eq!(m.edge, vec![seg(p(10.0, 11.0), p(12.0, 13.0))]);
}

#[test]
fn sliver_goes_whole_to_the_side_of_its_two_corners() {
    let v0 = v(0.0, 0.0, 0.0);
    let v1 = v(4.0, 0.0, 0.0);
    let v2 = v(0.0, 4.0, 8.0);
    let two_under = tri(v0, v1, v2);
    let two_over = tri(v0, v(4.0, 0.0, 8.0), v2);
    let near = PlaneCuts { x: p(3.0, 1.0), y: p(0.0, 1.0), near: true };
    let same = PlaneCuts { x: p(3.0, 1.0), y: p(3.0, 1.0), near: false };
    let mut m = SplitModel::new();
    assert_eq!(m.split_tri(&two_under, c(2.0), &near), Ok(()));
    assert_eq!(m.split_tri(&two_under, c(2.0), &same), Ok(()));
    assert_eq!(m.zminus, vec![two_under, two_under]);
    assert!(m.zplus.is_empty());
    assert_eq!(m.split_tri(&two_over, c(2.0), &near), Ok(()));
    assert_eq!(m.split_tri(&two_over, c(2.0), &same), Ok(()));
    assert_eq!(m.zplus, vec![two_over, two_over]);
    assert_eq!(m.zminus, vec![two_under, two_under]);
    assert!(m.edge.is_empty());
}

#[test]
fn edge_in_the_plane_without_length_is_refused() {
    let t = tri(v(2.0, 1.0, 5.0), v(1.0, 1.0, 1.0), v(2.0, 1.0, 5.0));
    let whole = tri(v(0.0, 0.0, 0.0), v(1.0, 0.0, 0.0), v(0.0, 1.0, 0.0));
    let mut m = SplitModel::new();
    assert_eq!(m.split_tri(&whole, c(5.0), &no_cuts()), Ok(()));
    assert_eq!(
        m.split_tri(&t, c(5.0), &no_cuts()),
        Err(SliceError::DegenerateSegment { at: p(2.0, 1.0) })
    );
    assert_eq!(m.zminus, vec![whole]);
    assert!(m.zplus.is_empty());
    assert!(m.edge.is_empty());
    let standing = tri(v(2.0, 1.0, 5.0), v(1.0, 1.0, 9.0), v(2.0, 1.0, 5.0));
    assert_eq!(
        m.split_tri(&standing, c(5.0), &no_cuts()),
        Err(SliceError::DegenerateSegment { at: p(2.0, 1.0) })
    );
    assert_eq!(m.zminus, vec![whole]);
    assert!(m.zplus.is_empty());
    assert!(m.edge.is_empty());
}

#[test]
fn cut_under_the_middle_corner_is_refused() {
    let t = tri(v(0.0, 0.0, 0.0), v(1.0, 0.0, 5.0), v(2.0, 0.0, 10.0));
    let cuts = cuts_of(&t, 5.0);
    assert_eq!(cuts.x, p(1.0, 0.0));
    let mut m = SplitModel::new();
    assert_eq!(
        m.split_tri(&t, c(5.0), &cuts),
        Err(SliceError::DegenerateSegment { at: p(1.0, 0.0) })
    );
    assert!(m.zminus.is_empty());
    assert!(m.zplus.is_empty());
    assert!(m.edge.is_empty());
}

#[test]
fn segment_needs_two_different_ends() {
    let a = v(1.0, 2.0, 3.0);
    let b = v(4.0, 5.0, 6.0);
    let s = Segment::new(&a, &b).unwrap();
    assert_eq!(s.a(), p(1.0, 2.0));
    assert_eq!(s.b(), p(4.0, 5.0));
    let at = p(1.0, 2.0);
    assert_eq!(Segment::new(&a, &v(1.0, 2.0, 9.0)), Err(SliceError::DegenerateSegment { at }));
    assert_eq!(Segment::new(&a, &a), Err(SliceError::DegenerateSegment { at }));
    assert!(Segment::new(&a, &v(1.0, 2.5, 3.0)).is_ok());
    assert!(Segment::new(&v(0.0, 2.0, 3.0), &v(-0.0, 2.0, 3.0)).is_err());
}

#[test]
fn other_end_of_a_segment() {
    let s = seg(p(1.0, 2.0), p(4.0, 5.0));
    assert_eq!(s.other(&p(1.0, 2.0)), p(4.0, 5.0));
    assert_eq!(s.other(&p(4.0, 5.0)), p(1.0, 2.0));
    assert_eq!(s.other(&p(7.0, 7.0)), p(1.0, 2.0));
}

#[test]
fn build_seg_gives_no_segment_for_near_points() {
    let a = v(1.0, 2.0, 3.0);
    let b = v(4.0, 5.0, 6.0);
    assert_eq!(build_seg(&a, &b, false), Some(seg(p(1.0, 2.0), p(4.0, 5.0))));
    assert_eq!(build_seg(&a, &b, true), None);
    assert_eq!(build_seg(&a, &v(1.0, 2.0, 7.0), false), None);
}

fn step(state: &mut u64) -> f32 {
    *state = state.wrapping_mul(6364136223846793005).wrapping_add(1442695040888963407);
    ((*state >> 40) % 2001) as f32 * 0.01 - 10.0
}

fn area_2(t: &Triangle3) -> f32 {
    let a = t.vertices[0];
    let b = t.vertices[1];
    let d = t.vertices[2];
    let u = (f(b.x) - f(a.x), f(b.y) - f(a.y), f(b.z) - f(a.z));
    let w = (f(d.x) - f(a.x), f(d.y) - f(a.y), f(d.z) - f(a.z));
    let n = (u.1 * w.2 - u.2 * w.1, u.2 * w.0 - u.0 * w.2, u.0 * w.1 - u.1 * w.0);
    (n.0 * n.0 + n.1 * n.1 + n.2 * n.2).sqrt()
}

#[test]
fn pieces_of_many_triangles_keep_area_and_side() {
    let mut state = 3u64;
    let mut cut = 0;
    for _ in 0..2000 {
        let t = tri(
            v(step(&mut state), step(&mut state), step(&mut state)),
            v(step(&mut state), step(&mut state), step(&mut state)),
            v(step(&mut state), step(&mut state), step(&mut state)),
        );
        let z = step(&mut state) * 0.5;
        let cuts = cuts_of(&t, z);
        let mut m = SplitModel::new();
        match m.split_tri(&t, c(z), &cuts) {
            Ok(()) => {},
            Err(e) => {
                assert!(matches!(e, SliceError::DegenerateSegment { .. }));
                assert!(m.zplus.is_empty() && m.zminus.is_empty() && m.edge.is_empty());
                continue;
            },
        }
        let pieces = m.zplus.len() + m.zminus.len();
        assert!(1 <= pieces && pieces <= 3);
        assert!(m.edge.len() <= 1);
        if pieces > 1 {
            cut += 1;
            assert_eq!(m.edge.len(), 1);
            for q in m.zplus.iter().flat_map(|t| t.vertices.iter()) {
                assert!(f(q.z) >= z);
            }
            for q in m.zminus.iter().flat_map(|t| t.vertices.iter()) {
                assert!(f(q.z) <= z);
            }
        } else {
            assert_eq!(m.zplus.iter().chain(m.zminus.iter()).next(), Some(&t));
        }
        let whole = area_2(&t);
        let parts: f32 = m.zplus.iter().chain(m.zminus.iter()).map(area_2).sum();
        assert!((whole - parts).abs() <= 1.0e-3 * (1.0 + whole), "{} {}", whole, parts);
        for q in m.zplus.iter().chain(m.zminus.iter()) {
            assert_eq!(q.normal, t.normal);
        }
    }
    assert!(cut > 400);
}
