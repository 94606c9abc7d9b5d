use terminal_renderer::{
    clip_to_frame, frame_intersection, intersection_of_point_pairs, point_inside_frame,
    FrameIntersection, RatPoint,
};

/// Coordinates in ten-thousandths: the frame from (-1, -1) to (1, 1).
const UNIT: i64 = 10_000;
const FRAME: ((i64, i64), (i64, i64)) = ((-UNIT, -UNIT), (UNIT, UNIT));

fn value(p: RatPoint, unit: i64) -> (f64, f64) {
    let d = p.den as f64 * unit as f64;
    (p.x as f64 / d, p.y as f64 / d)
}

fn close(p: RatPoint, unit: i64, expected: (f64, f64), epsilon: f64) -> bool {
    let (x, y) = value(p, unit);
    (x - expected.0).abs() <= epsilon && (y - expected.1).abs() <= epsilon
}

#[test]
fn clip_to_frame_test_1() {
    let Some(clipped) = clip_to_frame((5000, 23000), (-5000, 9000), FRAME) else {
        panic!("was none");
    };
    assert!(close(clipped.0, UNIT, (-0.429, 1.), 0.001));
    assert!(close(clipped.1, UNIT, (-0.5, 0.9), 0.001));
}

#[test]
fn clip_to_frame_test_2() {
    let Some(clipped) = clip_to_frame((5000, 10000), (5000, -10000), FRAME) else {
        panic!("was none");
    };
    assert!(close(clipped.0, UNIT, (0.5, 1.), 0.001));
    assert!(close(clipped.1, UNIT, (0.5, -1.), 0.001));
}

#[test]
fn clip_to_frame_test_3() {
    let Some(clipped) = clip_to_frame((5000, 9000), (5000, -11000), FRAME) else {
        panic!("was none");
    };
    assert!(close(clipped.0, UNIT, (0.5, 0.9), 0.001));
    assert!(close(clipped.1, UNIT, (0.5, -1.), 0.001));
}

#[test]
fn clip_to_frame_test_4() {
    let Some(clipped) = clip_to_frame((4958, 9927), (4860, 10659), FRAME) else {
        panic!("was none");
    };
    assert!(close(clipped.0, UNIT, (0.496, 0.993), 0.001));
    assert!(close(clipped.1, UNIT, (0.495, 1.), 0.001));
}

#[test]
fn intersection_of_point_pairs_test_1() {
    let p = intersection_of_point_pairs((5000, 9000), (5000, -11000), (-UNIT, -UNIT), (UNIT, -UNIT))
        .expect("the segments cross");
    assert!(close(p, UNIT, (0.5, -1.), 0.001));
}

#[test]
fn intersection_of_point_pairs_test_2() {
    const FINE: i64 = 100_000_000;
    let p = intersection_of_point_pairs(
        (49_587_077, 99_282_930),
        (51_361_070, -102_905_880),
        (-FINE, -FINE),
        (FINE, -FINE),
    )
    .expect("the segments cross");
    assert!(close(p, FINE, (0.5, -1.), 0.1));
}

#[test]
fn clipping_keeps_inner_and_drops_outer_segments() {
    let inner = clip_to_frame((-3, 2), (4, -5), FRAME).unwrap();
    assert_eq!(inner.0, RatPoint { x: -3, y: 2, den: 1 });
    assert_eq!(inner.1, RatPoint { x: 4, y: -5, den: 1 });
    assert!(clip_to_frame((20_000, 0), (30_000, 5_000), FRAME).is_none());
}

#[test]
fn segments_through_the_frame_keep_both_crossings() {
    let (a, b) = clip_to_frame((-20_000, 0), (20_000, 0), FRAME).unwrap();
    assert!(close(a, UNIT, (1., 0.), 1e-9) || close(a, UNIT, (-1., 0.), 1e-9));
    assert!(close(b, UNIT, (1., 0.), 1e-9) || close(b, UNIT, (-1., 0.), 1e-9));
    assert!(value(a, UNIT) != value(b, UNIT));
}

#[test]
fn segments_along_an_edge_touch_nothing() {
    assert!(intersection_of_point_pairs((0, 0), (5, 0), (1, 0), (9, 0)).is_none());
    assert!(point_inside_frame((UNIT, -UNIT), FRAME));
    assert!(!point_inside_frame((UNIT + 1, 0), FRAME));
}

#[test]
fn frame_intersection_counts_border_crossings() {
    let frame = ((0, 0), (10, 10));
    match frame_intersection((5, 5), (15, 5), frame) {
        FrameIntersection::One(p) => assert_eq!((p.x, p.y), (10 * p.den, 5 * p.den)),
        other => panic!("expected one crossing, got {:?}", other),
    }
    assert_eq!(frame_intersection((2, 2), (8, 8), frame), FrameIntersection::Empty);
    assert_eq!(frame_intersection((20, 20), (30, 20), frame), FrameIntersection::Empty);
    match frame_intersection((5, -5), (5, 15), frame) {
        FrameIntersection::Two(p, q) => {
            assert_eq!((p.x * q.den, p.y * q.den), (q.x * p.den, 10 * p.den * q.den - q.y * p.den));
        }
        other => panic!("expected two crossings, got {:?}", other),
    }
}

#[test]
fn a_segment_through_two_corners_keeps_both() {
    let Some((a, b)) = clip_to_frame((-5, -5), (15, 15), ((0, 0), (10, 10))) else {
        panic!("the diagonal of the frame was dropped");
    };
    let ends = [value(a, 1), value(b, 1)];
    assert!(ends.contains(&(0., 0.)) && ends.contains(&(10., 10.)));
    match frame_intersection((-5, -5), (15, 15), ((0, 0), (10, 10))) {
        FrameIntersection::Two(_, _) => {}
        other => panic!("expected two crossings, got {:?}", other),
    }
}

#[test]
fn an_inside_end_on_the_border_is_not_taken_as_the_crossing() {
    let frame = ((-10, -10), (10, 10));
    let Some((a, b)) = clip_to_frame((0, 10), (0, -20), frame) else {
        panic!("was none");
    };
    assert_eq!(value(a, 1), (0., 10.));
    assert_eq!(value(b, 1), (0., -10.));
    let Some((a, b)) = clip_to_frame((0, -20), (0, 10), frame) else {
        panic!("was none");
    };
    assert_eq!(value(a, 1), (0., -10.));
    assert_eq!(value(b, 1), (0., 10.));
}
