use vstd::prelude::*;
use crate::raster::{line_coord_ok, Point};

verus! {

/// A point with rational coordinates `(x / den, y / den)`, `den > 0`.
#[derive(Clone, Copy, PartialEq, Eq, Structural, Debug)]
pub struct RatPoint {
    pub x: i128,
    pub y: i128,
    pub den: i128,
}

/// The integer point `p` as a rational one.
pub open spec fn exact(p: Point) -> RatPoint {
    RatPoint { x: p.0 as i128, y: p.1 as i128, den: 1 }
}

pub open spec fn cross(ux: int, uy: int, vx: int, vy: int) -> int {
    ux * vy - uy * vx
}

/// Where the segment `a b` meets the segment `c d`: `None` where the lines
/// are parallel (coincident ones included) or meet outside either closed
/// segment. The point is `a + t (b - a)` with `t = tn / den`.
pub open spec fn crossing(a: Point, b: Point, c: Point, d: Point) -> Option<RatPoint> {
    let (rx, ry, sx, sy) = (b.0 - a.0, b.1 - a.1, d.0 - c.0, d.1 - c.1);
    let (qx, qy) = (c.0 - a.0, c.1 - a.1);
    let den0 = cross(rx, ry, sx, sy);
    let t0 = cross(qx, qy, sx, sy);
    let u0 = cross(qx, qy, rx, ry);
    let den = if den0 > 0 { den0 } else { -den0 };
    let t = if den0 > 0 { t0 } else { -t0 };
    let u = if den0 > 0 { u0 } else { -u0 };
    if den0 == 0 || t < 0 || t > den || u < 0 || u > den {
        None
    } else {
        Some(RatPoint { x: (a.0 * den + t * rx) as i128, y: (a.1 * den + t * ry) as i128, den: den as i128 })
    }
}

/// Where along `a b` the crossing with `c d` lies, as a numerator over the
/// crossing's denominator: `0` at `a`, the denominator at `b`.
pub open spec fn crossing_param(a: Point, b: Point, c: Point, d: Point) -> int {
    let (rx, ry, sx, sy) = (b.0 - a.0, b.1 - a.1, d.0 - c.0, d.1 - c.1);
    let (qx, qy) = (c.0 - a.0, c.1 - a.1);
    let den0 = cross(rx, ry, sx, sy);
    let t0 = cross(qx, qy, sx, sy);
    if den0 > 0 {
        t0
    } else {
        -t0
    }
}

/// A crossing at `t / den` along the segment is already among `xs`: the
/// same point, reached through another edge (at a corner of the frame).
pub open spec fn seen(xs: Seq<(RatPoint, int)>, t: int, den: int) -> bool {
    exists|i: int| 0 <= i < xs.len() && (#[trigger] xs[i]).1 * den == t * xs[i].0.den
}

/// The frame spanned by two corners: left, right, bottom, top.
pub open spec fn bounds(frame: (Point, Point)) -> (int, int, int, int) {
    let (p, q) = frame;
    (
        if p.0 < q.0 { p.0 as int } else { q.0 as int },
        if p.0 < q.0 { q.0 as int } else { p.0 as int },
        if p.1 < q.1 { p.1 as int } else { q.1 as int },
        if p.1 < q.1 { q.1 as int } else { p.1 as int },
    )
}

/// `p` lies in the closed frame.
pub open spec fn in_frame(p: Point, frame: (Point, Point)) -> bool {
    let (l, r, btm, top) = bounds(frame);
    l <= p.0 <= r && btm <= p.1 <= top
}

/// The frame's edges: top, right, bottom, left.
pub open spec fn frame_edges(frame: (Point, Point)) -> Seq<(Point, Point)> {
    let (l, r, btm, top) = bounds(frame);
    let (l, r, btm, top) = (l as i64, r as i64, btm as i64, top as i64);
    seq![((l, top), (r, top)), ((r, top), (r, btm)), ((l, btm), (r, btm)), ((l, top), (l, btm))]
}

/// The points where the segment crosses the edges, edge by edge, each
/// with where it lies along the segment; a point already found through an
/// earlier edge is not found again.
pub open spec fn crossings_upto(a: Point, b: Point, edges: Seq<(Point, Point)>, n: int) -> Seq<(RatPoint, int)>
    decreases n,
{
    if n <= 0 {
        Seq::empty()
    } else {
        let before = crossings_upto(a, b, edges, n - 1);
        let t = crossing_param(a, b, edges[n - 1].0, edges[n - 1].1);
        match crossing(a, b, edges[n - 1].0, edges[n - 1].1) {
            Some(p) => if seen(before, t, p.den as int) {
                before
            } else {
                before.push((p, t))
            },
            None => before,
        }
    }
}

pub open spec fn frame_crossings(a: Point, b: Point, frame: (Point, Point)) -> Seq<(RatPoint, int)> {
    crossings_upto(a, b, frame_edges(frame), 4)
}

/// Where the segment `a b` crosses the frame's border.
#[derive(Clone, Copy, PartialEq, Eq, Structural, Debug)]
pub enum FrameIntersection {
    Empty,
    One(RatPoint),
    Two(RatPoint, RatPoint),
}

/// The crossings that count. Neither end in the frame: all of them, where
/// there are at most two. One end in it: the first, edges taken top, right,
/// bottom, left, that is not that end itself (that end only where the
/// segment leaves the frame right there). Both ends in it: none.
pub open spec fn frame_intersection_of(a: Point, b: Point, frame: (Point, Point)) -> FrameIntersection {
    let xs = frame_crossings(a, b, frame);
    if !in_frame(a, frame) && !in_frame(b, frame) {
        if xs.len() == 1 {
            FrameIntersection::One(xs[0].0)
        } else if xs.len() == 2 {
            FrameIntersection::Two(xs[0].0, xs[1].0)
        } else {
            FrameIntersection::Empty
        }
    } else if !in_frame(a, frame) || !in_frame(b, frame) {
        if xs.len() == 0 {
            FrameIntersection::Empty
        } else {
            match first_away(xs, in_frame(a, frame)) {
                Some(p) => FrameIntersection::One(p),
                None => FrameIntersection::One(xs[0].0),
            }
        }
    } else {
        FrameIntersection::Empty
    }
}

/// The crossing is not the end of the segment that lies in the frame: not
/// at `a` where `a` is that end, not at `b` otherwise.
pub open spec fn away_from_inside_end(x: (RatPoint, int), a_inside: bool) -> bool {
    if a_inside {
        x.1 != 0
    } else {
        x.1 != x.0.den
    }
}

/// The first crossing, edges taken in order, that is not the end of the
/// segment lying in the frame.
pub open spec fn first_away(xs: Seq<(RatPoint, int)>, a_inside: bool) -> Option<RatPoint>
    decreases xs.len(),
{
    if xs.len() == 0 {
        None
    } else {
        match first_away(xs.drop_last(), a_inside) {
            Some(p) => Some(p),
            None => if away_from_inside_end(xs.last(), a_inside) {
                Some(xs.last().0)
            } else {
                None
            },
        }
    }
}

/// The part of the segment `a b` in the frame: between its two crossings;
/// from the end in the frame to the one crossing; the whole segment where
/// both ends are in the frame; else nothing.
pub open spec fn clipped(a: Point, b: Point, frame: (Point, Point)) -> Option<(RatPoint, RatPoint)> {
    match frame_intersection_of(a, b, frame) {
        FrameIntersection::Two(p, q) => Some((p, q)),
        FrameIntersection::One(p) => if in_frame(a, frame) {
            Some((exact(a), p))
        } else if in_frame(b, frame) {
            Some((p, exact(b)))
        } else {
            None
        },
        FrameIntersection::Empty => if in_frame(a, frame) && in_frame(b, frame) {
            Some((exact(a), exact(b)))
        } else {
            None
        },
    }
}

/// A coordinate that clipping accepts.
pub open spec fn clip_coord_ok(v: i64) -> bool {
    -0x4000_0000 <= v <= 0x4000_0000
}

pub open spec fn frame_ok(frame: (Point, Point)) -> bool {
    clip_coord_ok(frame.0.0) && clip_coord_ok(frame.0.1) && clip_coord_ok(frame.1.0) && clip_coord_ok(
        frame.1.1)
}

/// Where the segment `a b` meets the segment `c d`; see `crossing`.
pub fn intersection_of_point_pairs(a: Point, b: Point, c: Point, d: Point) -> (r: Option<RatPoint>)
    requires
        line_coord_ok(a.0), line_coord_ok(a.1), line_coord_ok(b.0), line_coord_ok(b.1),
        line_coord_ok(c.0), line_coord_ok(c.1), line_coord_ok(d.0), line_coord_ok(d.1),
    ensures
        r == crossing(a, b, c, d),
{
    match crossing_with_param(a, b, c, d) {
        Some((p, _)) => Some(p),
        None => None,
    }
}

fn crossing_with_param(a: Point, b: Point, c: Point, d: Point) -> (r: Option<(RatPoint, i128)>)
    requires
        line_coord_ok(a.0), line_coord_ok(a.1), line_coord_ok(b.0), line_coord_ok(b.1),
        line_coord_ok(c.0), line_coord_ok(c.1), line_coord_ok(d.0), line_coord_ok(d.1),
    ensures
        r.is_some() == crossing(a, b, c, d).is_some(),
        r matches Some(q) ==> q.0 == crossing(a, b, c, d).unwrap() && q.1 == crossing_param(a, b, c, d)
            && 0 <= q.1 <= q.0.den && q.0.den > 0,
        r matches Some(q) ==> (clip_coord_ok(a.0) && clip_coord_ok(a.1) && clip_coord_ok(b.0)
            && clip_coord_ok(b.1) && clip_coord_ok(c.0) && clip_coord_ok(c.1) && clip_coord_ok(d.0)
            && clip_coord_ok(d.1) ==> q.0.den <= 0x8000_0000_0000_0000),
{
    let (rx, ry) = (b.0 as i128 - a.0 as i128, b.1 as i128 - a.1 as i128);
    let (sx, sy) = (d.0 as i128 - c.0 as i128, d.1 as i128 - c.1 as i128);
    let (qx, qy) = (c.0 as i128 - a.0 as i128, c.1 as i128 - a.1 as i128);
    proof {
        lemma_product_bound(rx as int, sy as int);
        lemma_product_bound(ry as int, sx as int);
        lemma_product_bound(qx as int, sy as int);
        lemma_product_bound(qy as int, sx as int);
        lemma_product_bound(qx as int, ry as int);
        lemma_product_bound(qy as int, rx as int);
    }
    let den0 = rx * sy - ry * sx;
    let t0 = qx * sy - qy * sx;
    let u0 = qx * ry - qy * rx;
    if den0 == 0 {
        return None;
    }
    let (den, t, u) = if den0 > 0 {
        (den0, t0, u0)
    } else {
        (-den0, -t0, -u0)
    };
    if t < 0 || t > den || u < 0 || u > den {
        return None;
    }
    proof {
        assert(-0x8_0000_0000_0000_0000_0000_0000 <= a.0 * den <= 0x8_0000_0000_0000_0000_0000_0000)
            by (nonlinear_arith)
            requires
                -0x1_0000_0000 <= a.0 <= 0x1_0000_0000,
                0 < den <= 0x8_0000_0000_0000_0000,
        ;
        assert(-0x8_0000_0000_0000_0000_0000_0000 <= a.1 * den <= 0x8_0000_0000_0000_0000_0000_0000)
            by (nonlinear_arith)
            requires
                -0x1_0000_0000 <= a.1 <= 0x1_0000_0000,
                0 < den <= 0x8_0000_0000_0000_0000,
        ;
        assert(-0x10_0000_0000_0000_0000_0000_0000 <= t * rx <= 0x10_0000_0000_0000_0000_0000_0000)
            by (nonlinear_arith)
            requires
                -0x2_0000_0000 <= rx <= 0x2_0000_0000,
                0 <= t <= 0x8_0000_0000_0000_0000,
        ;
        assert(-0x10_0000_0000_0000_0000_0000_0000 <= t * ry <= 0x10_0000_0000_0000_0000_0000_0000)
            by (nonlinear_arith)
            requires
                -0x2_0000_0000 <= ry <= 0x2_0000_0000,
                0 <= t <= 0x8_0000_0000_0000_0000,
        ;
    }
    proof {
        if clip_coord_ok(a.0) && clip_coord_ok(a.1) && clip_coord_ok(b.0) && clip_coord_ok(b.1)
            && clip_coord_ok(c.0) && clip_coord_ok(c.1) && clip_coord_ok(d.0) && clip_coord_ok(d.1) {
            assert(-0x4000_0000_0000_0000 <= rx * sy <= 0x4000_0000_0000_0000) by (nonlinear_arith)
                requires
                    -0x8000_0000 <= rx <= 0x8000_0000,
                    -0x8000_0000 <= sy <= 0x8000_0000,
            ;
            assert(-0x4000_0000_0000_0000 <= ry * sx <= 0x4000_0000_0000_0000) by (nonlinear_arith)
                requires
                    -0x8000_0000 <= ry <= 0x8000_0000,
                    -0x8000_0000 <= sx <= 0x8000_0000,
            ;
        }
    }
    Some((RatPoint { x: a.0 as i128 * den + t * rx, y: a.1 as i128 * den + t * ry, den }, t))
}

/// A product of two coordinate differences.
proof fn lemma_product_bound(u: int, v: int)
    requires
        -0x2_0000_0000 <= u <= 0x2_0000_0000,
        -0x2_0000_0000 <= v <= 0x2_0000_0000,
    ensures
        -0x4_0000_0000_0000_0000 <= u * v <= 0x4_0000_0000_0000_0000,
{
    assert(-0x4_0000_0000_0000_0000 <= u * v <= 0x4_0000_0000_0000_0000) by (nonlinear_arith)
        requires
            -0x2_0000_0000 <= u <= 0x2_0000_0000,
            -0x2_0000_0000 <= v <= 0x2_0000_0000,
    ;
}

/// Whether `p` lies in the closed frame spanned by two corners.
pub fn point_inside_frame(p: Point, frame: (Point, Point)) -> (r: bool)
    ensures
        r == in_frame(p, frame),
{
    let (q0, q1) = frame;
    let (l, r) = if q0.0 < q1.0 {
        (q0.0, q1.0)
    } else {
        (q1.0, q0.0)
    };
    let (btm, top) = if q0.1 < q1.1 {
        (q0.1, q1.1)
    } else {
        (q1.1, q0.1)
    };
    l <= p.0 && p.0 <= r && btm <= p.1 && p.1 <= top
}

/// Where the segment `a b` crosses the border of the frame spanned by two
/// corners; see `frame_intersection_of`.
pub fn frame_intersection(a: Point, b: Point, frame: (Point, Point)) -> (r: FrameIntersection)
    requires
        clip_coord_ok(a.0), clip_coord_ok(a.1), clip_coord_ok(b.0), clip_coord_ok(b.1),
        frame_ok(frame),
    ensures
        r == frame_intersection_of(a, b, frame),
{
    let (q0, q1) = frame;
    let (l, r) = if q0.0 < q1.0 {
        (q0.0, q1.0)
    } else {
        (q1.0, q0.0)
    };
    let (btm, top) = if q0.1 < q1.1 {
        (q0.1, q1.1)
    } else {
        (q1.1, q0.1)
    };
    let edges = [((l, top), (r, top)), ((r, top), (r, btm)), ((l, btm), (r, btm)), ((l, top), (l, btm))];
    let ghost es = frame_edges(frame);
    proof {
        assert(edges@ =~= es);
    }
    let mut found: Vec<(RatPoint, i128)> = Vec::new();
    let mut i: usize = 0;
    while i < 4
        invariant
            i <= 4,
            edges@ == es,
            es == frame_edges(frame),
            clip_coord_ok(a.0), clip_coord_ok(a.1), clip_coord_ok(b.0), clip_coord_ok(b.1),
            forall|k: int| 0 <= k < 4 ==> clip_coord_ok((#[trigger] es[k]).0.0) && clip_coord_ok(
                es[k].0.1) && clip_coord_ok(es[k].1.0) && clip_coord_ok(es[k].1.1),
            found@.len() == crossings_upto(a, b, es, i as int).len(),
            forall|j: int| 0 <= j < found@.len() ==> (#[trigger] found@[j]).0 == crossings_upto(a, b,
                es, i as int)[j].0 && found@[j].1 as int == crossings_upto(a, b, es, i as int)[j].1,
            forall|j: int| 0 <= j < found@.len() ==> 0 <= (#[trigger] found@[j]).1 <= found@[j].0.den
                <= 0x8000_0000_0000_0000,
        decreases 4 - i,
    {
        let (c, d) = edges[i];
        let ghost before = crossings_upto(a, b, es, i as int);
        match crossing_with_param(a, b, c, d) {
            Some((p, t)) => {
                let mut dup = false;
                let mut j: usize = 0;
                while j < found.len()
                    invariant
                        j <= found@.len(),
                        found@.len() == before.len(),
                        forall|m: int| 0 <= m < found@.len() ==> (#[trigger] found@[m]).0 == before[m].0
                            && found@[m].1 as int == before[m].1,
                        forall|m: int| 0 <= m < found@.len() ==> 0 <= (#[trigger] found@[m]).1
                            <= found@[m].0.den <= 0x8000_0000_0000_0000,
                        0 <= t <= p.den <= 0x8000_0000_0000_0000,
                        dup == exists|m: int| 0 <= m < j && (#[trigger] before[m]).1 * p.den == t
                            * before[m].0.den,
                    decreases found@.len() - j,
                {
                    let (q, tq) = found[j];
                    proof {
                        assert(0 <= tq * p.den <= 0x4000_0000_0000_0000_0000_0000_0000_0000)
                            by (nonlinear_arith)
                            requires
                                0 <= tq <= 0x8000_0000_0000_0000,
                                0 <= p.den <= 0x8000_0000_0000_0000,
                        ;
                        assert(0 <= t * q.den <= 0x4000_0000_0000_0000_0000_0000_0000_0000)
                            by (nonlinear_arith)
                            requires
                                0 <= t <= 0x8000_0000_0000_0000,
                                0 <= q.den <= 0x8000_0000_0000_0000,
                        ;
                    }
                    if tq * p.den == t * q.den {
                        dup = true;
                    }
                    proof {
                        assert(before[j as int].0 == q && before[j as int].1 == tq);
                    }
                    j += 1;
                }
                proof {
                    assert(dup == seen(before, t as int, p.den as int));
                }
                if !dup {
                    found.push((p, t));
                }
            },
            None => {},
        }
        proof {
            let next = crossings_upto(a, b, es, i + 1);
            assert(next.len() == found@.len());
        }
        i += 1;
    }
    let a_in = point_inside_frame(a, frame);
    let b_in = point_inside_frame(b, frame);
    if !a_in && !b_in {
        if found.len() == 1 {
            FrameIntersection::One(found[0].0)
        } else if found.len() == 2 {
            FrameIntersection::Two(found[0].0, found[1].0)
        } else {
            FrameIntersection::Empty
        }
    } else if !a_in || !b_in {
        if found.len() == 0 {
            FrameIntersection::Empty
        } else {
            let ghost xs = crossings_upto(a, b, es, 4);
            let mut chosen: Option<RatPoint> = None;
            let mut k: usize = 0;
            while k < found.len()
                invariant
                    k <= found@.len(),
                    found@.len() == xs.len(),
                    forall|j: int| 0 <= j < found@.len() ==> (#[trigger] found@[j]).0 == xs[j].0
                        && found@[j].1 as int == xs[j].1,
                    chosen == first_away(xs.subrange(0, k as int), a_in),
                decreases found@.len() - k,
            {
                let (q, t) = found[k];
                proof {
                    let next = xs.subrange(0, k + 1);
                    assert(next.drop_last() =~= xs.subrange(0, k as int));
                    assert(next.last() == xs[k as int]);
                }
                if chosen.is_none() {
                    let away = if a_in {
                        t != 0
                    } else {
                        t != q.den
                    };
                    if away {
                        chosen = Some(q);
                    }
                }
                k += 1;
            }
            proof {
                assert(xs.subrange(0, found@.len() as int) =~= xs);
            }
            match chosen {
                Some(p) => FrameIntersection::One(p),
                None => FrameIntersection::One(found[0].0),
            }
        }
    } else {
        FrameIntersection::Empty
    }
}

/// The part of the segment `a b` that lies in the frame spanned by two
/// corners, with rational ends; see `clipped`.
pub fn clip_to_frame(a: Point, b: Point, frame: (Point, Point)) -> (r: Option<(RatPoint, RatPoint)>)
    requires
        clip_coord_ok(a.0), clip_coord_ok(a.1), clip_coord_ok(b.0), clip_coord_ok(b.1),
        frame_ok(frame),
    ensures
        r == clipped(a, b, frame),
{
    let exact_a = RatPoint { x: a.0 as i128, y: a.1 as i128, den: 1 };
    let exact_b = RatPoint { x: b.0 as i128, y: b.1 as i128, den: 1 };
    match frame_intersection(a, b, frame) {
        FrameIntersection::Two(p, q) => Some((p, q)),
        FrameIntersection::One(p) => if point_inside_frame(a, frame) {
            Some((exact_a, p))
        } else if point_inside_frame(b, frame) {
            Some((p, exact_b))
        } else {
            None
        },
        FrameIntersection::Empty => if point_inside_frame(a, frame) && point_inside_frame(b, frame) {
            Some((exact_a, exact_b))
        } else {
            None
        },
    }
}

/// Clipping a segment that lies in the frame gives the segment back.
pub proof fn lemma_clip_keeps_inner_segments(a: Point, b: Point, frame: (Point, Point))
    requires
        in_frame(a, frame),
        in_frame(b, frame),
    ensures
        clipped(a, b, frame) == Some((exact(a), exact(b))),
{
}

/// The point `a + (t / den) (b - a)` of the segment `a b` lies in the
/// closed frame.
pub open spec fn segment_point_in_frame(a: Point, b: Point, frame: (Point, Point), t: int, den: int) -> bool {
    let (l, r, btm, top) = bounds(frame);
    &&& den > 0
    &&& 0 <= t <= den
    &&& l * den <= a.0 * den + t * (b.0 - a.0) <= r * den
    &&& btm * den <= a.1 * den + t * (b.1 - a.1) <= top * den
}

/// Some point of the segment `a b` lies in the closed frame.
pub open spec fn segment_meets_frame(a: Point, b: Point, frame: (Point, Point)) -> bool {
    exists|t: int, den: int| #[trigger] segment_point_in_frame(a, b, frame, t, den)
}

/// Clipping a segment of which no point lies in the frame gives nothing.
pub proof fn lemma_clip_drops_outer_segments(a: Point, b: Point, frame: (Point, Point))
    requires
        clip_coord_ok(a.0), clip_coord_ok(a.1), clip_coord_ok(b.0), clip_coord_ok(b.1),
        frame_ok(frame),
        !segment_meets_frame(a, b, frame),
    ensures
        clipped(a, b, frame) is None,
{
    let (l, r, btm, top) = bounds(frame);
    if in_frame(a, frame) {
        assert(segment_point_in_frame(a, b, frame, 0, 1));
    }
    if in_frame(b, frame) {
        assert(segment_point_in_frame(a, b, frame, 1, 1));
    }
    let es = frame_edges(frame);
    lemma_crossings_in_frame(a, b, frame, 4);
    if frame_crossings(a, b, frame).len() > 0 {
        let x = frame_crossings(a, b, frame)[0];
        assert(segment_point_in_frame(a, b, frame, x.1, x.0.den as int));
    }
}

/// Every crossing found on the first `n` edges is a point of the segment in
/// the frame.
proof fn lemma_crossings_in_frame(a: Point, b: Point, frame: (Point, Point), n: int)
    requires
        clip_coord_ok(a.0), clip_coord_ok(a.1), clip_coord_ok(b.0), clip_coord_ok(b.1),
        frame_ok(frame),
        0 <= n <= 4,
    ensures
        forall|i: int| 0 <= i < crossings_upto(a, b, frame_edges(frame), n).len() ==> {
            let x = #[trigger] crossings_upto(a, b, frame_edges(frame), n)[i];
            segment_point_in_frame(a, b, frame, x.1, x.0.den as int)
        },
    decreases n,
{
    if n > 0 {
        lemma_crossings_in_frame(a, b, frame, n - 1);
        let es = frame_edges(frame);
        let e = es[n - 1];
        let before = crossings_upto(a, b, es, n - 1);
        let cur = crossings_upto(a, b, es, n);
        match crossing(a, b, e.0, e.1) {
            Some(p) => {
                lemma_edge_crossing_in_frame(a, b, frame, n - 1);
                let t = crossing_param(a, b, e.0, e.1);
                assert forall|i: int| 0 <= i < cur.len() implies segment_point_in_frame(a, b, frame,
                    (#[trigger] cur[i]).1, cur[i].0.den as int) by {
                    if i < before.len() {
                        assert(cur[i] == before[i]);
                    } else {
                        assert(cur[i] == (p, t));
                    }
                }
            },
            None => {
                assert(cur == before);
            },
        }
    }
}

/// A crossing with edge `k` of the frame is a point of the segment in the
/// frame.
proof fn lemma_edge_crossing_in_frame(a: Point, b: Point, frame: (Point, Point), k: int)
    requires
        clip_coord_ok(a.0), clip_coord_ok(a.1), clip_coord_ok(b.0), clip_coord_ok(b.1),
        frame_ok(frame),
        0 <= k < 4,
        crossing(a, b, frame_edges(frame)[k].0, frame_edges(frame)[k].1) is Some,
    ensures
        segment_point_in_frame(a, b, frame, crossing_param(a, b, frame_edges(frame)[k].0,
            frame_edges(frame)[k].1), crossing(a, b, frame_edges(frame)[k].0, frame_edges(
            frame)[k].1).unwrap().den as int),
{
    let (l, r, btm, top) = bounds(frame);
    let (c, d) = frame_edges(frame)[k];
    let (ax, ay, cx, cy, dx, dy) = (a.0 as int, a.1 as int, c.0 as int, c.1 as int, d.0 as int, d.1 as int);
    let (rx, ry, sx, sy) = (b.0 - a.0, b.1 - a.1, dx - cx, dy - cy);
    let (qx, qy) = (cx - ax, cy - ay);
    let dd = cross(rx, ry, sx, sy);
    let t0 = cross(qx, qy, sx, sy);
    let u0 = cross(qx, qy, rx, ry);
    assert(t0 * rx - u0 * sx == qx * dd) by (nonlinear_arith)
        requires
            dd == rx * sy - ry * sx,
            t0 == qx * sy - qy * sx,
            u0 == qx * ry - qy * rx,
    ;
    assert(t0 * ry - u0 * sy == qy * dd) by (nonlinear_arith)
        requires
            dd == rx * sy - ry * sx,
            t0 == qx * sy - qy * sx,
            u0 == qx * ry - qy * rx,
    ;
    let den = if dd > 0 { dd } else { -dd };
    let t = if dd > 0 { t0 } else { -t0 };
    let u = if dd > 0 { u0 } else { -u0 };
    assert(ax * den + t * rx == cx * den + u * sx && ay * den + t * ry == cy * den + u * sy)
        by (nonlinear_arith)
        requires
            t0 * rx - u0 * sx == qx * dd,
            t0 * ry - u0 * sy == qy * dd,
            qx == cx - ax,
            qy == cy - ay,
            den == if dd > 0 { dd } else { -dd },
            t == if dd > 0 { t0 } else { -t0 },
            u == if dd > 0 { u0 } else { -u0 },
    ;
    assert(0 <= u <= den && den > 0);
    assert(-0x4000_0000_0000_0000 <= rx * sy <= 0x4000_0000_0000_0000) by (nonlinear_arith)
        requires
            -0x8000_0000 <= rx <= 0x8000_0000,
            -0x8000_0000 <= sy <= 0x8000_0000,
    ;
    assert(-0x4000_0000_0000_0000 <= ry * sx <= 0x4000_0000_0000_0000) by (nonlinear_arith)
        requires
            -0x8000_0000 <= ry <= 0x8000_0000,
            -0x8000_0000 <= sx <= 0x8000_0000,
    ;
    assert(crossing(a, b, c, d).unwrap().den as int == den);
    assert(l <= cx <= r && l <= dx <= r && btm <= cy <= top && btm <= dy <= top);
    assert(l * den <= cx * den + u * sx <= r * den) by (nonlinear_arith)
        requires
            0 <= u <= den,
            l <= cx <= r,
            l <= dx <= r,
            sx == dx - cx,
    ;
    assert(btm * den <= cy * den + u * sy <= top * den) by (nonlinear_arith)
        requires
            0 <= u <= den,
            btm <= cy <= top,
            btm <= dy <= top,
            sy == dy - cy,
    ;
}

} // verus!
