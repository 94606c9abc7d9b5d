use vstd::prelude::*;
use crate::raster::Point;
use crate::region::orient;

verus! {

/// The integer point `(x, y)` lies in the closed triangle `v0 v1 v2`, which
/// has an area: for each edge, the point is on the side of the opposite
/// corner, or on the edge itself.
#[verifier::opaque]
pub open spec fn inside_at(v0: Point, v1: Point, v2: Point, x: int, y: int) -> bool {
    let d = orient(v0.0 as int, v0.1 as int, v1.0 as int, v1.1 as int, v2.0 as int, v2.1 as int);
    &&& d != 0
    &&& orient(v1.0 as int, v1.1 as int, v2.0 as int, v2.1 as int, x, y) * d >= 0
    &&& orient(v2.0 as int, v2.1 as int, v0.0 as int, v0.1 as int, x, y) * d >= 0
    &&& orient(v0.0 as int, v0.1 as int, v1.0 as int, v1.1 as int, x, y) * d >= 0
}

/// `lo <= x <= hi`.
pub open spec fn between(lo: int, x: int, hi: int) -> bool {
    lo <= x <= hi
}

/// A coordinate that the exact row spans accept.
pub open spec fn span_coord_ok(v: int) -> bool {
    -0x1_0000_0000 <= v <= 0x1_0000_0000
}

pub open spec fn span_point_ok(p: Point) -> bool {
    span_coord_ok(p.0 as int) && span_coord_ok(p.1 as int)
}

fn mul_bounded(a: i128, b: i128) -> (r: i128)
    requires
        -0x4_0000_0000 <= a <= 0x4_0000_0000,
        -0x4_0000_0000 <= b <= 0x4_0000_0000,
    ensures
        r == a * b,
        -0x10_0000_0000_0000_0000 <= r <= 0x10_0000_0000_0000_0000,
{
    proof {
        assert(-0x10_0000_0000_0000_0000 <= a * b <= 0x10_0000_0000_0000_0000) by (nonlinear_arith)
            requires
                -0x4_0000_0000 <= a <= 0x4_0000_0000,
                -0x4_0000_0000 <= b <= 0x4_0000_0000,
        ;
    }
    a * b
}

/// The side of the edge `a b` that a point of row `y` is on, as a linear
/// function `slope * x + offset` of its x.
fn edge_line(a: Point, b: Point, y: i64) -> (r: (i128, i128))
    requires
        span_point_ok(a),
        span_point_ok(b),
        span_coord_ok(y as int),
    ensures
        forall|x: int| #[trigger] orient(a.0 as int, a.1 as int, b.0 as int, b.1 as int, x, y as int)
            == r.0 * x + r.1,
        -0x4_0000_0000 <= r.0 <= 0x4_0000_0000,
        -0x40_0000_0000_0000_0000 <= r.1 <= 0x40_0000_0000_0000_0000,
{
    let slope = a.1 as i128 - b.1 as i128;
    let p = mul_bounded(b.0 as i128 - a.0 as i128, y as i128 - a.1 as i128);
    let q = mul_bounded(b.1 as i128 - a.1 as i128, a.0 as i128);
    let offset = p + q;
    proof {
        assert forall|x: int| #[trigger] orient(a.0 as int, a.1 as int, b.0 as int, b.1 as int, x,
            y as int) == slope * x + offset by {
            let (ax, ay, bx, by) = (a.0 as int, a.1 as int, b.0 as int, b.1 as int);
            assert((bx - ax) * (y - ay) - (by - ay) * (x - ax) == (ay - by) * x + ((bx - ax) * (y - ay)
                + (by - ay) * ax)) by (nonlinear_arith);
        }
    }
    (slope, offset)
}

/// Division rounding down, for a positive divisor.
fn div_floor(n: i128, d: i128) -> (r: i128)
    requires
        d > 0,
        -0x1000_0000_0000_0000_0000 <= n <= 0x1000_0000_0000_0000_0000,
    ensures
        r == n as int / d as int,
        -0x1000_0000_0000_0000_0000 <= r <= 0x1000_0000_0000_0000_0000,
{
    if n >= 0 {
        proof {
            vstd::arithmetic::div_mod::lemma_div_is_ordered_by_denominator(n as int, 1, d as int);
            vstd::arithmetic::div_mod::lemma_div_basics(n as int);
            vstd::arithmetic::div_mod::lemma_div_pos_is_pos(n as int, d as int);
        }
        n / d
    } else {
        let m = -n;
        let q = m / d;
        let rem = m % d;
        proof {
            vstd::arithmetic::div_mod::lemma_fundamental_div_mod(m as int, d as int);
            vstd::arithmetic::div_mod::lemma_div_is_ordered_by_denominator(m as int, 1, d as int);
            vstd::arithmetic::div_mod::lemma_div_basics(m as int);
            vstd::arithmetic::div_mod::lemma_div_pos_is_pos(m as int, d as int);
            assert(d * q == q * d) by (nonlinear_arith);
            assert((-q) * d == -(q * d)) by (nonlinear_arith);
            if rem == 0 {
                vstd::arithmetic::div_mod::lemma_fundamental_div_mod_converse_div(n as int, d as int,
                    -q as int, 0);
            } else {
                assert((-q - 1) * d == -(q * d) - d) by (nonlinear_arith);
                vstd::arithmetic::div_mod::lemma_fundamental_div_mod_converse_div(n as int, d as int,
                    -q - 1, d - rem);
                if q == m {
                    assert(d * q >= q) by (nonlinear_arith)
                        requires
                            d >= 1,
                            q >= 0,
                    ;
                }
            }
        }
        if rem == 0 {
            -q
        } else {
            -q - 1
        }
    }
}

/// Narrows the interval `[lo, hi]` to the `x` with `a * x + k >= 0`; an
/// empty result has its start past its end.
fn narrow(a: i128, k: i128, lo: i128, hi: i128) -> (r: (i128, i128))
    requires
        -0x10_0000_0000 <= a <= 0x10_0000_0000,
        -0x1000_0000_0000_0000_0000 <= k <= 0x1000_0000_0000_0000_0000,
        -0x1000_0000_0000_0000_0000 <= lo <= 0x1000_0000_0000_0000_0000,
        -0x1000_0000_0000_0000_0000 <= hi <= 0x1000_0000_0000_0000_0000,
    ensures
        forall|x: int|
            #![trigger between(r.0 as int, x, r.1 as int)]
            #![trigger a * x]
            between(r.0 as int, x, r.1 as int) == (lo <= x <= hi && a * x + k >= 0),
        -0x1000_0000_0000_0000_0000 <= r.0 <= 0x1000_0000_0000_0000_0000,
        -0x1000_0000_0000_0000_0000 <= r.1 <= 0x1000_0000_0000_0000_0000,
{
    if a > 0 {
        let q = div_floor(k, a);
        proof {
            vstd::arithmetic::div_mod::lemma_fundamental_div_mod(k as int, a as int);
            let rem = (k as int) % (a as int);
            assert(0 <= rem < a);
            assert(a * q == q * a) by (nonlinear_arith);
            assert forall|x: int| (#[trigger] (a * x) + k >= 0) == (x >= -q) by {
                if x >= -q {
                    assert(a * x + k >= 0) by (nonlinear_arith)
                        requires
                            x >= -q,
                            k == a * q + rem,
                            rem >= 0,
                            a > 0,
                    ;
                } else {
                    assert(a * x + k < 0) by (nonlinear_arith)
                        requires
                            x <= -q - 1,
                            k == a * q + rem,
                            rem < a,
                            a > 0,
                    ;
                }
            }
        }
        let m = -q;
        let start = if m > lo {
            m
        } else {
            lo
        };
        (start, hi)
    } else if a < 0 {
        let b = -a;
        let q = div_floor(k, b);
        proof {
            vstd::arithmetic::div_mod::lemma_fundamental_div_mod(k as int, b as int);
            let rem = (k as int) % (b as int);
            assert(0 <= rem < b);
            assert(b * q == q * b) by (nonlinear_arith);
            assert forall|x: int| (#[trigger] (a * x) + k >= 0) == (x <= q) by {
                if x <= q {
                    assert(a * x + k >= 0) by (nonlinear_arith)
                        requires
                            x <= q,
                            k == b * q + rem,
                            rem >= 0,
                            b > 0,
                            a == -b,
                    ;
                } else {
                    assert(a * x + k < 0) by (nonlinear_arith)
                        requires
                            x >= q + 1,
                            k == b * q + rem,
                            rem < b,
                            b > 0,
                            a == -b,
                    ;
                }
            }
        }
        let end = if q < hi {
            q
        } else {
            hi
        };
        (lo, end)
    } else {
        proof {
            assert forall|x: int| #[trigger] (a * x) == 0 by {
                assert(a * x == 0) by (nonlinear_arith)
                    requires
                        a == 0,
                ;
            }
        }
        if k >= 0 {
            (lo, hi)
        } else {
            (1, 0)
        }
    }
}

/// The x of the points of row `y` that lie in the closed triangle and in
/// `[lo, hi]`: an interval, empty where its start is past its end.
pub fn row_span(v0: Point, v1: Point, v2: Point, y: i64, lo: i128, hi: i128) -> (r: (i128, i128))
    requires
        span_point_ok(v0),
        span_point_ok(v1),
        span_point_ok(v2),
        span_coord_ok(y as int),
        -0x1_0000_0000_0000 <= lo <= 0x1_0000_0000_0000,
        -0x1_0000_0000_0000 <= hi <= 0x1_0000_0000_0000,
    ensures
        forall|x: int|
            #![trigger inside_at(v0, v1, v2, x, y as int)]
            #![trigger between(r.0 as int, x, r.1 as int)]
            between(r.0 as int, x, r.1 as int) == (lo <= x <= hi && inside_at(v0, v1, v2, x, y as int)),
{
    let (a0, k0) = edge_line(v1, v2, y);
    let (a1, k1) = edge_line(v2, v0, y);
    let (a2, k2) = edge_line(v0, v1, y);
    let d1 = mul_bounded(v1.0 as i128 - v0.0 as i128, v2.1 as i128 - v0.1 as i128);
    let d2 = mul_bounded(v1.1 as i128 - v0.1 as i128, v2.0 as i128 - v0.0 as i128);
    let d = d1 - d2;
    let ghost dd = orient(v0.0 as int, v0.1 as int, v1.0 as int, v1.1 as int, v2.0 as int,
        v2.1 as int);
    assert(d == dd);
    if d == 0 {
        assert forall|x: int| !#[trigger] inside_at(v0, v1, v2, x, y as int) by {
            lemma_inside_at_def(v0, v1, v2, x, y as int);
        }
        return (1, 0);
    }
    let positive = d > 0;
    let (b0, l0, b1, l1, b2, l2) = if positive {
        (a0, k0, a1, k1, a2, k2)
    } else {
        (-a0, -k0, -a1, -k1, -a2, -k2)
    };
    let (s1, t1) = narrow(b0, l0, lo, hi);
    let (s2, t2) = narrow(b1, l1, s1, t1);
    let (s3, t3) = narrow(b2, l2, s2, t2);
    proof {
        lemma_row(v0, v1, v2, y as int, lo as int, hi as int, dd, a0 as int, k0 as int, a1 as int,
            k1 as int, a2 as int, k2 as int, b0 as int, l0 as int, b1 as int, l1 as int, b2 as int,
            l2 as int, s1 as int, t1 as int, s2 as int, t2 as int, s3 as int, t3 as int);
    }
    (s3, t3)
}

proof fn lemma_row(
    v0: Point, v1: Point, v2: Point, y: int, lo: int, hi: int, dd: int,
    a0: int, k0: int, a1: int, k1: int, a2: int, k2: int,
    b0: int, l0: int, b1: int, l1: int, b2: int, l2: int,
    s1: int, t1: int, s2: int, t2: int, s3: int, t3: int,
)
    requires
        dd == orient(v0.0 as int, v0.1 as int, v1.0 as int, v1.1 as int, v2.0 as int, v2.1 as int),
        dd != 0,
        forall|x: int| #[trigger] orient(v1.0 as int, v1.1 as int, v2.0 as int, v2.1 as int, x, y)
            == a0 * x + k0,
        forall|x: int| #[trigger] orient(v2.0 as int, v2.1 as int, v0.0 as int, v0.1 as int, x, y)
            == a1 * x + k1,
        forall|x: int| #[trigger] orient(v0.0 as int, v0.1 as int, v1.0 as int, v1.1 as int, x, y)
            == a2 * x + k2,
        dd > 0 ==> b0 == a0 && l0 == k0 && b1 == a1 && l1 == k1 && b2 == a2 && l2 == k2,
        dd < 0 ==> b0 == -a0 && l0 == -k0 && b1 == -a1 && l1 == -k1 && b2 == -a2 && l2 == -k2,
        forall|x: int|
            #![trigger between(s1, x, t1)]
            #![trigger b0 * x]
            between(s1, x, t1) == (lo <= x <= hi && b0 * x + l0 >= 0),
        forall|x: int|
            #![trigger between(s2, x, t2)]
            #![trigger b1 * x]
            between(s2, x, t2) == (s1 <= x <= t1 && b1 * x + l1 >= 0),
        forall|x: int|
            #![trigger between(s3, x, t3)]
            #![trigger b2 * x]
            between(s3, x, t3) == (s2 <= x <= t2 && b2 * x + l2 >= 0),
    ensures
        forall|x: int|
            #![trigger inside_at(v0, v1, v2, x, y)]
            #![trigger between(s3, x, t3)]
            between(s3, x, t3) == (lo <= x <= hi && inside_at(v0, v1, v2, x, y)),
{
    assert forall|x: int|
        #![trigger inside_at(v0, v1, v2, x, y)]
        #![trigger between(s3, x, t3)]
        between(s3, x, t3) == (lo <= x <= hi && inside_at(v0, v1, v2, x, y)) by {
        lemma_inside_at_def(v0, v1, v2, x, y);
        assert(between(s1, x, t1) == (lo <= x <= hi && b0 * x + l0 >= 0));
        assert(between(s2, x, t2) == (s1 <= x <= t1 && b1 * x + l1 >= 0));
        assert(between(s3, x, t3) == (s2 <= x <= t2 && b2 * x + l2 >= 0));
        let e0 = orient(v1.0 as int, v1.1 as int, v2.0 as int, v2.1 as int, x, y);
        let e1 = orient(v2.0 as int, v2.1 as int, v0.0 as int, v0.1 as int, x, y);
        let e2 = orient(v0.0 as int, v0.1 as int, v1.0 as int, v1.1 as int, x, y);
        assert(e0 == a0 * x + k0);
        assert(e1 == a1 * x + k1);
        assert(e2 == a2 * x + k2);
        lemma_sign_side(e0, dd);
        lemma_sign_side(e1, dd);
        lemma_sign_side(e2, dd);
        if dd < 0 {
            assert(b0 * x == -(a0 * x)) by (nonlinear_arith)
                requires
                    b0 == -a0,
            ;
            assert(b1 * x == -(a1 * x)) by (nonlinear_arith)
                requires
                    b1 == -a1,
            ;
            assert(b2 * x == -(a2 * x)) by (nonlinear_arith)
                requires
                    b2 == -a2,
            ;
        }
    }
}

pub(crate) proof fn lemma_inside_at_def(v0: Point, v1: Point, v2: Point, x: int, y: int)
    ensures
        inside_at(v0, v1, v2, x, y) == ({
            let d = orient(v0.0 as int, v0.1 as int, v1.0 as int, v1.1 as int, v2.0 as int,
                v2.1 as int);
            &&& d != 0
            &&& orient(v1.0 as int, v1.1 as int, v2.0 as int, v2.1 as int, x, y) * d >= 0
            &&& orient(v2.0 as int, v2.1 as int, v0.0 as int, v0.1 as int, x, y) * d >= 0
            &&& orient(v0.0 as int, v0.1 as int, v1.0 as int, v1.1 as int, x, y) * d >= 0
        }),
{
    reveal(inside_at);
}

proof fn lemma_sign_side(e: int, d: int)
    requires
        d != 0,
    ensures
        d > 0 ==> (e * d >= 0 <==> e >= 0),
        d < 0 ==> (e * d >= 0 <==> -e >= 0),
{
    if d > 0 {
        if e >= 0 {
            assert(e * d >= 0) by (nonlinear_arith) requires e >= 0, d > 0;
        } else {
            assert(e * d < 0) by (nonlinear_arith) requires e < 0, d > 0;
        }
    } else {
        if e <= 0 {
            assert(e * d >= 0) by (nonlinear_arith) requires e <= 0, d < 0;
        } else {
            assert(e * d < 0) by (nonlinear_arith) requires e > 0, d < 0;
        }
    }
}

} // verus!
