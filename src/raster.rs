use vstd::prelude::*;
use crate::region::{orient, UDimensions};
use crate::span::{between, inside_at, lemma_inside_at_def, row_span};
use crate::vec::{uvec2, UVec2};

verus! {

/// A point with integer coordinates, in pixel space.
pub type Point = (i64, i64);

/// A coordinate of a pixel-space corner: anything an `i32` or a `u32` holds.
pub open spec fn coord_ok(v: i64) -> bool {
    -0x8000_0000 <= v <= 0xFFFF_FFFF
}

pub open spec fn point_ok(p: Point) -> bool {
    coord_ok(p.0) && coord_ok(p.1)
}

/// The numerator of the first barycentric weight of `p`.
pub open spec fn bary_n0(v0: Point, v1: Point, v2: Point, p: Point) -> int {
    (v1.1 - v2.1) * (p.0 - v2.0) + (v2.0 - v1.0) * (p.1 - v2.1)
}

/// The numerator of the second barycentric weight of `p`.
pub open spec fn bary_n1(v0: Point, v1: Point, v2: Point, p: Point) -> int {
    (v2.1 - v0.1) * (p.0 - v2.0) + (v0.0 - v2.0) * (p.1 - v2.1)
}

/// The common denominator of the weights: the first numerator taken at `v0`.
pub open spec fn bary_denom(v0: Point, v1: Point, v2: Point) -> int {
    bary_n0(v0, v1, v2, v0)
}

/// The barycentric weights of a point, as three numerators over a common
/// denominator: weight `i` is `ni / denom`.
#[derive(Clone, Copy, PartialEq, Eq, Structural, Debug)]
pub struct Barycentric {
    pub n0: i128,
    pub n1: i128,
    pub n2: i128,
    pub denom: i128,
}

impl Barycentric {
    /// These are the weights of `p` against the corners `v0 v1 v2`, the third
    /// one being what the first two leave of one.
    pub open spec fn of(self, v0: Point, v1: Point, v2: Point, p: Point) -> bool {
        &&& self.n0 == bary_n0(v0, v1, v2, p)
        &&& self.n1 == bary_n1(v0, v1, v2, p)
        &&& self.denom == bary_denom(v0, v1, v2)
        &&& self.n2 == self.denom - self.n0 - self.n1
    }

    /// No weight is negative: each numerator has the sign of a non-zero
    /// denominator, or is zero.
    pub open spec fn all_non_negative(self) -> bool {
        &&& self.denom != 0
        &&& self.n0 * self.denom >= 0
        &&& self.n1 * self.denom >= 0
        &&& self.n2 * self.denom >= 0
    }

    pub fn is_inside(&self) -> (r: bool)
        requires
            -0x100_0000_0000_0000_0000 <= self.n0 <= 0x100_0000_0000_0000_0000,
            -0x100_0000_0000_0000_0000 <= self.n1 <= 0x100_0000_0000_0000_0000,
            -0x100_0000_0000_0000_0000 <= self.n2 <= 0x100_0000_0000_0000_0000,
        ensures
            r == self.all_non_negative(),
    {
        if self.denom == 0 {
            return false;
        }
        proof {
            lemma_sign_of_product(self.n0 as int, self.denom as int);
            lemma_sign_of_product(self.n1 as int, self.denom as int);
            lemma_sign_of_product(self.n2 as int, self.denom as int);
        }
        if self.denom > 0 {
            self.n0 >= 0 && self.n1 >= 0 && self.n2 >= 0
        } else {
            self.n0 <= 0 && self.n1 <= 0 && self.n2 <= 0
        }
    }
}

proof fn lemma_sign_of_product(a: int, d: int)
    requires
        d != 0,
    ensures
        d > 0 ==> (a * d >= 0 <==> a >= 0),
        d < 0 ==> (a * d >= 0 <==> a <= 0),
{
    if d > 0 {
        if a >= 0 {
            assert(a * d >= 0) by (nonlinear_arith) requires a >= 0, d > 0;
        } else {
            assert(a * d < 0) by (nonlinear_arith) requires a < 0, d > 0;
        }
    } else {
        if a <= 0 {
            assert(a * d >= 0) by (nonlinear_arith) requires a <= 0, d < 0;
        } else {
            assert(a * d < 0) by (nonlinear_arith) requires a > 0, d < 0;
        }
    }
}

/// `p` lies in the closed triangle `v0 v1 v2`, which has an area: for each
/// edge, `p` is on the side of the opposite corner, or on the edge itself.
pub open spec fn inside_triangle(v0: Point, v1: Point, v2: Point, p: Point) -> bool {
    inside_at(v0, v1, v2, p.0 as int, p.1 as int)
}

/// The weights of any point sum to one, and a point lies in the triangle
/// exactly when no weight is negative.
pub proof fn lemma_barycentric_partition(v0: Point, v1: Point, v2: Point, p: Point, w: Barycentric)
    requires
        w.of(v0, v1, v2, p),
    ensures
        w.n0 + w.n1 + w.n2 == w.denom,
        w.all_non_negative() == inside_triangle(v0, v1, v2, p),
{
    let (ax, ay, bx, by, cx, cy, px, py) = (v0.0 as int, v0.1 as int, v1.0 as int, v1.1 as int,
        v2.0 as int, v2.1 as int, p.0 as int, p.1 as int);
    lemma_inside_at_def(v0, v1, v2, px, py);
    assert(w.n0 == orient(bx, by, cx, cy, px, py)) by (nonlinear_arith)
        requires
            w.n0 == (by - cy) * (px - cx) + (cx - bx) * (py - cy),
    ;
    assert(w.n1 == orient(cx, cy, ax, ay, px, py)) by (nonlinear_arith)
        requires
            w.n1 == (cy - ay) * (px - cx) + (ax - cx) * (py - cy),
    ;
    assert(w.denom == orient(ax, ay, bx, by, cx, cy)) by (nonlinear_arith)
        requires
            w.denom == (by - cy) * (ax - cx) + (cx - bx) * (ay - cy),
    ;
    lemma_third_weight(ax, ay, bx, by, cx, cy, px, py);
}

proof fn lemma_third_weight(ax: int, ay: int, bx: int, by: int, cx: int, cy: int, px: int, py: int)
    ensures
        orient(ax, ay, bx, by, cx, cy) - orient(bx, by, cx, cy, px, py) - orient(cx, cy, ax, ay, px,
            py) == orient(ax, ay, bx, by, px, py),
{
    lemma_orient_expand(ax, ay, bx, by, cx, cy);
    lemma_orient_expand(bx, by, cx, cy, px, py);
    lemma_orient_expand(cx, cy, ax, ay, px, py);
    lemma_orient_expand(ax, ay, bx, by, px, py);
}

proof fn lemma_orient_expand(ax: int, ay: int, bx: int, by: int, cx: int, cy: int)
    ensures
        orient(ax, ay, bx, by, cx, cy) == bx * cy - bx * ay - ax * cy - by * cx + by * ax + ay * cx,
{
    assert((bx - ax) * (cy - ay) == bx * cy - bx * ay - ax * cy + ax * ay) by (nonlinear_arith);
    assert((by - ay) * (cx - ax) == by * cx - by * ax - ay * cx + ay * ax) by (nonlinear_arith);
    assert(ax * ay == ay * ax) by (nonlinear_arith);
}

/// The barycentric weights of `p` against the corners `v0 v1 v2`, exactly.
pub fn barycentric_weights(v0: Point, v1: Point, v2: Point, p: Point) -> (r: Barycentric)
    requires
        point_ok(v0), point_ok(v1), point_ok(v2), point_ok(p),
    ensures
        r.of(v0, v1, v2, p),
        -0x100_0000_0000_0000_0000 <= r.n0 <= 0x100_0000_0000_0000_0000,
        -0x100_0000_0000_0000_0000 <= r.n1 <= 0x100_0000_0000_0000_0000,
        -0x100_0000_0000_0000_0000 <= r.n2 <= 0x100_0000_0000_0000_0000,
{
    let n0 = cross_sum(v1.1 as i128 - v2.1 as i128, p.0 as i128 - v2.0 as i128,
        v2.0 as i128 - v1.0 as i128, p.1 as i128 - v2.1 as i128);
    let n1 = cross_sum(v2.1 as i128 - v0.1 as i128, p.0 as i128 - v2.0 as i128,
        v0.0 as i128 - v2.0 as i128, p.1 as i128 - v2.1 as i128);
    let denom = cross_sum(v1.1 as i128 - v2.1 as i128, v0.0 as i128 - v2.0 as i128,
        v2.0 as i128 - v1.0 as i128, v0.1 as i128 - v2.1 as i128);
    Barycentric { n0, n1, n2: denom - n0 - n1, denom }
}

/// `a * b + c * d` for differences of pixel coordinates.
fn cross_sum(a: i128, b: i128, c: i128, d: i128) -> (r: i128)
    requires
        -0x2_0000_0000 <= a <= 0x2_0000_0000,
        -0x2_0000_0000 <= b <= 0x2_0000_0000,
        -0x2_0000_0000 <= c <= 0x2_0000_0000,
        -0x2_0000_0000 <= d <= 0x2_0000_0000,
    ensures
        r == a * b + c * d,
        -0x10_0000_0000_0000_0000 <= r <= 0x10_0000_0000_0000_0000,
{
    proof {
        assert(-0x4_0000_0000_0000_0000 <= a * b <= 0x4_0000_0000_0000_0000) by (nonlinear_arith)
            requires
                -0x2_0000_0000 <= a <= 0x2_0000_0000,
                -0x2_0000_0000 <= b <= 0x2_0000_0000,
        ;
        assert(-0x4_0000_0000_0000_0000 <= c * d <= 0x4_0000_0000_0000_0000) by (nonlinear_arith)
            requires
                -0x2_0000_0000 <= c <= 0x2_0000_0000,
                -0x2_0000_0000 <= d <= 0x2_0000_0000,
        ;
    }
    a * b + c * d
}

/// A pixel that a drawer covers, with its barycentric weights.
#[derive(Clone, Copy, PartialEq, Eq, Structural, Debug)]
pub struct Fragment {
    pub pixel: UVec2,
    pub weights: Barycentric,
}

/// The pixel-space point of a pixel.
pub open spec fn point_of(p: UVec2) -> Point {
    (p.x as i64, p.y as i64)
}

/// `a` comes before `b` in row-major scan order.
pub open spec fn scan_before(a: UVec2, b: UVec2) -> bool {
    a.y < b.y || (a.y == b.y && a.x < b.x)
}

pub open spec fn min3(a: u32, b: u32, c: u32) -> u32 {
    if a <= b && a <= c {
        a
    } else if b <= c {
        b
    } else {
        c
    }
}

pub open spec fn max3(a: u32, b: u32, c: u32) -> u32 {
    if a >= b && a >= c {
        a
    } else if b >= c {
        b
    } else {
        c
    }
}

fn min3_exec(a: u32, b: u32, c: u32) -> (r: u32)
    ensures
        r == min3(a, b, c),
{
    if a <= b && a <= c {
        a
    } else if b <= c {
        b
    } else {
        c
    }
}

fn max3_exec(a: u32, b: u32, c: u32) -> (r: u32)
    ensures
        r == max3(a, b, c),
{
    if a >= b && a >= c {
        a
    } else if b >= c {
        b
    } else {
        c
    }
}

/// Rasterizes a triangle by testing the weights of every pixel of its
/// bounding box.
pub struct BarycentricTriangleDrawer {
    buffer_dimensions: UDimensions,
}

impl BarycentricTriangleDrawer {
    pub closed spec fn dimensions(&self) -> UDimensions {
        self.buffer_dimensions
    }

    pub fn new(dimensions: UDimensions) -> (r: Self)
        ensures
            r.dimensions() == dimensions,
    {
        BarycentricTriangleDrawer { buffer_dimensions: dimensions }
    }

    /// The pixel `p` lies in the bounding box of the triangle's pixel-space
    /// corners and in the triangle itself.
    pub open spec fn covers(t: (UVec2, UVec2, UVec2), p: UVec2) -> bool {
        &&& min3(t.0.x, t.1.x, t.2.x) <= p.x <= max3(t.0.x, t.1.x, t.2.x)
        &&& min3(t.0.y, t.1.y, t.2.y) <= p.y <= max3(t.0.y, t.1.y, t.2.y)
        &&& inside_triangle(point_of(t.0), point_of(t.1), point_of(t.2), point_of(p))
    }

    /// Every pixel of the triangle with pixel-space corners `corners`, in
    /// scan order, with its weights. A triangle without area covers nothing.
    pub fn draw(&self, corners: (UVec2, UVec2, UVec2)) -> (r: Vec<Fragment>)
        ensures
            forall|k: int| 0 <= k < r@.len() ==> Self::covers(corners, #[trigger] r@[k].pixel),
            forall|k: int| 0 <= k < r@.len() ==> (#[trigger] r@[k]).weights.of(point_of(corners.0),
                point_of(corners.1), point_of(corners.2), point_of(r@[k].pixel)),
            forall|p: UVec2| #[trigger] Self::covers(corners, p) ==> exists|k: int|
                0 <= k < r@.len() && r@[k].pixel == p,
            forall|k1: int, k2: int| 0 <= k1 < k2 < r@.len() ==> scan_before(r@[k1].pixel,
                r@[k2].pixel),
    {
        let (c0, c1, c2) = corners;
        let v0: Point = (c0.x as i64, c0.y as i64);
        let v1: Point = (c1.x as i64, c1.y as i64);
        let v2: Point = (c2.x as i64, c2.y as i64);
        let min_x = min3_exec(c0.x, c1.x, c2.x);
        let max_x = max3_exec(c0.x, c1.x, c2.x);
        let min_y = min3_exec(c0.y, c1.y, c2.y);
        let max_y = max3_exec(c0.y, c1.y, c2.y);
        let mut out: Vec<Fragment> = Vec::new();
        let mut y: u64 = min_y as u64;
        while y <= max_y as u64
            invariant
                min_y <= y <= max_y as u64 + 1,
                v0 == point_of(c0), v1 == point_of(c1), v2 == point_of(c2),
                corners == (c0, c1, c2),
                min_x == min3(c0.x, c1.x, c2.x),
                max_x == max3(c0.x, c1.x, c2.x),
                min_y == min3(c0.y, c1.y, c2.y),
                max_y == max3(c0.y, c1.y, c2.y),
                forall|k: int| 0 <= k < out@.len() ==> Self::covers(corners, #[trigger] out@[k].pixel)
                    && out@[k].pixel.y < y,
                forall|k: int| 0 <= k < out@.len() ==> (#[trigger] out@[k]).weights.of(v0, v1, v2,
                    point_of(out@[k].pixel)),
                forall|p: UVec2| #[trigger] Self::covers(corners, p) && p.y < y ==> exists|k: int|
                    0 <= k < out@.len() && out@[k].pixel == p,
                forall|k1: int, k2: int| 0 <= k1 < k2 < out@.len() ==> scan_before(out@[k1].pixel,
                    out@[k2].pixel),
            decreases max_y as u64 + 1 - y,
        {
            let mut x: u64 = min_x as u64;
            proof {
                assert forall|p: UVec2| #[trigger] Self::covers(corners, p) && (p.y < y || (p.y == y
                    && p.x < x)) implies exists|k: int| 0 <= k < out@.len() && out@[k].pixel == p by {
                    assert(p.y < y);
                }
            }
            while x <= max_x as u64
                invariant
                    min_y <= y <= max_y,
                    min_x <= x <= max_x as u64 + 1,
                    v0 == point_of(c0), v1 == point_of(c1), v2 == point_of(c2),
                    corners == (c0, c1, c2),
                    min_x == min3(c0.x, c1.x, c2.x),
                    max_x == max3(c0.x, c1.x, c2.x),
                    min_y == min3(c0.y, c1.y, c2.y),
                    max_y == max3(c0.y, c1.y, c2.y),
                    forall|k: int| 0 <= k < out@.len() ==> Self::covers(corners, #[trigger] out@[k].pixel)
                        && (out@[k].pixel.y < y || (out@[k].pixel.y == y && out@[k].pixel.x < x)),
                    forall|k: int| 0 <= k < out@.len() ==> (#[trigger] out@[k]).weights.of(v0, v1,
                        v2, point_of(out@[k].pixel)),
                    forall|p: UVec2| #[trigger] Self::covers(corners, p) && (p.y < y || (p.y == y && p.x < x))
                        ==> exists|k: int| 0 <= k < out@.len() && out@[k].pixel == p,
                    forall|k1: int, k2: int| 0 <= k1 < k2 < out@.len() ==> scan_before(
                        out@[k1].pixel, out@[k2].pixel),
                decreases max_x as u64 + 1 - x,
            {
                let pixel = uvec2(x as u32, y as u32);
                let p: Point = (x as i64, y as i64);
                let weights = barycentric_weights(v0, v1, v2, p);
                proof {
                    lemma_barycentric_partition(v0, v1, v2, p, weights);
                }
                let ghost before = out@;
                if weights.is_inside() {
                    out.push(Fragment { pixel, weights });
                    proof {
                        assert(Self::covers(corners, pixel));
                        assert(out@[out@.len() - 1].pixel == pixel);
                    }
                }
                proof {
                    assert forall|q: UVec2| #[trigger] Self::covers(corners, q) && (q.y < y || (q.y == y && q.x
                        < x + 1)) implies exists|k: int| 0 <= k < out@.len() && out@[k].pixel == q by {
                        if q.y == y && q.x == x {
                            assert(q == pixel);
                            assert(out@[out@.len() - 1].pixel == q);
                        } else {
                            let k = choose|k: int| 0 <= k < before.len() && before[k].pixel == q;
                            assert(out@[k] == before[k]);
                        }
                    }
                }
                x += 1;
            }
            y += 1;
        }
        out
    }
}

/// Division rounding down, for a positive divisor.
fn floor_div(n: i128, d: i128) -> (r: i128)
    requires
        d > 0,
        n > i128::MIN,
    ensures
        r == n as int / d as int,
{
    if n >= 0 {
        n / d
    } else {
        let q = (-n) / d;
        let rem = (-n) % d;
        proof {
            vstd::arithmetic::div_mod::lemma_fundamental_div_mod(-n as int, d as int);
            assert(d * q == q * d) by (nonlinear_arith);
            assert((-q) * d == -(q * d)) by (nonlinear_arith);
            if rem == 0 {
                vstd::arithmetic::div_mod::lemma_fundamental_div_mod_converse_div(n as int,
                    d as int, -q as int, 0);
            } else {
                assert((-q - 1) * d == -(q * d) - d) by (nonlinear_arith);
                vstd::arithmetic::div_mod::lemma_fundamental_div_mod_converse_div(n as int,
                    d as int, -q - 1, d - rem);
            }
        }
        if rem == 0 {
            -q
        } else {
            -q - 1
        }
    }
}

pub open spec fn min3i(a: i64, b: i64, c: i64) -> i64 {
    if a <= b && a <= c {
        a
    } else if b <= c {
        b
    } else {
        c
    }
}

pub open spec fn max3i(a: i64, b: i64, c: i64) -> i64 {
    if a >= b && a >= c {
        a
    } else if b >= c {
        b
    } else {
        c
    }
}

fn min3i_exec(a: i64, b: i64, c: i64) -> (r: i64)
    ensures
        r == min3i(a, b, c),
{
    if a <= b && a <= c {
        a
    } else if b <= c {
        b
    } else {
        c
    }
}

fn max3i_exec(a: i64, b: i64, c: i64) -> (r: i64)
    ensures
        r == max3i(a, b, c),
{
    if a >= b && a >= c {
        a
    } else if b >= c {
        b
    } else {
        c
    }
}

/// A corner coordinate that the scanline drawer accepts: an `i32`.
pub open spec fn scan_coord_ok(v: i64) -> bool {
    -0x8000_0000 <= v < 0x8000_0000
}

/// Rasterizes a triangle row by row: on each row it works out, from the
/// three edges, the exact span of pixels in the triangle, and fills it.
pub struct UglyTriangleDrawer {
    buffer_dimensions: UDimensions,
}

impl UglyTriangleDrawer {
    pub closed spec fn dimensions(&self) -> UDimensions {
        self.buffer_dimensions
    }

    pub fn new(dimensions: UDimensions) -> (r: Self)
        ensures
            r.dimensions() == dimensions,
    {
        UglyTriangleDrawer { buffer_dimensions: dimensions }
    }

    /// The pixel `p` lies in the bounding box of the corners and in the
    /// closed triangle, as for the bounding-box drawer.
    pub open spec fn covers(t: (Point, Point, Point), p: UVec2) -> bool {
        &&& min3i(t.0.0, t.1.0, t.2.0) <= p.x <= max3i(t.0.0, t.1.0, t.2.0)
        &&& min3i(t.0.1, t.1.1, t.2.1) <= p.y <= max3i(t.0.1, t.1.1, t.2.1)
        &&& inside_triangle(t.0, t.1, t.2, point_of(p))
    }

    /// Every pixel of the closed triangle with pixel-space corners
    /// `corners`, in scan order, with its weights against the corners as
    /// given. Pixels with a negative coordinate lie outside any buffer and
    /// are left out; a triangle without area covers nothing.
    pub fn draw(&self, corners: (Point, Point, Point)) -> (r: Vec<Fragment>)
        requires
            scan_coord_ok(corners.0.0), scan_coord_ok(corners.0.1),
            scan_coord_ok(corners.1.0), scan_coord_ok(corners.1.1),
            scan_coord_ok(corners.2.0), scan_coord_ok(corners.2.1),
        ensures
            forall|k: int| 0 <= k < r@.len() ==> Self::covers(corners, #[trigger] r@[k].pixel),
            forall|k: int| 0 <= k < r@.len() ==> (#[trigger] r@[k]).weights.of(corners.0, corners.1,
                corners.2, point_of(r@[k].pixel)),
            forall|p: UVec2| #[trigger] Self::covers(corners, p) ==> exists|k: int|
                0 <= k < r@.len() && r@[k].pixel == p,
            forall|k1: int, k2: int| 0 <= k1 < k2 < r@.len() ==> scan_before(r@[k1].pixel,
                r@[k2].pixel),
    {
        let (c0, c1, c2) = corners;
        let min_x = min3i_exec(c0.0, c1.0, c2.0);
        let max_x = max3i_exec(c0.0, c1.0, c2.0);
        let min_y = min3i_exec(c0.1, c1.1, c2.1);
        let max_y = max3i_exec(c0.1, c1.1, c2.1);
        let mut out: Vec<Fragment> = Vec::new();
        let mut y: i64 = if min_y < 0 {
            0
        } else {
            min_y
        };
        while y <= max_y
            invariant
                corners == (c0, c1, c2),
                scan_coord_ok(c0.0), scan_coord_ok(c0.1), scan_coord_ok(c1.0), scan_coord_ok(c1.1),
                scan_coord_ok(c2.0), scan_coord_ok(c2.1),
                min_x == min3i(c0.0, c1.0, c2.0),
                max_x == max3i(c0.0, c1.0, c2.0),
                min_y == min3i(c0.1, c1.1, c2.1),
                max_y == max3i(c0.1, c1.1, c2.1),
                0 <= y,
                min_y <= y,
                y <= max_y + 1 || y == 0,
                forall|k: int| 0 <= k < out@.len() ==> Self::covers(corners, #[trigger] out@[k].pixel)
                    && out@[k].pixel.y < y,
                forall|k: int| 0 <= k < out@.len() ==> (#[trigger] out@[k]).weights.of(c0, c1, c2,
                    point_of(out@[k].pixel)),
                forall|p: UVec2| #[trigger] Self::covers(corners, p) && p.y < y ==> exists|k: int|
                    0 <= k < out@.len() && out@[k].pixel == p,
                forall|k1: int, k2: int| 0 <= k1 < k2 < out@.len() ==> scan_before(out@[k1].pixel,
                    out@[k2].pixel),
            decreases max_y + 1 - y,
        {
            let (start, end) = row_span(c0, c1, c2, y, min_x as i128, max_x as i128);
            let mut x: i128 = if start < 0 {
                0
            } else {
                start
            };
            proof {
                assert forall|p: UVec2| #[trigger] Self::covers(corners, p) && (p.y < y || (p.y == y
                    && p.x < x)) implies exists|k: int| 0 <= k < out@.len() && out@[k].pixel == p by {
                    if p.y == y {
                        assert(inside_at(c0, c1, c2, p.x as int, y as int));
                        assert(between(start as int, p.x as int, end as int));
                    }
                }
            }
            while x <= end
                invariant
                    corners == (c0, c1, c2),
                    scan_coord_ok(c0.0), scan_coord_ok(c0.1), scan_coord_ok(c1.0), scan_coord_ok(c1.1),
                    scan_coord_ok(c2.0), scan_coord_ok(c2.1),
                    min_x == min3i(c0.0, c1.0, c2.0),
                    max_x == max3i(c0.0, c1.0, c2.0),
                    min_y == min3i(c0.1, c1.1, c2.1),
                    max_y == max3i(c0.1, c1.1, c2.1),
                    0 <= y <= max_y,
                    min_y <= y,
                    0 <= x,
                    start <= x,
                    forall|q: int|
                        #![trigger inside_at(c0, c1, c2, q, y as int)]
                        #![trigger between(start as int, q, end as int)]
                        between(start as int, q, end as int) == (min_x <= q <= max_x && inside_at(c0,
                            c1, c2, q, y as int)),
                    forall|k: int| 0 <= k < out@.len() ==> Self::covers(corners, #[trigger] out@[k].pixel)
                        && (out@[k].pixel.y < y || (out@[k].pixel.y == y && out@[k].pixel.x < x)),
                    forall|k: int| 0 <= k < out@.len() ==> (#[trigger] out@[k]).weights.of(c0, c1,
                        c2, point_of(out@[k].pixel)),
                    forall|p: UVec2| #[trigger] Self::covers(corners, p) && (p.y < y || (p.y == y
                        && p.x < x)) ==> exists|k: int| 0 <= k < out@.len() && out@[k].pixel == p,
                    forall|k1: int, k2: int| 0 <= k1 < k2 < out@.len() ==> scan_before(
                        out@[k1].pixel, out@[k2].pixel),
                decreases end + 1 - x,
            {
                proof {
                    assert(between(start as int, x as int, end as int));
                }
                let pixel = uvec2(x as u32, y as u32);
                let p: Point = (x as i64, y);
                let weights = barycentric_weights(c0, c1, c2, p);
                let ghost before = out@;
                out.push(Fragment { pixel, weights });
                proof {
                    assert(point_of(pixel) == p);
                    assert(Self::covers(corners, pixel));
                    assert forall|q: UVec2| #[trigger] Self::covers(corners, q) && (q.y < y || (q.y
                        == y && q.x < x + 1)) implies exists|k: int| 0 <= k < out@.len()
                        && out@[k].pixel == q by {
                        if q.y == y && q.x == x {
                            assert(q == pixel);
                            assert(out@[out@.len() - 1].pixel == q);
                        } else {
                            let k = choose|k: int| 0 <= k < before.len() && before[k].pixel == q;
                            assert(out@[k] == before[k]);
                        }
                    }
                }
                x += 1;
            }
            proof {
                assert forall|p: UVec2| #[trigger] Self::covers(corners, p) && p.y < y + 1 implies exists|k: int|
                    0 <= k < out@.len() && out@[k].pixel == p by {
                    if p.y == y {
                        assert(inside_at(c0, c1, c2, p.x as int, y as int));
                        assert(between(start as int, p.x as int, end as int));
                    }
                }
            }
            y += 1;
        }
        out
    }
}

/// The two triangle drawers cover the same pixels: the scanline drawer,
/// given the pixel-space corners of the bounding-box drawer, covers exactly
/// what that one covers.
pub proof fn lemma_drawers_agree(t: (UVec2, UVec2, UVec2), p: UVec2)
    ensures
        UglyTriangleDrawer::covers((point_of(t.0), point_of(t.1), point_of(t.2)), p)
            == BarycentricTriangleDrawer::covers(t, p),
{
}

/// One pixel of an anti-aliased line, and how much of it the line covers:
/// `coverage / scale`, between zero and one.
#[derive(Clone, Copy, PartialEq, Eq, Debug)]
pub struct LinePlot {
    pub pixel: Point,
    pub coverage: i128,
    pub scale: i128,
}

pub open spec fn abs_int(v: int) -> int {
    if v < 0 {
        -v
    } else {
        v
    }
}

/// The line rises or falls faster than it runs.
pub open spec fn is_steep(a: Point, b: Point) -> bool {
    abs_int(b.1 - a.1) > abs_int(b.0 - a.0)
}

pub open spec fn transpose(p: Point) -> Point {
    (p.1, p.0)
}

/// The endpoints in the frame where the line runs left to right along x:
/// transposed for a steep line, then ordered by x.
pub open spec fn run_frame(a: Point, b: Point) -> (Point, Point) {
    let (a, b) = if is_steep(a, b) {
        (transpose(a), transpose(b))
    } else {
        (a, b)
    };
    if a.0 > b.0 {
        (b, a)
    } else {
        (a, b)
    }
}

/// A point of the run frame back on the pixel grid.
pub open spec fn to_grid(steep: bool, x: int, y: int) -> Point {
    if steep {
        (y as i64, x as i64)
    } else {
        (x as i64, y as i64)
    }
}

/// The run of the line, at least one.
pub open spec fn run_unit(a: Point, b: Point) -> int {
    let (s, e) = run_frame(a, b);
    if e.0 - s.0 >= 1 {
        e.0 - s.0
    } else {
        1
    }
}

/// Plot `j` (0 or 1) of column `k` of the line's inner columns: the pixel
/// under the line and the one above it, each weighted by the line's
/// distance from the other.
pub open spec fn inner_plot(a: Point, b: Point, k: int, j: int) -> LinePlot {
    let steep = is_steep(a, b);
    let (s, e) = run_frame(a, b);
    let run = e.0 - s.0;
    let x = s.0 + 1 + k;
    let t = (x - s.0) * (e.1 - s.1);
    let fy = s.1 + t / run;
    let m = t % run;
    if j == 0 {
        LinePlot { pixel: to_grid(steep, x, fy), coverage: (2 * (run - m)) as i128, scale: (2 * run) as i128 }
    } else {
        LinePlot { pixel: to_grid(steep, x, fy + 1), coverage: (2 * m) as i128, scale: (2 * run) as i128 }
    }
}

/// What Xiaolin Wu's algorithm plots for the line between two pixel
/// centres: each endpoint at half coverage with a zero-coverage neighbour,
/// then two pixels for each column strictly between them.
pub open spec fn wu_plots(a: Point, b: Point) -> Seq<LinePlot> {
    let steep = is_steep(a, b);
    let (s, e) = run_frame(a, b);
    let unit = run_unit(a, b);
    let scale = (2 * unit) as i128;
    let head = seq![
        LinePlot { pixel: to_grid(steep, s.0 as int, s.1 as int), coverage: unit as i128, scale },
        LinePlot { pixel: to_grid(steep, s.0 as int, s.1 + 1), coverage: 0, scale },
        LinePlot { pixel: to_grid(steep, e.0 as int, e.1 as int), coverage: unit as i128, scale },
        LinePlot { pixel: to_grid(steep, e.0 as int, e.1 + 1), coverage: 0, scale },
    ];
    let inner = if e.0 - s.0 >= 2 { 2 * (e.0 - s.0 - 1) } else { 0 };
    head + Seq::new(inner as nat, |i: int| inner_plot(a, b, i / 2, i % 2))
}

/// Draws anti-aliased lines, one pixel wide.
pub struct AaLineDrawer {
    buffer_dimensions: UDimensions,
}

/// A coordinate of a line endpoint in pixel space.
pub open spec fn line_coord_ok(v: i64) -> bool {
    -0x1_0000_0000 <= v <= 0x1_0000_0000
}

impl AaLineDrawer {
    pub closed spec fn dimensions(&self) -> UDimensions {
        self.buffer_dimensions
    }

    pub fn new(dimensions: UDimensions) -> (r: Self)
        ensures
            r.dimensions() == dimensions,
    {
        AaLineDrawer { buffer_dimensions: dimensions }
    }

    /// The pixels of the line from `a` to `b`, endpoints already rounded to
    /// pixel space, with their coverage.
    pub fn draw(&self, a: Point, b: Point) -> (r: Vec<LinePlot>)
        requires
            line_coord_ok(a.0), line_coord_ok(a.1), line_coord_ok(b.0), line_coord_ok(b.1),
        ensures
            r@ == wu_plots(a, b),
    {
        let steep = abs_i64(b.1 - a.1) > abs_i64(b.0 - a.0);
        let (mut s, mut e) = if steep {
            ((a.1, a.0), (b.1, b.0))
        } else {
            (a, b)
        };
        if s.0 > e.0 {
            let t = s;
            s = e;
            e = t;
        }
        assert((s, e) == run_frame(a, b));
        let run: i64 = e.0 - s.0;
        let unit: i64 = if run >= 1 { run } else { 1 };
        let scale = 2 * unit as i128;
        let mut out: Vec<LinePlot> = Vec::new();
        out.push(LinePlot { pixel: grid_point(steep, s.0, s.1), coverage: unit as i128, scale });
        out.push(LinePlot { pixel: grid_point(steep, s.0, s.1 + 1), coverage: 0, scale });
        out.push(LinePlot { pixel: grid_point(steep, e.0, e.1), coverage: unit as i128, scale });
        out.push(LinePlot { pixel: grid_point(steep, e.0, e.1 + 1), coverage: 0, scale });
        let ghost head = out@;
        proof {
            let w = wu_plots(a, b);
            assert(unit == run_unit(a, b));
            assert(head[0] == w[0]);
            assert(head[1] == w[1]);
            assert(head[2] == w[2]);
            assert(head[3] == w[3]);
        }
        let mut x: i64 = s.0 + 1;
        while x < e.0
            invariant
                (s, e) == run_frame(a, b),
                steep == is_steep(a, b),
                run == e.0 - s.0,
                line_coord_ok(s.0), line_coord_ok(s.1), line_coord_ok(e.0), line_coord_ok(e.1),
                s.0 + 1 <= x,
                x <= e.0 || x == s.0 + 1,
                head.len() == 4,
                out@.len() == 4 + 2 * (x - s.0 - 1),
                forall|i: int| 0 <= i < 4 ==> out@[i] == head[i],
                forall|j: int| 4 <= j < out@.len() ==> #[trigger] out@[j] == inner_plot(a, b, (j - 4)
                    / 2, (j - 4) % 2),
            decreases e.0 - x,
        {
            let dx = (x - s.0) as i128;
            let dy = e.1 as i128 - s.1 as i128;
            proof {
                assert(-0x10_0000_0000_0000_0000 <= dx * dy <= 0x10_0000_0000_0000_0000)
                    by (nonlinear_arith)
                    requires
                        0 <= dx <= 0x2_0000_0000,
                        -0x2_0000_0000 <= dy <= 0x2_0000_0000,
                ;
            }
            let t = dx * dy;
            let q = floor_div(t, run as i128);
            proof {
                vstd::arithmetic::div_mod::lemma_fundamental_div_mod(t as int, run as int);
                assert(run * q == q * run) by (nonlinear_arith);
                assert(0 <= (t as int) % (run as int) < run);
            }
            let m = t - q * run as i128;
            proof {
                assert(m == (t as int) % (run as int));
                assert(-0x10_0000_0000_0000_0000 <= q <= 0x10_0000_0000_0000_0000) by (nonlinear_arith)
                    requires
                        t == run * q + m,
                        0 <= m < run,
                        run >= 1,
                        -0x10_0000_0000_0000_0000 <= t <= 0x10_0000_0000_0000_0000,
                ;
            }
            let fy = s.1 as i128 + q;
            let k = x - s.0 - 1;
            let ghost before = out@;
            let p0 = LinePlot {
                pixel: grid_point_wide(steep, x as i128, fy),
                coverage: 2 * (run as i128 - m),
                scale: 2 * run as i128,
            };
            let p1 = LinePlot {
                pixel: grid_point_wide(steep, x as i128, fy + 1),
                coverage: 2 * m,
                scale: 2 * run as i128,
            };
            proof {
                assert(p0 == inner_plot(a, b, k as int, 0));
                assert(p1 == inner_plot(a, b, k as int, 1));
            }
            out.push(p0);
            out.push(p1);
            proof {
                assert forall|j: int| 4 <= j < out@.len() implies #[trigger] out@[j] == inner_plot(a, b,
                    (j - 4) / 2, (j - 4) % 2) by {
                    if j < before.len() {
                        assert(out@[j] == before[j]);
                    } else if j == before.len() {
                        assert((j - 4) / 2 == k && (j - 4) % 2 == 0);
                    } else {
                        assert((j - 4) / 2 == k && (j - 4) % 2 == 1);
                    }
                }
            }
            x += 1;
        }
        proof {
            let inner = if e.0 - s.0 >= 2 { 2 * (e.0 - s.0 - 1) } else { 0 };
            assert(out@.len() == 4 + inner);
            let w = wu_plots(a, b);
            assert(w.len() == out@.len());
            assert forall|j: int| 0 <= j < w.len() implies #[trigger] out@[j] == w[j] by {
                if j >= 4 {
                    assert(out@[j] == inner_plot(a, b, (j - 4) / 2, (j - 4) % 2));
                    assert(w[j] == inner_plot(a, b, (j - 4) / 2, (j - 4) % 2));
                } else {
                    assert(out@[j] == head[j]);
                }
            }
            assert(out@ =~= w);
        }
        out
    }
}

fn abs_i64(v: i64) -> (r: i64)
    requires
        v > i64::MIN,
    ensures
        r == abs_int(v as int),
{
    if v < 0 {
        -v
    } else {
        v
    }
}

fn grid_point(steep: bool, x: i64, y: i64) -> (r: Point)
    ensures
        r == to_grid(steep, x as int, y as int),
{
    if steep {
        (y, x)
    } else {
        (x, y)
    }
}

fn grid_point_wide(steep: bool, x: i128, y: i128) -> (r: Point)
    ensures
        r == to_grid(steep, x as int, y as int),
{
    if steep {
        (y as i64, x as i64)
    } else {
        (x as i64, y as i64)
    }
}

} // verus!
