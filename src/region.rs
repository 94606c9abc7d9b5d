use vstd::prelude::*;
use crate::raster::{inside_triangle, point_of};
use crate::span::{between, row_span};
use crate::vec::{uvec2, UVec2};

verus! {

/// A width and a height, in pixels.
#[derive(Clone, Copy, PartialEq, Eq, Structural, PartialOrd, Ord, Debug, Hash)]
pub struct UDimensions {
    pub x: usize,
    pub y: usize,
}

pub fn udimensions(x: usize, y: usize) -> (r: UDimensions)
    ensures
        r.x == x,
        r.y == y,
{
    UDimensions { x, y }
}

/// Twice the signed area of the triangle `(a, b, c)`: positive when the
/// corners turn counter-clockwise, zero when they are collinear.
pub open spec fn orient(ax: int, ay: int, bx: int, by: int, cx: int, cy: int) -> int {
    (bx - ax) * (cy - ay) - (by - ay) * (cx - ax)
}

/// The infinite lines through `p1 p2` and `q1 q2` meet in exactly one point,
/// and that point lies on both closed segments. Parallel lines, coincident
/// ones included, never count as meeting.
pub open spec fn segments_cross(
    p1x: int, p1y: int, p2x: int, p2y: int,
    q1x: int, q1y: int, q2x: int, q2y: int,
) -> bool {
    (p2x - p1x) * (q2y - q1y) - (p2y - p1y) * (q2x - q1x) != 0
        && orient(p1x, p1y, p2x, p2y, q1x, q1y) * orient(p1x, p1y, p2x, p2y, q2x, q2y) <= 0
        && orient(q1x, q1y, q2x, q2y, p1x, p1y) * orient(q1x, q1y, q2x, q2y, p2x, p2y) <= 0
}

/// A rectangle of pixels: its top left corner and its size.
#[derive(Clone, Copy, PartialEq, Eq, Structural, PartialOrd, Ord, Debug, Hash)]
pub struct Region {
    pub pos: UVec2,
    pub size: UDimensions,
}

impl Region {
    /// The pixel `p` is one of the region's: `pos <= p < pos + size` on both axes.
    pub open spec fn contains(self, p: UVec2) -> bool {
        self.pos.x <= p.x < self.pos.x + self.size.x && self.pos.y <= p.y < self.pos.y + self.size.y
    }

    /// `p` lies in the closed rectangle from `pos` to `pos + size`.
    pub open spec fn closed_contains(self, p: UVec2) -> bool {
        self.pos.x <= p.x <= self.pos.x + self.size.x && self.pos.y <= p.y <= self.pos.y + self.size.y
    }

    /// The segment `a b` crosses one of the four edges of the closed rectangle.
    pub open spec fn segment_crosses_border(self, a: UVec2, b: UVec2) -> bool {
        let left = self.pos.x as int;
        let top = self.pos.y as int;
        let right = self.pos.x + self.size.x;
        let bottom = self.pos.y + self.size.y;
        segments_cross(a.x as int, a.y as int, b.x as int, b.y as int, left, top, right, top)
            || segments_cross(a.x as int, a.y as int, b.x as int, b.y as int, right, top, right, bottom)
            || segments_cross(a.x as int, a.y as int, b.x as int, b.y as int, left, bottom, right, bottom)
            || segments_cross(a.x as int, a.y as int, b.x as int, b.y as int, left, top, left, bottom)
    }

    /// The segment `a b` touches the closed rectangle: an end lies in it, or
    /// the segment crosses its border.
    pub open spec fn segment_touches(self, a: UVec2, b: UVec2) -> bool {
        self.closed_contains(a) || self.closed_contains(b) || self.segment_crosses_border(a, b)
    }

    /// The region ends within the range of `u32` pixel coordinates, its far
    /// border included.
    pub open spec fn within_grid(self) -> bool {
        self.pos.x + self.size.x <= 0x1_0000_0000 && self.pos.y + self.size.y <= 0x1_0000_0000
    }

    pub fn new(pos: UVec2, size: UDimensions) -> (r: Self)
        ensures
            r.pos == pos,
            r.size == size,
    {
        Region { pos, size }
    }

    pub fn includes_point(&self, pos: UVec2) -> (r: bool)
        ensures
            r == self.contains(pos),
    {
        self.pos.x <= pos.x && ((pos.x - self.pos.x) as usize) < self.size.x
            && self.pos.y <= pos.y && ((pos.y - self.pos.y) as usize) < self.size.y
    }

    fn closed_includes_point(&self, p: UVec2) -> (r: bool)
        ensures
            r == self.closed_contains(p),
    {
        self.pos.x <= p.x && ((p.x - self.pos.x) as usize) <= self.size.x
            && self.pos.y <= p.y && ((p.y - self.pos.y) as usize) <= self.size.y
    }

    /// Whether the segment `a b` touches the closed rectangle of the region.
    pub fn line_intersects(&self, a: UVec2, b: UVec2) -> (r: bool)
        requires
            self.within_grid(),
        ensures
            r == self.segment_touches(a, b),
    {
        if self.closed_includes_point(a) || self.closed_includes_point(b) {
            return true;
        }
        let left = self.pos.x as i128;
        let top = self.pos.y as i128;
        let right = self.pos.x as i128 + self.size.x as i128;
        let bottom = self.pos.y as i128 + self.size.y as i128;
        let (ax, ay, bx, by) = (a.x as i128, a.y as i128, b.x as i128, b.y as i128);
        segments_cross_exec(ax, ay, bx, by, left, top, right, top)
            || segments_cross_exec(ax, ay, bx, by, right, top, right, bottom)
            || segments_cross_exec(ax, ay, bx, by, left, bottom, right, bottom)
            || segments_cross_exec(ax, ay, bx, by, left, top, left, bottom)
    }

    /// Whether the triangle with the given pixel-space corners lies wholly
    /// outside the region: no corner is a pixel of the region, and no pixel
    /// of the region lies in the closed triangle. The corners are tested
    /// first; then each row of the region is checked against the triangle's
    /// exact span on that row.
    pub fn triangle_outside(&self, triangle: (UVec2, UVec2, UVec2)) -> (r: bool)
        requires
            self.within_grid(),
        ensures
            self.contains(triangle.0) || self.contains(triangle.1) || self.contains(triangle.2) ==> !r,
            r == !(self.contains(triangle.0) || self.contains(triangle.1) || self.contains(triangle.2)
                || exists|p: UVec2| self.contains(p) && #[trigger] inside_triangle(point_of(triangle.0),
                point_of(triangle.1), point_of(triangle.2), point_of(p))),
    {
        if self.includes_point(triangle.0) || self.includes_point(triangle.1) || self.includes_point(
            triangle.2) {
            return false;
        }
        if self.size.x == 0 || self.size.y == 0 {
            return true;
        }
        let (c0, c1, c2) = (
            (triangle.0.x as i64, triangle.0.y as i64),
            (triangle.1.x as i64, triangle.1.y as i64),
            (triangle.2.x as i64, triangle.2.y as i64),
        );
        let lo = self.pos.x as i128;
        let hi = self.pos.x as i128 + self.size.x as i128 - 1;
        let end = self.pos.y as u64 + self.size.y as u64;
        let mut y: u64 = self.pos.y as u64;
        while y < end
            invariant
                self.within_grid(),
                self.size.x >= 1,
                c0 == point_of(triangle.0), c1 == point_of(triangle.1), c2 == point_of(triangle.2),
                lo == self.pos.x,
                hi == self.pos.x + self.size.x - 1,
                end == self.pos.y + self.size.y,
                self.pos.y <= y <= end,
                forall|p: UVec2| self.contains(p) && p.y < y ==> !#[trigger] inside_triangle(c0, c1, c2,
                    point_of(p)),
            decreases end - y,
        {
            let (s, t) = row_span(c0, c1, c2, y as i64, lo, hi);
            if s <= t {
                let p = uvec2(s as u32, y as u32);
                proof {
                    assert(between(s as int, s as int, t as int));
                    assert(self.contains(p));
                    assert(inside_triangle(c0, c1, c2, point_of(p)));
                }
                return false;
            }
            proof {
                assert forall|p: UVec2| self.contains(p) && p.y < y + 1 implies !#[trigger] inside_triangle(
                    c0, c1, c2, point_of(p)) by {
                    if p.y == y {
                        assert(!between(s as int, p.x as int, t as int));
                    }
                }
            }
            y += 1;
        }
        true
    }
}

/// The coordinate range that the exact segment test accepts.
pub open spec fn small(v: i128) -> bool {
    -0x2_0000_0000 <= v <= 0x2_0000_0000
}

fn orient_exec(ax: i128, ay: i128, bx: i128, by: i128, cx: i128, cy: i128) -> (r: i128)
    requires
        small(ax), small(ay), small(bx), small(by), small(cx), small(cy),
    ensures
        r == orient(ax as int, ay as int, bx as int, by as int, cx as int, cy as int),
        -0x40_0000_0000_0000_0000 <= r <= 0x40_0000_0000_0000_0000,
{
    proof {
        assert(-0x10_0000_0000_0000_0000 <= (bx - ax) * (cy - ay)
            <= 0x10_0000_0000_0000_0000) by (nonlinear_arith)
            requires
                -0x4_0000_0000 <= bx - ax <= 0x4_0000_0000,
                -0x4_0000_0000 <= cy - ay <= 0x4_0000_0000,
        ;
        assert(-0x10_0000_0000_0000_0000 <= (by - ay) * (cx - ax)
            <= 0x10_0000_0000_0000_0000) by (nonlinear_arith)
            requires
                -0x4_0000_0000 <= by - ay <= 0x4_0000_0000,
                -0x4_0000_0000 <= cx - ax <= 0x4_0000_0000,
        ;
    }
    (bx - ax) * (cy - ay) - (by - ay) * (cx - ax)
}

/// The sign of `v`: -1, 0 or 1.
fn sign(v: i128) -> (r: i128)
    ensures
        r == if v > 0 { 1int } else if v < 0 { -1int } else { 0int },
{
    if v > 0 {
        1
    } else if v < 0 {
        -1
    } else {
        0
    }
}

proof fn lemma_sign_product(a: int, b: int, sa: int, sb: int)
    requires
        sa == if a > 0 { 1int } else if a < 0 { -1int } else { 0int },
        sb == if b > 0 { 1int } else if b < 0 { -1int } else { 0int },
    ensures
        (a * b <= 0) == (sa * sb <= 0),
        (a * b != 0) == (sa * sb != 0),
{
    if a > 0 && b > 0 {
        assert(a * b > 0) by (nonlinear_arith) requires a > 0, b > 0;
    } else if a < 0 && b < 0 {
        assert(a * b > 0) by (nonlinear_arith) requires a < 0, b < 0;
    } else if a > 0 && b < 0 {
        assert(a * b < 0) by (nonlinear_arith) requires a > 0, b < 0;
    } else if a < 0 && b > 0 {
        assert(a * b < 0) by (nonlinear_arith) requires a < 0, b > 0;
    } else {
        assert(a * b == 0) by (nonlinear_arith) requires a == 0 || b == 0;
    }
}

fn segments_cross_exec(
    p1x: i128, p1y: i128, p2x: i128, p2y: i128,
    q1x: i128, q1y: i128, q2x: i128, q2y: i128,
) -> (r: bool)
    requires
        0 <= p1x <= 0x1_0000_0000, 0 <= p1y <= 0x1_0000_0000,
        0 <= p2x <= 0x1_0000_0000, 0 <= p2y <= 0x1_0000_0000,
        0 <= q1x <= 0x1_0000_0000, 0 <= q1y <= 0x1_0000_0000,
        0 <= q2x <= 0x1_0000_0000, 0 <= q2y <= 0x1_0000_0000,
    ensures
        r == segments_cross(p1x as int, p1y as int, p2x as int, p2y as int,
            q1x as int, q1y as int, q2x as int, q2y as int),
{
    let d = orient_exec(0, 0, p2x - p1x, p2y - p1y, q2x - q1x, q2y - q1y);
    let o1 = orient_exec(p1x, p1y, p2x, p2y, q1x, q1y);
    let o2 = orient_exec(p1x, p1y, p2x, p2y, q2x, q2y);
    let o3 = orient_exec(q1x, q1y, q2x, q2y, p1x, p1y);
    let o4 = orient_exec(q1x, q1y, q2x, q2y, p2x, p2y);
    let (s1, s2, s3, s4) = (sign(o1), sign(o2), sign(o3), sign(o4));
    proof {
        lemma_sign_product(o1 as int, o2 as int, s1 as int, s2 as int);
        lemma_sign_product(o3 as int, o4 as int, s3 as int, s4 as int);
        assert(-1 <= s1 * s2 <= 1 && -1 <= s3 * s4 <= 1) by (nonlinear_arith)
            requires
                -1 <= s1 <= 1, -1 <= s2 <= 1, -1 <= s3 <= 1, -1 <= s4 <= 1,
        ;
        assert(orient(0, 0, p2x - p1x, p2y - p1y, q2x - q1x, q2y - q1y)
            == (p2x - p1x) * (q2y - q1y) - (p2y - p1y) * (q2x - q1x));
    }
    d != 0 && s1 * s2 <= 0 && s3 * s4 <= 0
}

} // verus!
