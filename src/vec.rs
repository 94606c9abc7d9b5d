use vstd::prelude::*;

verus! {

/// `r` is the truncated square root of `n`.
pub open spec fn is_isqrt(n: int, r: int) -> bool {
    0 <= r && r * r <= n && n < (r + 1) * (r + 1)
}

/// The truncated square root of a non-negative integer.
pub open spec fn sqrt_floor(n: int) -> int {
    choose|r: int| is_isqrt(n, r)
}

/// Integer division that rounds toward zero, as Rust's `/` does.
pub open spec fn div_trunc(a: int, d: int) -> int {
    if a >= 0 {
        a / d
    } else {
        -((-a) / d)
    }
}

/// A truncated square root is unique, so any witness is `sqrt_floor`.
pub proof fn lemma_isqrt_unique(n: int, r: int)
    requires
        is_isqrt(n, r),
    ensures
        sqrt_floor(n) == r,
{
    let s = sqrt_floor(n);
    assert(is_isqrt(n, s));
    if s < r {
        assert((s + 1) * (s + 1) <= r * r) by (nonlinear_arith)
            requires
                0 <= s < r,
        ;
    } else if r < s {
        assert((r + 1) * (r + 1) <= s * s) by (nonlinear_arith)
            requires
                0 <= r < s,
        ;
    }
}

/// Relies on num::integer::sqrt for `u32`: the truncated square root,
/// `r * r <= n < (r + 1) * (r + 1)`.
#[verifier::external_body]
fn sqrt_u32(n: u32) -> (r: u32)
    ensures
        is_isqrt(n as int, r as int),
{
    num::integer::sqrt(n)
}

/// Relies on num::integer::sqrt for `i32`, which panics below zero: the
/// truncated square root, `r * r <= n < (r + 1) * (r + 1)`.
#[verifier::external_body]
fn sqrt_i32(n: i32) -> (r: i32)
    requires
        n >= 0,
    ensures
        is_isqrt(n as int, r as int),
{
    num::integer::sqrt(n)
}

/// A point or offset on the pixel grid.
#[derive(Clone, Copy, PartialEq, Eq, Structural, PartialOrd, Ord, Debug, Default, Hash)]
pub struct UVec2 {
    pub x: u32,
    pub y: u32,
}

impl UVec2 {
    pub open spec fn norm_squared(self) -> int {
        self.x * self.x + self.y * self.y
    }

    pub fn new(x: u32, y: u32) -> (r: Self)
        ensures
            r.x == x,
            r.y == y,
    {
        UVec2 { x, y }
    }

    /// The length of the vector, rounded down.
    pub fn magnitude(self) -> (r: u32)
        requires
            self.norm_squared() <= u32::MAX,
        ensures
            r == sqrt_floor(self.norm_squared()),
            is_isqrt(self.norm_squared(), r as int),
    {
        proof {
            assert(0 <= self.x * self.x && 0 <= self.y * self.y) by (nonlinear_arith);
        }
        let r = sqrt_u32(self.x * self.x + self.y * self.y);
        proof {
            lemma_isqrt_unique(self.norm_squared(), r as int);
        }
        r
    }

    /// Each component divided by the rounded-down length.
    pub fn normalize(self) -> (r: Self)
        requires
            self.norm_squared() <= u32::MAX,
            self.x != 0 || self.y != 0,
        ensures
            sqrt_floor(self.norm_squared()) > 0,
            r.x == (self.x as int) / sqrt_floor(self.norm_squared()),
            r.y == (self.y as int) / sqrt_floor(self.norm_squared()),
    {
        let m = self.magnitude();
        proof {
            assert(self.norm_squared() >= 1) by (nonlinear_arith)
                requires
                    self.x != 0 || self.y != 0,
                    self.norm_squared() == self.x * self.x + self.y * self.y,
            ;
            assert(is_isqrt(self.norm_squared(), m as int));
            assert(m > 0) by (nonlinear_arith)
                requires
                    self.norm_squared() < (m + 1) * (m + 1),
                    self.norm_squared() >= 1,
                    m >= 0,
            ;
        }
        UVec2 { x: self.x / m, y: self.y / m }
    }

    pub fn dot_product(self, other: Self) -> (r: u32)
        requires
            self.x * other.x + self.y * other.y <= u32::MAX,
        ensures
            r == self.x * other.x + self.y * other.y,
    {
        proof {
            assert(0 <= self.x * other.x && 0 <= self.y * other.y) by (nonlinear_arith);
        }
        self.x * other.x + self.y * other.y
    }

    /// Multiplies the two vectors component by component.
    pub fn scale_vec(self, other: Self) -> (r: Self)
        requires
            self.x * other.x <= u32::MAX,
            self.y * other.y <= u32::MAX,
        ensures
            r.x == self.x * other.x,
            r.y == self.y * other.y,
    {
        proof {
            assert(0 <= self.x * other.x && 0 <= self.y * other.y) by (nonlinear_arith);
        }
        UVec2 { x: self.x * other.x, y: self.y * other.y }
    }

    pub fn swap(self) -> (r: Self)
        ensures
            r.x == self.y,
            r.y == self.x,
    {
        uvec2(self.y, self.x)
    }
}

/// A signed point or offset on the pixel grid.
#[derive(Clone, Copy, PartialEq, Eq, Structural, PartialOrd, Ord, Debug, Default, Hash)]
pub struct IVec2 {
    pub x: i32,
    pub y: i32,
}

impl IVec2 {
    pub open spec fn norm_squared(self) -> int {
        self.x * self.x + self.y * self.y
    }

    pub fn new(x: i32, y: i32) -> (r: Self)
        ensures
            r.x == x,
            r.y == y,
    {
        IVec2 { x, y }
    }

    /// The length of the vector, rounded down.
    pub fn magnitude(self) -> (r: i32)
        requires
            self.norm_squared() <= i32::MAX,
        ensures
            r == sqrt_floor(self.norm_squared()),
            is_isqrt(self.norm_squared(), r as int),
    {
        proof {
            assert(0 <= self.x * self.x && 0 <= self.y * self.y) by (nonlinear_arith);
        }
        let r = sqrt_i32(self.x * self.x + self.y * self.y);
        proof {
            lemma_isqrt_unique(self.norm_squared(), r as int);
        }
        r
    }

    /// Each component divided by the rounded-down length, rounding toward zero.
    pub fn normalize(self) -> (r: Self)
        requires
            self.norm_squared() <= i32::MAX,
            self.x != 0 || self.y != 0,
        ensures
            sqrt_floor(self.norm_squared()) > 0,
            r.x == div_trunc(self.x as int, sqrt_floor(self.norm_squared())),
            r.y == div_trunc(self.y as int, sqrt_floor(self.norm_squared())),
    {
        let m = self.magnitude();
        proof {
            assert(self.norm_squared() >= 1) by (nonlinear_arith)
                requires
                    self.x != 0 || self.y != 0,
                    self.norm_squared() == self.x * self.x + self.y * self.y,
            ;
            assert(is_isqrt(self.norm_squared(), m as int));
            assert(m > 0) by (nonlinear_arith)
                requires
                    self.norm_squared() < (m + 1) * (m + 1),
                    self.norm_squared() >= 1,
                    m >= 0,
            ;
            assert(self.x * self.x <= i32::MAX && self.y * self.y <= i32::MAX) by (nonlinear_arith)
                requires
                    self.norm_squared() == self.x * self.x + self.y * self.y,
                    self.norm_squared() <= i32::MAX,
            ;
            assert(-46341 < self.x < 46341 && -46341 < self.y < 46341) by (nonlinear_arith)
                requires
                    self.x * self.x <= i32::MAX,
                    self.y * self.y <= i32::MAX,
            ;
        }
        IVec2 { x: div_trunc_i32(self.x, m), y: div_trunc_i32(self.y, m) }
    }

    pub fn dot_product(self, other: Self) -> (r: i32)
        requires
            i32::MIN <= self.x * other.x + self.y * other.y <= i32::MAX,
            i32::MIN <= self.x * other.x <= i32::MAX,
            i32::MIN <= self.y * other.y <= i32::MAX,
        ensures
            r == self.x * other.x + self.y * other.y,
    {
        self.x * other.x + self.y * other.y
    }

    /// Multiplies the two vectors component by component.
    pub fn scale_vec(self, other: Self) -> (r: Self)
        requires
            i32::MIN <= self.x * other.x <= i32::MAX,
            i32::MIN <= self.y * other.y <= i32::MAX,
        ensures
            r.x == self.x * other.x,
            r.y == self.y * other.y,
    {
        IVec2 { x: self.x * other.x, y: self.y * other.y }
    }

    pub fn swap(self) -> (r: Self)
        ensures
            r.x == self.y,
            r.y == self.x,
    {
        ivec2(self.y, self.x)
    }
}

/// Division rounding toward zero, for a positive divisor.
fn div_trunc_i32(a: i32, d: i32) -> (r: i32)
    requires
        d > 0,
        a > i32::MIN,
    ensures
        r == div_trunc(a as int, d as int),
{
    if a >= 0 {
        a / d
    } else {
        -((-a) / d)
    }
}

pub fn uvec2(x: u32, y: u32) -> (r: UVec2)
    ensures
        r.x == x,
        r.y == y,
{
    UVec2 { x, y }
}

pub fn ivec2(x: i32, y: i32) -> (r: IVec2)
    ensures
        r.x == x,
        r.y == y,
{
    IVec2 { x, y }
}

} // verus!
