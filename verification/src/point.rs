//! 2D integer points, rational interpolation parameters, and the
//! rounding rules shared by the curve and fill algorithms.

use vstd::prelude::*;

verus! {

/// Coordinates of every shape are kept within this bound so that the
/// scaled integer arithmetic of the rasterizers and hit tests stays
/// within machine range.
pub const COORD_LIMIT: i32 = 32768;

/// A 2D point with signed integer coordinates.
#[derive(Copy, Clone, Debug, PartialEq, Eq, Structural)]
pub struct Point(pub i32, pub i32);

/// A rational interpolation parameter in the closed interval [0, 1],
/// held as a fraction `num / den`.
#[derive(Copy, Clone, Debug, PartialEq, Eq, Structural)]
pub struct Ratio {
    pub num: u32,
    pub den: u32,
}

impl Ratio {
    /// A parameter is well formed when its denominator is positive and
    /// its value does not exceed 1.
    pub open spec fn wf(self) -> bool {
        self.den >= 1 && self.num <= self.den
    }

    /// Builds the parameter `num / den`.
    pub fn new(num: u32, den: u32) -> (t: Ratio)
        requires
            den >= 1,
            num <= den,
        ensures
            t == (Ratio { num, den }),
            t.wf(),
    {
        Ratio { num, den }
    }

    /// The parameter 1/2, the default subdivision point of a curve.
    pub fn half() -> (t: Ratio)
        ensures
            t == (Ratio { num: 1u32, den: 2u32 }),
            t.wf(),
    {
        Ratio { num: 1, den: 2 }
    }
}

/// The absolute value of an integer.
pub open spec fn abs_i(x: int) -> int {
    if x >= 0 {
        x
    } else {
        -x
    }
}

/// The smaller of two integers.
pub open spec fn min_i(a: int, b: int) -> int {
    if a <= b {
        a
    } else {
        b
    }
}

/// The larger of two integers.
pub open spec fn max_i(a: int, b: int) -> int {
    if a <= b {
        b
    } else {
        a
    }
}

/// A point lies within the coordinate range the engine works on.
pub open spec fn pt_bounded(p: Point) -> bool {
    -32768 <= p.0 <= 32768 && -32768 <= p.1 <= 32768
}

/// Division of `a` by a positive `b`, rounding half away from zero.
pub open spec fn round_div(a: int, b: int) -> int
    recommends
        b > 0,
{
    if a >= 0 {
        (2 * a + b) / (2 * b)
    } else {
        -((2 * (-a) + b) / (2 * b))
    }
}

/// Rounding an exact multiple returns the exact quotient.
pub proof fn lemma_round_div_exact(k: int, b: int)
    requires
        b > 0,
    ensures
        round_div(k * b, b) == k,
{
    if k >= 0 {
        assert(k * b >= 0) by (nonlinear_arith)
            requires
                b > 0,
                k >= 0,
        ;
        assert((2 * (k * b) + b) / (2 * b) == k) by (nonlinear_arith)
            requires
                b > 0,
                k >= 0,
        ;
    } else {
        assert(k * b < 0) by (nonlinear_arith)
            requires
                b > 0,
                k < 0,
        ;
        assert((2 * (-(k * b)) + b) / (2 * b) == -k) by (nonlinear_arith)
            requires
                b > 0,
                k < 0,
        ;
    }
}

/// Rounded division stays within any pair of integer bounds that hold
/// of the exact quotient.
pub proof fn lemma_round_div_bounds(a: int, b: int, lo: int, hi: int)
    requires
        b > 0,
        lo * b <= a,
        a <= hi * b,
    ensures
        lo <= round_div(a, b) <= hi,
{
    if a >= 0 {
        assert(lo <= (2 * a + b) / (2 * b) <= hi) by (nonlinear_arith)
            requires
                b > 0,
                a >= 0,
                lo * b <= a,
                a <= hi * b,
        ;
    } else {
        assert(lo <= -((2 * (-a) + b) / (2 * b)) <= hi) by (nonlinear_arith)
            requires
                b > 0,
                a < 0,
                lo * b <= a,
                a <= hi * b,
        ;
    }
}

/// One coordinate of the interpolation `(1 - t)·a + t·b` with
/// `t = num/den`, rounded half away from zero.
pub open spec fn interp_val(a: int, b: int, num: int, den: int) -> int
    recommends
        den > 0,
{
    round_div(a * den + num * (b - a), den)
}

/// At `t = 0` interpolation returns the first endpoint; at `t = 1` the
/// second.
pub proof fn lemma_interp_ends(a: int, b: int, den: int)
    requires
        den > 0,
    ensures
        interp_val(a, b, 0, den) == a,
        interp_val(a, b, den, den) == b,
{
    lemma_round_div_exact(a, den);
    lemma_round_div_exact(b, den);
    assert(a * den + den * (b - a) == b * den) by (nonlinear_arith);
}

/// Interpolation with a parameter in [0, 1] stays between the two
/// endpoints.
pub proof fn lemma_interp_in_range(a: int, b: int, num: int, den: int)
    requires
        den > 0,
        0 <= num <= den,
    ensures
        min_i(a, b) <= interp_val(a, b, num, den) <= max_i(a, b),
{
    if a <= b {
        assert(a * den <= a * den + num * (b - a) <= b * den) by (nonlinear_arith)
            requires
                den > 0,
                0 <= num <= den,
                a <= b,
        ;
        lemma_round_div_bounds(a * den + num * (b - a), den, a, b);
    } else {
        assert(b * den <= a * den + num * (b - a) <= a * den) by (nonlinear_arith)
            requires
                den > 0,
                0 <= num <= den,
                b < a,
        ;
        lemma_round_div_bounds(a * den + num * (b - a), den, b, a);
    }
}

/// The product of two integers is bounded by the product of bounds on
/// their absolute values.
pub proof fn lemma_mul_bound(x: int, y: int, bx: int, by: int)
    by (nonlinear_arith)
    requires
        -bx <= x <= bx,
        -by <= y <= by,
        0 <= bx,
        0 <= by,
    ensures
        -(bx * by) <= x * y <= bx * by,
{
}

/// Division by a positive divisor, rounding half away from zero.
fn round_div_exec(a: i128, b: i128) -> (q: i128)
    requires
        b > 0,
        -0x2000_0000_0000_0000_0000_0000_0000_0000 < a,
        a < 0x2000_0000_0000_0000_0000_0000_0000_0000,
        b < 0x2000_0000_0000_0000_0000_0000_0000_0000,
    ensures
        q == round_div(a as int, b as int),
{
    if a >= 0 {
        (2 * a + b) / (2 * b)
    } else {
        -((2 * (-a) + b) / (2 * b))
    }
}

/// Interpolates a single coordinate between `a` and `b` with weight
/// `num / den`, rounding half away from zero.
pub fn interp_coord(a: i32, b: i32, num: i64, den: i64) -> (r: i32)
    requires
        0 < den,
        0 <= num <= den,
        den <= 0x1_0000_0000,
    ensures
        r == interp_val(a as int, b as int, num as int, den as int),
        min_i(a as int, b as int) <= r <= max_i(a as int, b as int),
{
    proof {
        lemma_mul_bound(a as int, den as int, 0x8000_0000, 0x1_0000_0000);
        lemma_mul_bound(num as int, b - a, 0x1_0000_0000, 0x1_0000_0000);
        lemma_interp_in_range(a as int, b as int, num as int, den as int);
    }
    let n: i128 = a as i128 * den as i128 + num as i128 * (b as i128 - a as i128);
    let q: i128 = round_div_exec(n, den as i128);
    q as i32
}

impl Point {
    /// The point as a pair of mathematical integers.
    pub open spec fn sp(self) -> (int, int) {
        (self.0 as int, self.1 as int)
    }

    /// Component-wise sum of two points.
    pub fn add(self, other: Point) -> (p: Point)
        requires
            i32::MIN <= self.0 + other.0 <= i32::MAX,
            i32::MIN <= self.1 + other.1 <= i32::MAX,
        ensures
            p.0 == self.0 + other.0,
            p.1 == self.1 + other.1,
    {
        Point(self.0 + other.0, self.1 + other.1)
    }

    /// Component-wise difference of two points.
    pub fn sub(self, other: Point) -> (p: Point)
        requires
            i32::MIN <= self.0 - other.0 <= i32::MAX,
            i32::MIN <= self.1 - other.1 <= i32::MAX,
        ensures
            p.0 == self.0 - other.0,
            p.1 == self.1 - other.1,
    {
        Point(self.0 - other.0, self.1 - other.1)
    }

    /// Computes the interpolation between this point and `other` with
    /// weight `t`: 0 yields this point, 1 yields `other`, and halves
    /// round away from zero.
    pub fn interpolate(&self, other: Point, t: Ratio) -> (p: Point)
        requires
            t.wf(),
        ensures
            p.0 == interp_val(self.0 as int, other.0 as int, t.num as int, t.den as int),
            p.1 == interp_val(self.1 as int, other.1 as int, t.num as int, t.den as int),
            min_i(self.0 as int, other.0 as int) <= p.0 <= max_i(self.0 as int, other.0 as int),
            min_i(self.1 as int, other.1 as int) <= p.1 <= max_i(self.1 as int, other.1 as int),
    {
        let num: i128 = t.num as i128;
        let den: i128 = t.den as i128;
        proof {
            lemma_mul_bound(self.0 as int, den as int, 0x8000_0000, 0x1_0000_0000);
            lemma_mul_bound(self.1 as int, den as int, 0x8000_0000, 0x1_0000_0000);
            lemma_mul_bound(
                num as int,
                other.0 - self.0,
                0x1_0000_0000,
                0x1_0000_0000,
            );
            lemma_mul_bound(
                num as int,
                other.1 - self.1,
                0x1_0000_0000,
                0x1_0000_0000,
            );
            lemma_interp_in_range(self.0 as int, other.0 as int, num as int, den as int);
            lemma_interp_in_range(self.1 as int, other.1 as int, num as int, den as int);
        }
        let nx: i128 = self.0 as i128 * den + num * (other.0 as i128 - self.0 as i128);
        let ny: i128 = self.1 as i128 * den + num * (other.1 as i128 - self.1 as i128);
        let x: i128 = round_div_exec(nx, den);
        let y: i128 = round_div_exec(ny, den);
        Point(x as i32, y as i32)
    }

    /// Computes the dot product of this point and `other` seen as
    /// vectors.
    pub fn dot(&self, other: Point) -> (d: i32)
        requires
            i32::MIN <= self.0 * other.0 + self.1 * other.1 <= i32::MAX,
        ensures
            d == self.0 * other.0 + self.1 * other.1,
    {
        proof {
            lemma_mul_bound(self.0 as int, other.0 as int, 0x8000_0000, 0x8000_0000);
            lemma_mul_bound(self.1 as int, other.1 as int, 0x8000_0000, 0x8000_0000);
        }
        let px: i128 = self.0 as i128 * other.0 as i128;
        let py: i128 = self.1 as i128 * other.1 as i128;
        (px + py) as i32
    }

    /// The point lies within the axis-aligned box spanned by `p1` and
    /// `p2`, widened on every side by `error` pixels.
    pub open spec fn within_box(self, p1: Point, p2: Point, error: int) -> bool {
        min_i(p1.0 as int, p2.0 as int) - error <= self.0 <= max_i(p1.0 as int, p2.0 as int)
            + error && min_i(p1.1 as int, p2.1 as int) - error <= self.1 <= max_i(
            p1.1 as int,
            p2.1 as int,
        ) + error
    }

    /// Checks whether this point is inside the axis-aligned box formed
    /// by `p1` and `p2`, allowing `error` pixels of slack on each side.
    pub fn is_within_box(&self, p1: Point, p2: Point, error: u32) -> (r: bool)
        ensures
            r == self.within_box(p1, p2, error as int),
    {
        let e: i64 = error as i64;
        let min_x: i64 = (if p1.0 <= p2.0 {
            p1.0
        } else {
            p2.0
        }) as i64 - e;
        let max_x: i64 = (if p1.0 <= p2.0 {
            p2.0
        } else {
            p1.0
        }) as i64 + e;
        let min_y: i64 = (if p1.1 <= p2.1 {
            p1.1
        } else {
            p2.1
        }) as i64 - e;
        let max_y: i64 = (if p1.1 <= p2.1 {
            p2.1
        } else {
            p1.1
        }) as i64 + e;
        let x: i64 = self.0 as i64;
        let y: i64 = self.1 as i64;
        x >= min_x && x <= max_x && y >= min_y && y <= max_y
    }
}

} // verus!
