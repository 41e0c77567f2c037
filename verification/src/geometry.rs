use vstd::prelude::*;
use vstd::arithmetic::div_mod::{
    lemma_basic_div, lemma_div_multiples_vanish_fancy, lemma_fundamental_div_mod,
    lemma_fundamental_div_mod_converse, lemma_hoist_over_denominator, lemma_mod_bound,
    lemma_multiply_divide_lt,
};

verus! {

use crate::Vec2;

/// Scale of the fixed-point trigonometric values: `TRIG_ONE` stands for 1.0.
/// The scale is 2^36: fine enough that the sine and cosine pair lies close
/// enough to the circle for a rotate-and-back round trip to land within
/// one pixel at screen-scale coordinates.
pub const TRIG_ONE: i64 = 68_719_476_736;

/// Half of `TRIG_ONE`, used to round a scaled value to the nearest integer.
pub const TRIG_HALF: i64 = 34_359_738_368;

/// Scale of the half-angle tangent parameter the trigonometric pair is
/// built from.
pub const HALF_TAN_ONE: i64 = 4096;

/// The shared sine and cosine value at exactly one eighth of a turn:
/// `TRIG_ONE / sqrt(2)`, rounded to the nearest integer.
pub const EIGHTH_COS: i64 = 48_592_008_000;

/// Millidegrees in a full turn.
pub const FULL_TURN_MDEG: i64 = 360_000;

/// Millidegrees in a half turn.
pub const HALF_TURN_MDEG: i64 = 180_000;

/// Millidegrees in a quarter turn.
pub const QUARTER_TURN_MDEG: i64 = 90_000;

/// Millidegrees in an eighth of a turn.
pub const EIGHTH_TURN_MDEG: i64 = 45_000;

/// Non-negative integer extents of a rectangle or a buffer.
#[derive(Clone, Copy, Debug, PartialEq, Eq, Structural)]
pub struct Size {
    pub width: u32,
    pub height: u32,
}

impl Size {
    pub fn new(width: u32, height: u32) -> (r: Size)
        ensures
            r.width == width,
            r.height == height,
    {
        Size { width, height }
    }
}

/// An angle, tagged by the unit it was given in. All angles are reduced to
/// millidegrees before any trigonometry; `Milliradians` is converted with
/// 1 radian = 57296 millidegrees, rounded toward zero, so negating the
/// tagged value always negates the angle.
#[derive(Clone, Copy, Debug, PartialEq, Eq, Structural)]
pub enum Rotation {
    Degrees(i32),
    Milliradians(i32),
}

/// Division rounded toward zero, for a positive divisor: the unit
/// conversions use it so that a negated angle converts to the negated
/// value.
pub open spec fn spec_div_trunc(a: int, b: int) -> int {
    if a >= 0 {
        a / b
    } else {
        -((-a) / b)
    }
}

/// Truncating division by a small positive constant, executed on a
/// magnitude-and-sign split.
fn div_trunc(a: i64, b: i64) -> (r: i64)
    requires
        0 < b <= 1_000_000_000,
        -0x1000_0000_0000_0000 < a < 0x1000_0000_0000_0000,
    ensures
        r == spec_div_trunc(a as int, b as int),
{
    let neg = a < 0;
    let mag: i64 = if neg {
        -a
    } else {
        a
    };
    proof {
        lemma_fundamental_div_mod(mag as int, b as int);
        lemma_mod_bound(mag as int, b as int);
        assert(0 <= mag as int / (b as int) <= mag) by (nonlinear_arith)
            requires
                mag as int == (b as int) * (mag as int / (b as int)) + mag as int % (b as int),
                0 <= mag as int % (b as int) < b,
                mag >= 0,
                b > 0,
        ;
    }
    let q: i64 = ((mag as u64) / (b as u64)) as i64;
    if neg {
        -q
    } else {
        q
    }
}

impl Rotation {
    /// The angle in millidegrees, as every drawing routine consumes it.
    pub open spec fn spec_millidegrees(self) -> int {
        match self {
            Rotation::Degrees(d) => d * 1000,
            Rotation::Milliradians(mr) => spec_div_trunc(mr * 57296, 1000),
        }
    }

    pub fn to_millidegrees(self) -> (r: i64)
        ensures
            r == self.spec_millidegrees(),
            -3_000_000_000_000 <= r <= 3_000_000_000_000,
    {
        match self {
            Rotation::Degrees(d) => (d as i64) * 1000,
            Rotation::Milliradians(mr) => div_trunc((mr as i64) * 57296, 1000),
        }
    }

    /// The angle in milliradians, with 57296 millidegrees per radian: on a
    /// milliradian-tagged angle this returns the tagged value unchanged.
    pub fn to_milliradians(self) -> (r: i64)
        ensures
            self is Milliradians ==> r == self->Milliradians_0,
            self is Degrees ==> r == spec_div_trunc(self->Degrees_0 * 1_000_000, 57296),
    {
        match self {
            Rotation::Milliradians(mr) => mr as i64,
            Rotation::Degrees(d) => div_trunc((d as i64) * 1_000_000, 57296),
        }
    }

    /// The angle in whole degrees: on a degree-tagged angle this returns
    /// the tagged value unchanged.
    pub fn to_degrees(self) -> (r: i64)
        ensures
            self is Degrees ==> r == self->Degrees_0,
            self is Milliradians ==> r == spec_div_trunc(self.spec_millidegrees(), 1000),
    {
        match self {
            Rotation::Degrees(d) => d as i64,
            Rotation::Milliradians(_) => {
                let m = self.to_millidegrees();
                div_trunc(m, 1000)
            },
        }
    }
}

/// Law: negating the tagged value negates the angle, for either unit.
/// With `lemma_rotate_round_trip` this extends the one-pixel round trip
/// to milliradian-tagged angles: the backward rotation of
/// `Milliradians(-mr)` uses exactly the negated millidegree value.
pub proof fn lemma_millidegrees_negation(a: Rotation, b: Rotation)
    requires
        (a is Degrees && b is Degrees && a->Degrees_0 + b->Degrees_0 == 0) || (a is Milliradians
            && b is Milliradians && a->Milliradians_0 + b->Milliradians_0 == 0),
    ensures
        b.spec_millidegrees() == -a.spec_millidegrees(),
{
    match a {
        Rotation::Degrees(d) => {
        },
        Rotation::Milliradians(mr) => {
            assert((b->Milliradians_0 as int) * 57296 == -((mr as int) * 57296))
                by (nonlinear_arith)
                requires
                    b->Milliradians_0 + mr == 0,
            ;
        },
    }
}

/// An angle reduced to the range `[0, FULL_TURN_MDEG)`.
pub open spec fn spec_norm_mdeg(m: int) -> int {
    m % (FULL_TURN_MDEG as int)
}

/// A coarse fixed-point sine on the first half turn, scaled by 2^16: a
/// rational approximation used only to choose the half-angle tangent
/// parameter below. Its error shifts the effective angle slightly but
/// never pushes the sine and cosine pair off the circle, which is what
/// the rotation proofs rest on.
pub open spec fn spec_sin_half(m: int) -> int {
    let t = m * (HALF_TURN_MDEG - m);
    (4 * t * 65536) / (40_500_000_000 - t)
}

proof fn lemma_sin_half_bounds(m: int)
    requires
        0 <= m <= HALF_TURN_MDEG,
    ensures
        0 <= spec_sin_half(m) <= 65536,
{
    let t = m * (HALF_TURN_MDEG - m);
    assert(0 <= t <= 8_100_000_000) by (nonlinear_arith)
        requires
            0 <= m <= HALF_TURN_MDEG,
            t == m * (HALF_TURN_MDEG - m),
    ;
    let den = 40_500_000_000 - t;
    let num = 4 * t * 65536;
    assert(num <= 65536 * den) by (nonlinear_arith)
        requires
            0 <= t <= 8_100_000_000,
            den == 40_500_000_000 - t,
            num == 4 * t * 65536,
    ;
    assert(den >= 32_400_000_000);
    assert(num / den <= 65536) by {
        lemma_fundamental_div_mod(num, den);
        lemma_mod_bound(num, den);
        assert(num / den <= 65536) by (nonlinear_arith)
            requires
                num == den * (num / den) + num % den,
                0 <= num % den < den,
                num <= 65536 * den,
                den > 0,
        ;
    }
    assert(num / den >= 0) by {
        lemma_fundamental_div_mod(num, den);
        lemma_mod_bound(num, den);
        assert(num / den >= 0) by (nonlinear_arith)
            requires
                num == den * (num / den) + num % den,
                0 <= num % den < den,
                num >= 0,
                den > 0,
        ;
    }
}

/// The coarse sine, executed.
fn sin_half(m: i64) -> (r: i64)
    requires
        0 <= m <= HALF_TURN_MDEG,
    ensures
        r == spec_sin_half(m as int),
        0 <= r <= 65536,
{
    proof {
        lemma_sin_half_bounds(m as int);
        assert(m * (HALF_TURN_MDEG - m) <= 8_100_000_000) by (nonlinear_arith)
            requires
                0 <= m <= HALF_TURN_MDEG,
        ;
        assert(m * (HALF_TURN_MDEG - m) >= 0) by (nonlinear_arith)
            requires
                0 <= m <= HALF_TURN_MDEG,
        ;
    }
    let t: i64 = m * (HALF_TURN_MDEG - m);
    let num: i64 = 4 * t * 65536;
    let den: i64 = 40_500_000_000 - t;
    num / den
}

/// The half-angle tangent parameter of an angle within the first eighth
/// turn, scaled by `HALF_TAN_ONE` and clamped into `[0, HALF_TAN_ONE]`:
/// `tan(a/2) = sin(a) / (1 + cos(a))`, computed from the coarse sine.
pub open spec fn spec_half_tan(beta: int) -> int {
    let s = spec_sin_half(beta);
    let c = spec_sin_half(beta + QUARTER_TURN_MDEG);
    let u = (HALF_TAN_ONE * s) / (65536 + c);
    if u < 0 {
        0
    } else if u > HALF_TAN_ONE {
        HALF_TAN_ONE as int
    } else {
        u
    }
}

/// The cosine and sine pair of an angle within the first eighth turn,
/// scaled by `TRIG_ONE`. With `u` the half-angle tangent and `V` its
/// scale, the exact point `(V^2 - u^2, 2 u V) / (V^2 + u^2)` lies on the
/// unit circle; rounding each coordinate keeps the pair within a few
/// units of the circle of radius `TRIG_ONE`.
pub open spec fn spec_pair_oct(beta: int) -> (int, int) {
    let u = spec_half_tan(beta);
    let a = HALF_TAN_ONE * HALF_TAN_ONE - u * u;
    let b = 2 * u * HALF_TAN_ONE;
    let n = HALF_TAN_ONE * HALF_TAN_ONE + u * u;
    ((TRIG_ONE * a + n / 2) / n, (TRIG_ONE * b + n / 2) / n)
}

/// The pair over the first quarter turn: the second eighth mirrors the
/// first, so the complement identity `cos(90 - a) == sin(a)` holds
/// exactly by construction.
pub open spec fn spec_pair_quad(beta: int) -> (int, int) {
    if beta == EIGHTH_TURN_MDEG {
        (EIGHTH_COS as int, EIGHTH_COS as int)
    } else if beta < EIGHTH_TURN_MDEG {
        spec_pair_oct(beta)
    } else {
        let p = spec_pair_oct(QUARTER_TURN_MDEG - beta);
        (p.1, p.0)
    }
}

/// The cosine and sine pair of any angle in millidegrees, scaled by
/// `TRIG_ONE`: the angle is reduced to a quadrant and a remainder, and
/// the first-quadrant pair is rotated by whole quarter turns, which is
/// exact.
pub open spec fn spec_pair_mdeg(m: int) -> (int, int) {
    let n = spec_norm_mdeg(m);
    let q = n / (QUARTER_TURN_MDEG as int);
    let beta = n % (QUARTER_TURN_MDEG as int);
    let p = spec_pair_quad(beta);
    if q == 0 {
        p
    } else if q == 1 {
        (-p.1, p.0)
    } else if q == 2 {
        (-p.0, -p.1)
    } else {
        (p.1, -p.0)
    }
}

/// Fixed-point cosine of an angle in millidegrees, scaled by `TRIG_ONE`.
pub open spec fn spec_cos_mdeg(m: int) -> int {
    spec_pair_mdeg(m).0
}

/// Fixed-point sine of an angle in millidegrees, scaled by `TRIG_ONE`.
pub open spec fn spec_sin_mdeg(m: int) -> int {
    spec_pair_mdeg(m).1
}

/// The half-angle tangent, executed.
fn half_tan(beta: i64) -> (u: i64)
    requires
        0 <= beta < EIGHTH_TURN_MDEG,
    ensures
        u == spec_half_tan(beta as int),
        0 <= u <= HALF_TAN_ONE,
{
    let s = sin_half(beta);
    let c = sin_half(beta + QUARTER_TURN_MDEG);
    let num: i64 = HALF_TAN_ONE * s;
    let den: i64 = 65536 + c;
    let u0: i64 = ((num as u64) / (den as u64)) as i64;
    if u0 < 0 {
        0
    } else if u0 > HALF_TAN_ONE {
        HALF_TAN_ONE
    } else {
        u0
    }
}

/// The rounded ratio `(k*a + n/2) / n` stays within `[0, k]` when
/// `0 <= a <= n`.
proof fn lemma_pair_div_in_range(k: int, a: int, n: int)
    requires
        k > 0,
        n > 0,
        0 <= a <= n,
    ensures
        0 <= (k * a + n / 2) / n <= k,
{
    let v = k * a + n / 2;
    lemma_fundamental_div_mod(n, 2);
    lemma_mod_bound(n, 2);
    assert(0 <= v) by (nonlinear_arith)
        requires
            k > 0,
            0 <= a,
            0 <= n / 2,
            v == k * a + n / 2,
    ;
    lemma_fundamental_div_mod(v, n);
    lemma_mod_bound(v, n);
    assert(v / n >= 0) by (nonlinear_arith)
        requires
            v == n * (v / n) + v % n,
            0 <= v % n < n,
            v >= 0,
            n > 0,
    ;
    assert(v < n * (k + 1)) by (nonlinear_arith)
        requires
            v == k * a + n / 2,
            a <= n,
            n == 2 * (n / 2) + n % 2,
            0 <= n % 2 < 2,
            n > 0,
            k > 0,
    ;
    lemma_multiply_divide_lt(v, n, k + 1);
}

/// The first-eighth pair, executed.
fn pair_oct(beta: i64) -> (r: (i64, i64))
    requires
        0 <= beta < EIGHTH_TURN_MDEG,
    ensures
        r.0 == spec_pair_oct(beta as int).0,
        r.1 == spec_pair_oct(beta as int).1,
        0 <= r.0 <= TRIG_ONE,
        0 <= r.1 <= TRIG_ONE,
{
    let u = half_tan(beta);
    proof {
        assert(0 <= u * u <= HALF_TAN_ONE * HALF_TAN_ONE) by (nonlinear_arith)
            requires
                0 <= u <= HALF_TAN_ONE,
        ;
        assert(2 * u * HALF_TAN_ONE <= HALF_TAN_ONE * HALF_TAN_ONE + u * u) by (nonlinear_arith)
            requires
                0 <= u <= HALF_TAN_ONE,
        ;
        assert(0 <= 2 * u * HALF_TAN_ONE) by (nonlinear_arith)
            requires
                0 <= u,
        ;
    }
    let a: i64 = HALF_TAN_ONE * HALF_TAN_ONE - u * u;
    let b: i64 = 2 * u * HALF_TAN_ONE;
    let n: i64 = HALF_TAN_ONE * HALF_TAN_ONE + u * u;
    proof {
        lemma_pair_div_in_range(TRIG_ONE as int, a as int, n as int);
        lemma_pair_div_in_range(TRIG_ONE as int, b as int, n as int);
    }
    let c0: i64 = (((TRIG_ONE as u64) * (a as u64) + (n as u64) / 2) / (n as u64)) as i64;
    let s0: i64 = (((TRIG_ONE as u64) * (b as u64) + (n as u64) / 2) / (n as u64)) as i64;
    (c0, s0)
}

/// The first-quadrant pair, executed.
fn pair_quad(beta: i64) -> (r: (i64, i64))
    requires
        0 <= beta < QUARTER_TURN_MDEG,
    ensures
        r.0 == spec_pair_quad(beta as int).0,
        r.1 == spec_pair_quad(beta as int).1,
        0 <= r.0 <= TRIG_ONE,
        0 <= r.1 <= TRIG_ONE,
{
    if beta == EIGHTH_TURN_MDEG {
        (EIGHTH_COS, EIGHTH_COS)
    } else if beta < EIGHTH_TURN_MDEG {
        pair_oct(beta)
    } else {
        let p = pair_oct(QUARTER_TURN_MDEG - beta);
        (p.1, p.0)
    }
}

/// The cosine and sine pair of any angle, executed.
fn pair_mdeg(m: i64) -> (r: (i64, i64))
    ensures
        r.0 == spec_cos_mdeg(m as int),
        r.1 == spec_sin_mdeg(m as int),
        -TRIG_ONE <= r.0 <= TRIG_ONE,
        -TRIG_ONE <= r.1 <= TRIG_ONE,
{
    proof {
        lemma_mod_bound(m as int, FULL_TURN_MDEG as int);
    }
    let n: i64 = m.checked_rem_euclid(FULL_TURN_MDEG).unwrap();
    proof {
        lemma_mod_bound(n as int, QUARTER_TURN_MDEG as int);
        lemma_fundamental_div_mod(n as int, QUARTER_TURN_MDEG as int);
        assert(0 <= n as int / (QUARTER_TURN_MDEG as int) < 4) by (nonlinear_arith)
            requires
                n as int == (QUARTER_TURN_MDEG as int) * (n as int / (QUARTER_TURN_MDEG as int))
                    + n as int % (QUARTER_TURN_MDEG as int),
                0 <= n as int % (QUARTER_TURN_MDEG as int) < QUARTER_TURN_MDEG,
                0 <= n < FULL_TURN_MDEG,
        ;
    }
    let q: i64 = ((n as u64) / (QUARTER_TURN_MDEG as u64)) as i64;
    let beta: i64 = ((n as u64) % (QUARTER_TURN_MDEG as u64)) as i64;
    let p = pair_quad(beta);
    if q == 0 {
        p
    } else if q == 1 {
        (-p.1, p.0)
    } else if q == 2 {
        (-p.0, -p.1)
    } else {
        (p.1, -p.0)
    }
}

/// Fixed-point sine of an angle in millidegrees.
pub fn sin_mdeg(m: i64) -> (r: i64)
    ensures
        r == spec_sin_mdeg(m as int),
        -TRIG_ONE <= r <= TRIG_ONE,
{
    let p = pair_mdeg(m);
    p.1
}

/// Fixed-point cosine of an angle in millidegrees.
pub fn cos_mdeg(m: i64) -> (r: i64)
    ensures
        r == spec_cos_mdeg(m as int),
        -TRIG_ONE <= r <= TRIG_ONE,
{
    let p = pair_mdeg(m);
    p.0
}

/// Round a value scaled by `TRIG_ONE` to the nearest integer.
pub open spec fn spec_round_unscale(n: int) -> int {
    (n + TRIG_HALF) / (TRIG_ONE as int)
}

pub fn round_unscale(n: i128) -> (r: i64)
    requires
        -0x1_0000_0000_0000_0000_0000 < n < 0x1_0000_0000_0000_0000_0000,
    ensures
        r == spec_round_unscale(n as int),
{
    let v: i128 = n + (TRIG_HALF as i128);
    proof {
        lemma_fundamental_div_mod(v as int, TRIG_ONE as int);
        lemma_mod_bound(v as int, TRIG_ONE as int);
        assert(-0x8000_0000_0000_0000 < v as int / (TRIG_ONE as int) < 0x8000_0000_0000_0000)
            by (nonlinear_arith)
            requires
                v as int == (TRIG_ONE as int) * (v as int / (TRIG_ONE as int)) + v as int % (
                TRIG_ONE as int),
                0 <= v as int % (TRIG_ONE as int) < TRIG_ONE,
                -0x2_0000_0000_0000_0000_0000 < v < 0x2_0000_0000_0000_0000_0000,
                TRIG_ONE == 68_719_476_736,
        ;
    }
    v.checked_div_euclid(TRIG_ONE as i128).unwrap() as i64
}

/// Where `rotate_point` sends the x coordinate, before clamping:
/// the plane is translated so that the center is the origin, the fixed-point
/// rotation matrix is applied, the result is rounded to the nearest pixel and
/// translated back.
pub open spec fn spec_rotate_x(x: int, y: int, m: int, cx: int, cy: int) -> int {
    cx + spec_round_unscale(spec_cos_mdeg(m) * (x - cx) - spec_sin_mdeg(m) * (y - cy))
}

/// Where `rotate_point` sends the y coordinate, before clamping.
pub open spec fn spec_rotate_y(x: int, y: int, m: int, cx: int, cy: int) -> int {
    cy + spec_round_unscale(spec_sin_mdeg(m) * (x - cx) + spec_cos_mdeg(m) * (y - cy))
}

pub open spec fn spec_clamp_i32(v: int) -> int {
    if v < i32::MIN {
        i32::MIN as int
    } else if v > i32::MAX {
        i32::MAX as int
    } else {
        v
    }
}

pub fn clamp_i32(v: i64) -> (r: i32)
    ensures
        r == spec_clamp_i32(v as int),
{
    if v < i32::MIN as i64 {
        i32::MIN
    } else if v > i32::MAX as i64 {
        i32::MAX
    } else {
        v as i32
    }
}

pub proof fn lemma_rotate_products_bounded(c: int, s: int, dx: int, dy: int)
    requires
        -TRIG_ONE <= c <= TRIG_ONE,
        -TRIG_ONE <= s <= TRIG_ONE,
        -0x1_0000_0000 <= dx <= 0x1_0000_0000,
        -0x1_0000_0000 <= dy <= 0x1_0000_0000,
    ensures
        -0x10_0000_0000_0000_0000 <= c * dx <= 0x10_0000_0000_0000_0000,
        -0x10_0000_0000_0000_0000 <= s * dy <= 0x10_0000_0000_0000_0000,
        -0x10_0000_0000_0000_0000 <= s * dx <= 0x10_0000_0000_0000_0000,
        -0x10_0000_0000_0000_0000 <= c * dy <= 0x10_0000_0000_0000_0000,
        -0x20_0000_0000_0000_0000 <= c * dx - s * dy <= 0x20_0000_0000_0000_0000,
        -0x20_0000_0000_0000_0000 <= s * dx + c * dy <= 0x20_0000_0000_0000_0000,
{
    assert(-0x10_0000_0000_0000_0000 <= c * dx <= 0x10_0000_0000_0000_0000) by (nonlinear_arith)
        requires
            -TRIG_ONE <= c <= TRIG_ONE,
            -0x1_0000_0000 <= dx <= 0x1_0000_0000,
            TRIG_ONE == 68_719_476_736,
    ;
    assert(-0x10_0000_0000_0000_0000 <= s * dy <= 0x10_0000_0000_0000_0000) by (nonlinear_arith)
        requires
            -TRIG_ONE <= s <= TRIG_ONE,
            -0x1_0000_0000 <= dy <= 0x1_0000_0000,
            TRIG_ONE == 68_719_476_736,
    ;
    assert(-0x10_0000_0000_0000_0000 <= s * dx <= 0x10_0000_0000_0000_0000) by (nonlinear_arith)
        requires
            -TRIG_ONE <= s <= TRIG_ONE,
            -0x1_0000_0000 <= dx <= 0x1_0000_0000,
            TRIG_ONE == 68_719_476_736,
    ;
    assert(-0x10_0000_0000_0000_0000 <= c * dy <= 0x10_0000_0000_0000_0000) by (nonlinear_arith)
        requires
            -TRIG_ONE <= c <= TRIG_ONE,
            -0x1_0000_0000 <= dy <= 0x1_0000_0000,
            TRIG_ONE == 68_719_476_736,
    ;
}

/// Rotate `p` by `rot` about `center`, rounding to the nearest pixel.
/// A result that leaves the 32-bit coordinate range is clamped to it.
pub fn rotate_point(p: Vec2, rot: Rotation, center: Vec2) -> (r: Vec2)
    ensures
        r.x == spec_clamp_i32(
            spec_rotate_x(p.x as int, p.y as int, rot.spec_millidegrees(), center.x as int, center.y as int),
        ),
        r.y == spec_clamp_i32(
            spec_rotate_y(p.x as int, p.y as int, rot.spec_millidegrees(), center.x as int, center.y as int),
        ),
{
    let m = rot.to_millidegrees();
    let cs = pair_mdeg(m);
    let c = cs.0;
    let s = cs.1;
    let dx: i64 = (p.x as i64) - (center.x as i64);
    let dy: i64 = (p.y as i64) - (center.y as i64);
    proof {
        lemma_rotate_products_bounded(c as int, s as int, dx as int, dy as int);
    }
    let vx: i128 = (c as i128) * (dx as i128) - (s as i128) * (dy as i128);
    let vy: i128 = (s as i128) * (dx as i128) + (c as i128) * (dy as i128);
    let rx: i64 = (center.x as i64) + round_unscale(vx);
    let ry: i64 = (center.y as i64) + round_unscale(vy);
    Vec2 { x: clamp_i32(rx), y: clamp_i32(ry) }
}

/// Rounding a value that is an exact multiple of the scale undoes the scale.
pub proof fn lemma_round_unscale_exact(v: int)
    ensures
        spec_round_unscale(TRIG_ONE * v) == v,
{
    lemma_div_multiples_vanish_fancy(v, TRIG_HALF as int, TRIG_ONE as int);
}

/// The center of a rotation never moves, whatever the angle.
pub proof fn lemma_rotate_center_fixed(m: int, cx: int, cy: int)
    ensures
        spec_rotate_x(cx, cy, m, cx, cy) == cx,
        spec_rotate_y(cx, cy, m, cx, cy) == cy,
{
    assert(spec_cos_mdeg(m) * (cx - cx) - spec_sin_mdeg(m) * (cy - cy) == TRIG_ONE * 0)
        by (nonlinear_arith);
    assert(spec_sin_mdeg(m) * (cx - cx) + spec_cos_mdeg(m) * (cy - cy) == TRIG_ONE * 0)
        by (nonlinear_arith);
    lemma_round_unscale_exact(0);
}

/// An angle is a quarter-turn multiple when its reduced form is one of the
/// four axis directions.
pub open spec fn is_quarter_turn(m: int) -> bool {
    spec_norm_mdeg(m) == 0 || spec_norm_mdeg(m) == QUARTER_TURN_MDEG
        || spec_norm_mdeg(m) == HALF_TURN_MDEG || spec_norm_mdeg(m) == 3 * QUARTER_TURN_MDEG
}

/// At angle zero the pair is exactly `(TRIG_ONE, 0)`.
proof fn lemma_pair_at_zero()
    ensures
        spec_pair_quad(0) == (TRIG_ONE as int, 0int),
{
    let v2 = (HALF_TAN_ONE * HALF_TAN_ONE) as int;
    assert(spec_sin_half(0) == 0);
    assert(spec_half_tan(0) == 0) by {
        lemma_sin_half_bounds(QUARTER_TURN_MDEG as int);
        lemma_basic_div(0, 65536 + spec_sin_half(QUARTER_TURN_MDEG as int));
    }
    lemma_fundamental_div_mod(v2, 2);
    lemma_mod_bound(v2, 2);
    assert(spec_pair_oct(0).0 == TRIG_ONE) by {
        lemma_hoist_over_denominator(v2 / 2, TRIG_ONE as int, v2 as nat);
        lemma_basic_div(v2 / 2, v2);
        assert(TRIG_ONE * v2 + v2 / 2 == v2 / 2 + TRIG_ONE * v2);
    }
    assert(spec_pair_oct(0).1 == 0) by {
        lemma_basic_div(v2 / 2, v2);
        assert(TRIG_ONE * (2 * 0 * HALF_TAN_ONE) + v2 / 2 == v2 / 2) by (nonlinear_arith);
    }
}

/// The fixed-point sine and cosine are exact at the four axis directions.
pub proof fn lemma_trig_at_quarter_turns(m: int)
    ensures
        spec_norm_mdeg(m) == 0 ==> spec_sin_mdeg(m) == 0 && spec_cos_mdeg(m) == TRIG_ONE,
        spec_norm_mdeg(m) == QUARTER_TURN_MDEG ==> spec_sin_mdeg(m) == TRIG_ONE
            && spec_cos_mdeg(m) == 0,
        spec_norm_mdeg(m) == HALF_TURN_MDEG ==> spec_sin_mdeg(m) == 0 && spec_cos_mdeg(m)
            == -TRIG_ONE,
        spec_norm_mdeg(m) == 3 * QUARTER_TURN_MDEG ==> spec_sin_mdeg(m) == -TRIG_ONE
            && spec_cos_mdeg(m) == 0,
{
    lemma_pair_at_zero();
    let n = spec_norm_mdeg(m);
    let qm = QUARTER_TURN_MDEG as int;
    if n == 0 {
        lemma_fundamental_div_mod_converse(n, qm, 0, 0);
    } else if n == qm {
        lemma_fundamental_div_mod_converse(n, qm, 1, 0);
    } else if n == 2 * qm {
        lemma_fundamental_div_mod_converse(n, qm, 2, 0);
    } else if n == 3 * qm {
        lemma_fundamental_div_mod_converse(n, qm, 3, 0);
    }
}

/// Reducing the negated angle mirrors the reduced angle around the full turn.
pub proof fn lemma_norm_neg(m: int)
    ensures
        spec_norm_mdeg(m) == 0 ==> spec_norm_mdeg(-m) == 0,
        spec_norm_mdeg(m) != 0 ==> spec_norm_mdeg(-m) == FULL_TURN_MDEG - spec_norm_mdeg(m),
{
    let f = FULL_TURN_MDEG as int;
    lemma_fundamental_div_mod(m, f);
    lemma_mod_bound(m, f);
    let q = m / f;
    let r = m % f;
    if r == 0 {
        lemma_fundamental_div_mod_converse(-m, f, -q, 0);
    } else {
        lemma_fundamental_div_mod_converse(-m, f, -q - 1, f - r);
    }
}

/// The rotation map written out for each of the four axis directions, where
/// the fixed-point arithmetic is exact.
pub proof fn lemma_rotate_quarter_turn(x: int, y: int, m: int, cx: int, cy: int)
    ensures
        spec_norm_mdeg(m) == 0 ==> spec_rotate_x(x, y, m, cx, cy) == x && spec_rotate_y(
            x,
            y,
            m,
            cx,
            cy,
        ) == y,
        spec_norm_mdeg(m) == QUARTER_TURN_MDEG ==> spec_rotate_x(x, y, m, cx, cy) == cx - (y - cy)
            && spec_rotate_y(x, y, m, cx, cy) == cy + (x - cx),
        spec_norm_mdeg(m) == HALF_TURN_MDEG ==> spec_rotate_x(x, y, m, cx, cy) == cx - (x - cx)
            && spec_rotate_y(x, y, m, cx, cy) == cy - (y - cy),
        spec_norm_mdeg(m) == 3 * QUARTER_TURN_MDEG ==> spec_rotate_x(x, y, m, cx, cy) == cx + (y
            - cy) && spec_rotate_y(x, y, m, cx, cy) == cy - (x - cx),
{
    lemma_trig_at_quarter_turns(m);
    let dx = x - cx;
    let dy = y - cy;
    if spec_norm_mdeg(m) == 0 {
        assert(spec_cos_mdeg(m) * dx - spec_sin_mdeg(m) * dy == TRIG_ONE * dx);
        assert(spec_sin_mdeg(m) * dx + spec_cos_mdeg(m) * dy == TRIG_ONE * dy);
        lemma_round_unscale_exact(dx);
        lemma_round_unscale_exact(dy);
    } else if spec_norm_mdeg(m) == QUARTER_TURN_MDEG {
        assert(spec_cos_mdeg(m) * dx - spec_sin_mdeg(m) * dy == TRIG_ONE * (-dy));
        assert(spec_sin_mdeg(m) * dx + spec_cos_mdeg(m) * dy == TRIG_ONE * dx);
        lemma_round_unscale_exact(-dy);
        lemma_round_unscale_exact(dx);
    } else if spec_norm_mdeg(m) == HALF_TURN_MDEG {
        assert(spec_cos_mdeg(m) * dx - spec_sin_mdeg(m) * dy == TRIG_ONE * (-dx));
        assert(spec_sin_mdeg(m) * dx + spec_cos_mdeg(m) * dy == TRIG_ONE * (-dy));
        lemma_round_unscale_exact(-dx);
        lemma_round_unscale_exact(-dy);
    } else if spec_norm_mdeg(m) == 3 * QUARTER_TURN_MDEG {
        assert(spec_cos_mdeg(m) * dx - spec_sin_mdeg(m) * dy == TRIG_ONE * dy);
        assert(spec_sin_mdeg(m) * dx + spec_cos_mdeg(m) * dy == TRIG_ONE * (-dx));
        lemma_round_unscale_exact(dy);
        lemma_round_unscale_exact(-dx);
    }
}

/// The point `rotate_point` returns, as a pair of clamped coordinates.
pub open spec fn spec_rotate_point(p: (int, int), m: int, c: (int, int)) -> (int, int) {
    (
        spec_clamp_i32(spec_rotate_x(p.0, p.1, m, c.0, c.1)),
        spec_clamp_i32(spec_rotate_y(p.0, p.1, m, c.0, c.1)),
    )
}

/// Law: rotating a point by a quarter-turn angle about a center and then by
/// the negated angle returns the point exactly: at the axis directions the
/// fixed-point arithmetic is exact. The coordinate bound keeps every
/// intermediate inside the 32-bit range, so no clamping occurs.
pub proof fn lemma_rotate_round_trip_quarter_turn(p: (int, int), m: int, c: (int, int))
    requires
        is_quarter_turn(m),
        -500_000_000 <= p.0 <= 500_000_000,
        -500_000_000 <= p.1 <= 500_000_000,
        -500_000_000 <= c.0 <= 500_000_000,
        -500_000_000 <= c.1 <= 500_000_000,
    ensures
        spec_rotate_point(spec_rotate_point(p, m, c), -m, c) == p,
{
    lemma_norm_neg(m);
    lemma_rotate_quarter_turn(p.0, p.1, m, c.0, c.1);
    let q1 = (spec_rotate_x(p.0, p.1, m, c.0, c.1), spec_rotate_y(p.0, p.1, m, c.0, c.1));
    lemma_rotate_quarter_turn(q1.0, q1.1, -m, c.0, c.1);
}

/// The pair of an arbitrary eighth-turn remainder lies within a few
/// units of the circle of radius `TRIG_ONE`.
proof fn lemma_pair_oct_props(beta: int)
    ensures
        0 <= spec_pair_oct(beta).0 <= TRIG_ONE,
        0 <= spec_pair_oct(beta).1 <= TRIG_ONE,
        -(4 * TRIG_ONE + 2) <= spec_pair_oct(beta).0 * spec_pair_oct(beta).0 + spec_pair_oct(
            beta,
        ).1 * spec_pair_oct(beta).1 - TRIG_ONE * TRIG_ONE <= 4 * TRIG_ONE + 2,
{
    let k = TRIG_ONE as int;
    let v = HALF_TAN_ONE as int;
    let u = spec_half_tan(beta);
    assert(0 <= u <= v);
    let a = v * v - u * u;
    let b = 2 * u * v;
    let n = v * v + u * u;
    assert(0 <= a <= n && 0 <= b <= n && n > 0) by (nonlinear_arith)
        requires
            0 <= u <= v,
            v == 4096,
            a == v * v - u * u,
            b == 2 * u * v,
            n == v * v + u * u,
    ;
    lemma_pair_div_in_range(k, a, n);
    lemma_pair_div_in_range(k, b, n);
    let c0 = (k * a + n / 2) / n;
    let s0 = (k * b + n / 2) / n;
    lemma_fundamental_div_mod(k * a + n / 2, n);
    lemma_mod_bound(k * a + n / 2, n);
    lemma_fundamental_div_mod(k * b + n / 2, n);
    lemma_mod_bound(k * b + n / 2, n);
    let e1 = c0 * n - k * a;
    let e2 = s0 * n - k * b;
    assert(-n <= e1 <= n) by (nonlinear_arith)
        requires
            k * a + n / 2 == n * c0 + (k * a + n / 2) % n,
            0 <= (k * a + n / 2) % n < n,
            e1 == c0 * n - k * a,
            n == 2 * (n / 2) + n % 2,
            0 <= n % 2 < 2,
            n > 0,
    ;
    assert(-n <= e2 <= n) by (nonlinear_arith)
        requires
            k * b + n / 2 == n * s0 + (k * b + n / 2) % n,
            0 <= (k * b + n / 2) % n < n,
            e2 == s0 * n - k * b,
            n == 2 * (n / 2) + n % 2,
            0 <= n % 2 < 2,
            n > 0,
    ;
    assert(a * a + b * b == n * n) by (nonlinear_arith)
        requires
            a == v * v - u * u,
            b == 2 * u * v,
            n == v * v + u * u,
    ;
    let d = c0 * c0 + s0 * s0 - k * k;
    assert((c0 * n) * (c0 * n) == (k * a + e1) * (k * a + e1)) by (nonlinear_arith)
        requires
            e1 == c0 * n - k * a,
    ;
    assert((s0 * n) * (s0 * n) == (k * b + e2) * (k * b + e2)) by (nonlinear_arith)
        requires
            e2 == s0 * n - k * b,
    ;
    assert((c0 * n) * (c0 * n) == (c0 * c0) * (n * n)) by (nonlinear_arith);
    assert((s0 * n) * (s0 * n) == (s0 * s0) * (n * n)) by (nonlinear_arith);
    assert((k * n) * (k * n) == (k * k) * (n * n)) by (nonlinear_arith);
    assert((c0 * c0) * (n * n) + (s0 * s0) * (n * n) - (k * k) * (n * n) == d * (n * n))
        by (nonlinear_arith)
        requires
            d == c0 * c0 + s0 * s0 - k * k,
    ;
    assert((k * a + e1) * (k * a + e1) == (k * k) * (a * a) + 2 * k * (a * e1) + e1 * e1)
        by (nonlinear_arith);
    assert((k * b + e2) * (k * b + e2) == (k * k) * (b * b) + 2 * k * (b * e2) + e2 * e2)
        by (nonlinear_arith);
    assert((k * k) * (a * a) + (k * k) * (b * b) == (k * k) * (n * n)) by (nonlinear_arith)
        requires
            a * a + b * b == n * n,
    ;
    assert(2 * k * (a * e1) + 2 * k * (b * e2) == 2 * k * (a * e1 + b * e2)) by (nonlinear_arith);
    assert(d * (n * n) == 2 * k * (a * e1 + b * e2) + e1 * e1 + e2 * e2);
    assert(-((4 * k + 2) * (n * n)) <= d * (n * n) <= (4 * k + 2) * (n * n)) by (nonlinear_arith)
        requires
            d * (n * n) == 2 * k * (a * e1 + b * e2) + e1 * e1 + e2 * e2,
            -n <= e1 <= n,
            -n <= e2 <= n,
            0 <= a <= n,
            0 <= b <= n,
            n > 0,
            k > 0,
    ;
    assert(-(4 * k + 2) <= d <= 4 * k + 2) by (nonlinear_arith)
        requires
            -((4 * k + 2) * (n * n)) <= d * (n * n) <= (4 * k + 2) * (n * n),
            n > 0,
    ;
}

/// The same for the first-quadrant pair, whose eighth-turn boundary value
/// is a fixed constant.
proof fn lemma_pair_quad_props(beta: int)
    ensures
        0 <= spec_pair_quad(beta).0 <= TRIG_ONE,
        0 <= spec_pair_quad(beta).1 <= TRIG_ONE,
        -(4 * TRIG_ONE + 2) <= spec_pair_quad(beta).0 * spec_pair_quad(beta).0 + spec_pair_quad(
            beta,
        ).1 * spec_pair_quad(beta).1 - TRIG_ONE * TRIG_ONE <= 4 * TRIG_ONE + 2,
{
    if beta == EIGHTH_TURN_MDEG {
        assert(-(4 * (TRIG_ONE as int) + 2) <= (EIGHTH_COS as int) * (EIGHTH_COS as int) + (
        EIGHTH_COS as int) * (EIGHTH_COS as int) - (TRIG_ONE as int) * (TRIG_ONE as int) <= 4 * (
        TRIG_ONE as int) + 2) by (nonlinear_arith)
            requires
                EIGHTH_COS == 48_592_008_000,
                TRIG_ONE == 68_719_476_736,
        ;
        assert(0 <= EIGHTH_COS <= TRIG_ONE);
    } else if beta < EIGHTH_TURN_MDEG {
        lemma_pair_oct_props(beta);
    } else {
        lemma_pair_oct_props(QUARTER_TURN_MDEG - beta);
    }
}

/// Any angle's pair lies within a few units of the circle: rotating the
/// first-quadrant pair by whole quarter turns only moves signs around.
proof fn lemma_pair_mdeg_props(m: int)
    ensures
        -TRIG_ONE <= spec_pair_mdeg(m).0 <= TRIG_ONE,
        -TRIG_ONE <= spec_pair_mdeg(m).1 <= TRIG_ONE,
        -(4 * TRIG_ONE + 2) <= spec_pair_mdeg(m).0 * spec_pair_mdeg(m).0 + spec_pair_mdeg(m).1
            * spec_pair_mdeg(m).1 - TRIG_ONE * TRIG_ONE <= 4 * TRIG_ONE + 2,
{
    let n = spec_norm_mdeg(m);
    let qm = QUARTER_TURN_MDEG as int;
    lemma_mod_bound(m, FULL_TURN_MDEG as int);
    lemma_fundamental_div_mod(n, qm);
    lemma_mod_bound(n, qm);
    let beta = n % qm;
    lemma_pair_quad_props(beta);
    let p0 = spec_pair_quad(beta);
    let pp = spec_pair_mdeg(m);
    assert(pp.0 * pp.0 + pp.1 * pp.1 == p0.0 * p0.0 + p0.1 * p0.1) by (nonlinear_arith)
        requires
            (pp.0 == p0.0 && pp.1 == p0.1) || (pp.0 == -p0.1 && pp.1 == p0.0) || (pp.0 == -p0.0
                && pp.1 == -p0.1) || (pp.0 == p0.1 && pp.1 == -p0.0),
    ;
}

/// Negating the angle keeps the cosine and flips the sine, exactly: the
/// construction mirrors the pair across the axes, it never recomputes it.
proof fn lemma_pair_complement(beta: int)
    requires
        0 < beta < QUARTER_TURN_MDEG,
    ensures
        spec_pair_quad(QUARTER_TURN_MDEG - beta) == (
            spec_pair_quad(beta).1,
            spec_pair_quad(beta).0,
        ),
{
}

pub proof fn lemma_pair_negation(m: int)
    ensures
        spec_cos_mdeg(-m) == spec_cos_mdeg(m),
        spec_sin_mdeg(-m) == -spec_sin_mdeg(m),
{
    let f = FULL_TURN_MDEG as int;
    let qm = QUARTER_TURN_MDEG as int;
    lemma_norm_neg(m);
    lemma_mod_bound(m, f);
    lemma_mod_bound(-m, f);
    let n = spec_norm_mdeg(m);
    lemma_fundamental_div_mod(n, qm);
    lemma_mod_bound(n, qm);
    let q = n / qm;
    let beta = n % qm;
    assert(0 <= q < 4) by (nonlinear_arith)
        requires
            n == qm * q + beta,
            0 <= beta < qm,
            0 <= n < f,
            qm == 90_000,
            f == 360_000,
    ;
    if n == 0 {
        lemma_pair_at_zero();
        assert(q == 0 && beta == 0) by (nonlinear_arith)
            requires
                n == qm * q + beta,
                0 <= beta < qm,
                0 <= q,
                n == 0,
                qm == 90_000,
        ;
    } else {
        let n2 = f - n;
        assert(spec_norm_mdeg(-m) == n2);
        if beta == 0 {
            assert(1 <= q <= 3) by (nonlinear_arith)
                requires
                    n == qm * q + beta,
                    beta == 0,
                    0 < n,
                    0 <= q < 4,
                    qm == 90_000,
            ;
            assert(n2 == qm * (4 - q) + 0) by (nonlinear_arith)
                requires
                    n == qm * q,
                    n2 == f - n,
                    f == 360_000,
                    qm == 90_000,
            ;
            lemma_fundamental_div_mod_converse(n2, qm, 4 - q, 0);
            lemma_pair_at_zero();
        } else {
            assert(n2 == qm * (3 - q) + (qm - beta)) by (nonlinear_arith)
                requires
                    n == qm * q + beta,
                    n2 == f - n,
                    f == 360_000,
                    qm == 90_000,
            ;
            lemma_fundamental_div_mod_converse(n2, qm, 3 - q, qm - beta);
            lemma_pair_complement(beta);
        }
    }
}

/// The residual of rounding to the nearest scale multiple.
proof fn lemma_rdiv_residual(v: int)
    ensures
        -TRIG_HALF < TRIG_ONE * spec_round_unscale(v) - v <= TRIG_HALF,
{
    let k = TRIG_ONE as int;
    let h = TRIG_HALF as int;
    lemma_fundamental_div_mod(v + h, k);
    lemma_mod_bound(v + h, k);
    assert(-h < k * ((v + h) / k) - v <= h) by (nonlinear_arith)
        requires
            v + h == k * ((v + h) / k) + (v + h) % k,
            0 <= (v + h) % k < k,
            2 * h == k,
    ;
}

/// A value strictly between minus one and two scale units divides to
/// minus one, zero or one.
proof fn lemma_div_near_zero(t: int)
    requires
        -(TRIG_ONE as int) < t < 2 * TRIG_ONE,
    ensures
        -1 <= t / (TRIG_ONE as int) <= 1,
{
    let k = TRIG_ONE as int;
    if t >= k {
        lemma_fundamental_div_mod_converse(t, k, 1, t - k);
    } else if t >= 0 {
        lemma_basic_div(t, k);
    } else {
        lemma_fundamental_div_mod_converse(t, k, -1, t + k);
    }
}

/// A value whose square is bounded is bounded.
proof fn lemma_abs_le_of_square(v: int, b: int)
    requires
        b >= 0,
        v * v <= b * b,
    ensures
        -b <= v <= b,
{
    if v > b {
        assert(v * v > b * b) by (nonlinear_arith)
            requires
                v > b >= 0,
        ;
    }
    if v < -b {
        assert(v * v > b * b) by (nonlinear_arith)
            requires
                v < -b,
                b >= 0,
        ;
    }
}

/// Law: rotating a point by any angle about a center and then by the
/// negated angle returns to within one pixel of the starting point. The
/// pair of sine and cosine values lies within a few units of the circle
/// of radius `TRIG_ONE` and the backward rotation uses the mirrored pair
/// exactly, so the only drift left is the rounding of each pass. The
/// coordinate bound keeps every intermediate inside the 32-bit range, so
/// no clamping occurs.
pub proof fn lemma_rotate_round_trip(p: (int, int), m: int, c: (int, int))
    requires
        -500_000_000 <= p.0 <= 500_000_000,
        -500_000_000 <= p.1 <= 500_000_000,
        -500_000_000 <= c.0 <= 500_000_000,
        -500_000_000 <= c.1 <= 500_000_000,
    ensures
        -1 <= spec_rotate_point(spec_rotate_point(p, m, c), -m, c).0 - p.0 <= 1,
        -1 <= spec_rotate_point(spec_rotate_point(p, m, c), -m, c).1 - p.1 <= 1,
{
    let k = TRIG_ONE as int;
    let h = TRIG_HALF as int;
    let dd = 4 * k + 2;
    lemma_pair_mdeg_props(m);
    lemma_pair_negation(m);
    let cc = spec_cos_mdeg(m);
    let ss = spec_sin_mdeg(m);
    let d = cc * cc + ss * ss - k * k;
    let dx = p.0 - c.0;
    let dy = p.1 - c.1;
    let v1 = cc * dx - ss * dy;
    let v2 = ss * dx + cc * dy;
    let q1 = cc * dx;
    let q2 = ss * dy;
    let q3 = ss * dx;
    let q4 = cc * dy;
    assert(q1 * q2 == q3 * q4) by (nonlinear_arith)
        requires
            q1 == cc * dx,
            q2 == ss * dy,
            q3 == ss * dx,
            q4 == cc * dy,
    ;
    assert(v1 * v1 == q1 * q1 - 2 * (q1 * q2) + q2 * q2) by (nonlinear_arith)
        requires
            v1 == q1 - q2,
    ;
    assert(v2 * v2 == q3 * q3 + 2 * (q3 * q4) + q4 * q4) by (nonlinear_arith)
        requires
            v2 == q3 + q4,
    ;
    assert(q1 * q1 == (cc * cc) * (dx * dx)) by (nonlinear_arith)
        requires
            q1 == cc * dx,
    ;
    assert(q2 * q2 == (ss * ss) * (dy * dy)) by (nonlinear_arith)
        requires
            q2 == ss * dy,
    ;
    assert(q3 * q3 == (ss * ss) * (dx * dx)) by (nonlinear_arith)
        requires
            q3 == ss * dx,
    ;
    assert(q4 * q4 == (cc * cc) * (dy * dy)) by (nonlinear_arith)
        requires
            q4 == cc * dy,
    ;
    assert((cc * cc + ss * ss) * (dx * dx + dy * dy) == (cc * cc) * (dx * dx) + (cc * cc) * (dy
        * dy) + (ss * ss) * (dx * dx) + (ss * ss) * (dy * dy)) by (nonlinear_arith);
    assert(v1 * v1 + v2 * v2 == (cc * cc + ss * ss) * (dx * dx + dy * dy));
    let b = 1_500_000_000 * k;
    assert(0 <= dx * dx + dy * dy <= 2_000_000_000_000_000_000) by (nonlinear_arith)
        requires
            -1_000_000_000 <= dx <= 1_000_000_000,
            -1_000_000_000 <= dy <= 1_000_000_000,
    ;
    assert(v1 * v1 + v2 * v2 <= (k * k + dd) * 2_000_000_000_000_000_000) by (nonlinear_arith)
        requires
            v1 * v1 + v2 * v2 == (cc * cc + ss * ss) * (dx * dx + dy * dy),
            cc * cc + ss * ss - k * k == d,
            -dd <= d <= dd,
            0 <= dx * dx + dy * dy <= 2_000_000_000_000_000_000,
            0 <= cc * cc + ss * ss,
    ;
    assert((k * k + dd) * 2_000_000_000_000_000_000 <= b * b) by (nonlinear_arith)
        requires
            k == 68_719_476_736,
            dd == 4 * k + 2,
            b == 1_500_000_000 * k,
    ;
    assert(0 <= v1 * v1 && 0 <= v2 * v2) by (nonlinear_arith);
    assert(b >= 0) by (nonlinear_arith)
        requires
            b == 1_500_000_000 * k,
            k > 0,
    ;
    lemma_abs_le_of_square(v1, b);
    lemma_abs_le_of_square(v2, b);
    let dx1 = spec_round_unscale(v1);
    let dy1 = spec_round_unscale(v2);
    lemma_rdiv_residual(v1);
    lemma_rdiv_residual(v2);
    let r1 = k * dx1 - v1;
    let r2 = k * dy1 - v2;
    assert(-1_500_000_001 < dx1 < 1_500_000_001) by (nonlinear_arith)
        requires
            k * dx1 == v1 + r1,
            -b <= v1 <= b,
            -h < r1 <= h,
            b == 1_500_000_000 * k,
            2 * h == k,
            k > 0,
    ;
    assert(-1_500_000_001 < dy1 < 1_500_000_001) by (nonlinear_arith)
        requires
            k * dy1 == v2 + r2,
            -b <= v2 <= b,
            -h < r2 <= h,
            b == 1_500_000_000 * k,
            2 * h == k,
            k > 0,
    ;
    let x1 = c.0 + dx1;
    let y1 = c.1 + dy1;
    assert(spec_rotate_point(p, m, c) == (x1, y1));
    let w1 = cc * dx1 + ss * dy1;
    let w2 = -ss * dx1 + cc * dy1;
    assert(spec_cos_mdeg(-m) * (x1 - c.0) - spec_sin_mdeg(-m) * (y1 - c.1) == w1)
        by (nonlinear_arith)
        requires
            spec_cos_mdeg(-m) == cc,
            spec_sin_mdeg(-m) == -ss,
            x1 - c.0 == dx1,
            y1 - c.1 == dy1,
            w1 == cc * dx1 + ss * dy1,
    ;
    assert(spec_sin_mdeg(-m) * (x1 - c.0) + spec_cos_mdeg(-m) * (y1 - c.1) == w2)
        by (nonlinear_arith)
        requires
            spec_cos_mdeg(-m) == cc,
            spec_sin_mdeg(-m) == -ss,
            x1 - c.0 == dx1,
            y1 - c.1 == dy1,
            w2 == -ss * dx1 + cc * dy1,
    ;
    assert(spec_rotate_x(x1, y1, -m, c.0, c.1) == c.0 + spec_round_unscale(w1));
    assert(spec_rotate_y(x1, y1, -m, c.0, c.1) == c.1 + spec_round_unscale(w2));
    assert(k * w1 == cc * (k * dx1) + ss * (k * dy1)) by (nonlinear_arith)
        requires
            w1 == cc * dx1 + ss * dy1,
    ;
    assert(cc * (k * dx1) == cc * v1 + cc * r1) by (nonlinear_arith)
        requires
            k * dx1 == v1 + r1,
    ;
    assert(ss * (k * dy1) == ss * v2 + ss * r2) by (nonlinear_arith)
        requires
            k * dy1 == v2 + r2,
    ;
    assert(cc * v1 + ss * v2 == (cc * cc + ss * ss) * dx) by (nonlinear_arith)
        requires
            v1 == cc * dx - ss * dy,
            v2 == ss * dx + cc * dy,
    ;
    assert((cc * cc + ss * ss) * dx == (k * k + d) * dx) by (nonlinear_arith)
        requires
            cc * cc + ss * ss == k * k + d,
    ;
    assert(k * w1 == (k * k + d) * dx + cc * r1 + ss * r2);
    assert(k * w2 == -ss * (k * dx1) + cc * (k * dy1)) by (nonlinear_arith)
        requires
            w2 == -ss * dx1 + cc * dy1,
    ;
    assert(-ss * (k * dx1) == -ss * v1 + -ss * r1) by (nonlinear_arith)
        requires
            k * dx1 == v1 + r1,
    ;
    assert(cc * (k * dy1) == cc * v2 + cc * r2) by (nonlinear_arith)
        requires
            k * dy1 == v2 + r2,
    ;
    assert(-ss * v1 + cc * v2 == (cc * cc + ss * ss) * dy) by (nonlinear_arith)
        requires
            v1 == cc * dx - ss * dy,
            v2 == ss * dx + cc * dy,
    ;
    assert((cc * cc + ss * ss) * dy == (k * k + d) * dy) by (nonlinear_arith)
        requires
            cc * cc + ss * ss == k * k + d,
    ;
    assert(k * w2 == (k * k + d) * dy + (cc * r2 - ss * r1)) by (nonlinear_arith)
        requires
            k * w2 == -ss * (k * dx1) + cc * (k * dy1),
            -ss * (k * dx1) == -ss * v1 + -ss * r1,
            cc * (k * dy1) == cc * v2 + cc * r2,
            -ss * v1 + cc * v2 == (k * k + d) * dy,
    ;
    let a1 = w1 - k * dx;
    let a2 = w2 - k * dy;
    assert(k * a1 == d * dx + cc * r1 + ss * r2) by (nonlinear_arith)
        requires
            k * w1 == (k * k + d) * dx + cc * r1 + ss * r2,
            a1 == w1 - k * dx,
    ;
    assert(k * a2 == d * dy + (cc * r2 - ss * r1)) by (nonlinear_arith)
        requires
            k * w2 == (k * k + d) * dy + (cc * r2 - ss * r1),
            a2 == w2 - k * dy,
    ;
    assert(-((k + h) * k) < k * a1 < (k + h) * k) by (nonlinear_arith)
        requires
            k * a1 == d * dx + cc * r1 + ss * r2,
            -dd <= d <= dd,
            dd == 4 * k + 2,
            -1_000_000_000 <= dx <= 1_000_000_000,
            -k <= cc <= k,
            -k <= ss <= k,
            -h < r1 <= h,
            -h < r2 <= h,
            2 * h == k,
            k == 68_719_476_736,
    ;
    assert(-((k + h) * k) < k * a2 < (k + h) * k) by (nonlinear_arith)
        requires
            k * a2 == d * dy + (cc * r2 - ss * r1),
            -dd <= d <= dd,
            dd == 4 * k + 2,
            -1_000_000_000 <= dy <= 1_000_000_000,
            -k <= cc <= k,
            -k <= ss <= k,
            -h < r1 <= h,
            -h < r2 <= h,
            2 * h == k,
            k == 68_719_476_736,
    ;
    assert(-(k + h) < a1 < k + h) by (nonlinear_arith)
        requires
            -((k + h) * k) < k * a1 < (k + h) * k,
            k > 0,
    ;
    assert(-(k + h) < a2 < k + h) by (nonlinear_arith)
        requires
            -((k + h) * k) < k * a2 < (k + h) * k,
            k > 0,
    ;
    lemma_hoist_over_denominator(a1 + h, dx, k as nat);
    lemma_hoist_over_denominator(a2 + h, dy, k as nat);
    assert(k * dx == dx * k && k * dy == dy * k) by (nonlinear_arith);
    assert(spec_round_unscale(w1) == dx + (a1 + h) / k);
    assert(spec_round_unscale(w2) == dy + (a2 + h) / k);
    lemma_div_near_zero(a1 + h);
    lemma_div_near_zero(a2 + h);
}

} // verus!
