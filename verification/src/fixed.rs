//! Fixed-point numbers: a scalar whose arithmetic is exact integer
//! arithmetic, so that every operation has a value that can be stated and
//! checked.
//!
//! A `Fixed` holds a number of 65536ths. Sums, differences and products stop
//! at the ends of the range; products and quotients are rounded to a whole
//! number of 65536ths. The angle functions are short rational
//! approximations, given here by their formulas.

use crate::scalar::Scalar;
use vstd::prelude::*;

verus! {

/// 65536ths per unit.
pub const SCALE: i64 = 65536;

/// A number of 65536ths.
#[derive(Clone, Copy, Debug, PartialEq, Eq, Structural)]
pub struct Fixed {
    pub raw: i64,
}

/// `v` brought into the range of `i64`.
pub open spec fn fit(v: int) -> i64 {
    if v > i64::MAX {
        i64::MAX
    } else if v < i64::MIN {
        i64::MIN
    } else {
        v as i64
    }
}

/// `v` brought into the range of `i32`.
pub open spec fn fit32(v: int) -> i32 {
    if v > i32::MAX {
        i32::MAX
    } else if v < i32::MIN {
        i32::MIN
    } else {
        v as i32
    }
}

/// `a / b` rounded towards zero, for `b` other than 0.
pub open spec fn towards_zero(a: int, b: int) -> int {
    let m = (if a < 0 { -a } else { a }) / (if b < 0 { -b } else { b });
    if (a < 0) != (b < 0) {
        -m
    } else {
        m
    }
}

/// Whether `r` is the whole part of the square root of `v`.
pub open spec fn is_sqrt(v: int, r: int) -> bool {
    0 <= r && r * r <= v < (r + 1) * (r + 1)
}

/// The whole part of the square root of `v`, for `v` from 0 on.
pub open spec fn int_sqrt(v: int) -> int {
    choose|r: int| is_sqrt(v, r)
}

/// Only one number is the whole part of the square root.
pub proof fn lemma_sqrt_unique(v: int, r1: int, r2: int)
    requires
        is_sqrt(v, r1),
        is_sqrt(v, r2),
    ensures
        r1 == r2,
{
    if r1 < r2 {
        assert((r1 + 1) * (r1 + 1) <= r2 * r2) by (nonlinear_arith)
            requires
                0 <= r1 + 1 <= r2,
        ;
    } else if r2 < r1 {
        assert((r2 + 1) * (r2 + 1) <= r1 * r1) by (nonlinear_arith)
            requires
                0 <= r2 + 1 <= r1,
        ;
    }
}

fn saturate(v: i128) -> (r: i64)
    ensures
        r == fit(v as int),
{
    if v > i64::MAX as i128 {
        i64::MAX
    } else if v < i64::MIN as i128 {
        i64::MIN
    } else {
        v as i64
    }
}

fn saturate32(v: i128) -> (r: i32)
    ensures
        r == fit32(v as int),
{
    if v > i32::MAX as i128 {
        i32::MAX
    } else if v < i32::MIN as i128 {
        i32::MIN
    } else {
        v as i32
    }
}

/// The quotient of a negative number, rounded down, is less the quotient
/// of its magnitude, rounded up.
pub proof fn lemma_floor_of_negative(a: int, b: int)
    requires
        b > 0,
        a < 0,
    ensures
        a / b == -((-a + (b - 1)) / b),
{
    let q = a / b;
    let r = a % b;
    assert(a == b * q + r && 0 <= r < b) by {
        vstd::arithmetic::div_mod::lemma_fundamental_div_mod(a, b);
        vstd::arithmetic::div_mod::lemma_mod_bound(a, b);
    }
    let p = -a + (b - 1);
    // p == b * (-q) + (b - 1 - r), with 0 <= b - 1 - r < b
    assert(p == b * (-q) + (b - 1 - r)) by (nonlinear_arith)
        requires
            a == b * q + r,
            p == -a + (b - 1),
    ;
    vstd::arithmetic::div_mod::lemma_fundamental_div_mod_converse(p, b, -q, b - 1 - r);
}

/// `a / b` rounded down, for `b` above 0.
fn floor_div(a: i128, b: i128) -> (r: i128)
    requires
        b > 0,
        -0x4000_0000_0000_0000_0000_0000_0000_0000 <= a <= 0x4000_0000_0000_0000_0000_0000_0000_0000,
        b <= 0x1_0000_0000,
    ensures
        r == a / b,
{
    if a >= 0 {
        a / b
    } else {
        let m = (-a + (b - 1)) / b;
        proof {
            lemma_floor_of_negative(a as int, b as int);
        }
        -m
    }
}

fn square_root(v: u128) -> (r: u128)
    requires
        v < 0x1_0000_0000_0000_0000_0000,
    ensures
        is_sqrt(v as int, r as int),
        r == int_sqrt(v as int),
        r < 0x100_0000_0000,
{
    let mut r: u128 = 0;
    let mut s: u128 = 0x100_0000_0000;
    proof {
        assert(0x100_0000_0000 * 0x100_0000_0000 == 0x1_0000_0000_0000_0000_0000) by (nonlinear_arith);
    }
    while s > 1
        invariant
            1 <= s <= 0x100_0000_0000,
            r + s <= 0x100_0000_0000,
            r * r <= v < (r + s) * (r + s),
        decreases s,
    {
        let half = s / 2;
        let c = r + half;
        proof {
            assert(c * c <= 0x100_0000_0000 * 0x100_0000_0000) by (nonlinear_arith)
                requires
                    0 <= c <= 0x100_0000_0000,
            ;
            assert(0x100_0000_0000 * 0x100_0000_0000 == 0x1_0000_0000_0000_0000_0000) by (nonlinear_arith);
        }
        if c * c <= v {
            r = c;
        } else {
            proof {
                assert(c * c <= (r + (s - half)) * (r + (s - half))) by (nonlinear_arith)
                    requires
                        0 <= c <= r + (s - half),
                ;
            }
        }
        s = s - half;
    }
    proof {
        assert(is_sqrt(v as int, r as int));
        lemma_sqrt_unique(v as int, r as int, int_sqrt(v as int));
    }
    r
}

/// Whether `r` is the whole part of the cube root of `v`.
pub open spec fn is_cbrt(v: int, r: int) -> bool {
    0 <= r && r * r * r <= v < (r + 1) * (r + 1) * (r + 1)
}

/// The whole part of the cube root of `v`, for `v` from 0 on.
pub open spec fn int_cbrt(v: int) -> int {
    choose|r: int| is_cbrt(v, r)
}

/// Only one number is the whole part of the cube root.
pub proof fn lemma_cbrt_unique(v: int, r1: int, r2: int)
    requires
        is_cbrt(v, r1),
        is_cbrt(v, r2),
    ensures
        r1 == r2,
{
    if r1 < r2 {
        lemma_cube_grows(r1 + 1, r2);
    } else if r2 < r1 {
        lemma_cube_grows(r2 + 1, r1);
    }
}

/// The cube of the smaller of two numbers from 0 on is the smaller cube.
proof fn lemma_cube_grows(a: int, b: int)
    requires
        0 <= a <= b,
    ensures
        a * a * a <= b * b * b,
{
    assert(a * a <= b * b) by (nonlinear_arith)
        requires
            0 <= a <= b,
    ;
    assert(a * a * a <= b * b * b) by (nonlinear_arith)
        requires
            0 <= a <= b,
            0 <= a * a <= b * b,
    ;
}

fn cube_root(v: u128) -> (r: u128)
    requires
        v < 0x1_0000_0000_0000_0000_0000_0000,
    ensures
        is_cbrt(v as int, r as int),
        r == int_cbrt(v as int),
        r < 0x1_0000_0000,
{
    let mut r: u128 = 0;
    let mut s: u128 = 0x1_0000_0000;
    proof {
        assert(0x1_0000_0000 * 0x1_0000_0000 * 0x1_0000_0000 == 0x1_0000_0000_0000_0000_0000_0000int)
            by (nonlinear_arith);
    }
    while s > 1
        invariant
            1 <= s <= 0x1_0000_0000,
            r + s <= 0x1_0000_0000,
            r * r * r <= v < (r + s) * (r + s) * (r + s),
        decreases s,
    {
        let half = s / 2;
        let c = r + half;
        proof {
            lemma_cube_grows(c as int, 0x1_0000_0000);
            assert(0x1_0000_0000 * 0x1_0000_0000 * 0x1_0000_0000 == 0x1_0000_0000_0000_0000_0000_0000int)
                by (nonlinear_arith);
            assert(c * c <= 0x1_0000_0000 * 0x1_0000_0000) by (nonlinear_arith)
                requires
                    0 <= c <= 0x1_0000_0000,
            ;
            assert(0x1_0000_0000 * 0x1_0000_0000 == 0x1_0000_0000_0000_0000int) by (nonlinear_arith);
        }
        if c * c * c <= v {
            r = c;
        } else {
            proof {
                lemma_cube_grows(c as int, r + (s - half));
            }
        }
        s = s - half;
    }
    proof {
        assert(is_cbrt(v as int, r as int));
        lemma_cbrt_unique(v as int, r as int, int_cbrt(v as int));
    }
    r
}

/// The magnitude of `a`.
pub open spec fn size(a: int) -> int {
    if a < 0 {
        -a
    } else {
        a
    }
}

/// The number of 65536ths nearest to `a` 65536ths, as a whole number; a
/// half is rounded away from zero.
pub open spec fn rounded(a: int) -> int {
    if a < 0 {
        -((-a + 32768) / 65536)
    } else {
        (a + 32768) / 65536
    }
}

impl Fixed {
    /// 0.273, a constant of the arc tangent.
    pub open spec fn bend() -> Fixed {
        Fixed { raw: 17891 }
    }

    /// A quarter turn.
    pub open spec fn quarter_turn() -> Fixed {
        Fixed { raw: 102944 }
    }

    /// An eighth of a turn.
    pub open spec fn eighth_turn() -> Fixed {
        Fixed { raw: 51472 }
    }

    /// The arc tangent of `z` for `z` from 0 to 1: `z` times an eighth of a
    /// turn plus 0.273 times `1 - z`.
    pub open spec fn slope_angle(z: Fixed) -> Fixed {
        z.product(Self::eighth_turn().sum(Self::bend().product(Fixed::unit().difference(z))))
    }

    fn slope_to_angle(z: Fixed) -> (r: Fixed)
        ensures
            r == Self::slope_angle(z),
    {
        z.mul(Fixed { raw: 51472 }.add(Fixed { raw: 17891 }.mul(Fixed::one().sub(z))))
    }

    /// The arc sine of `x` for `x` from 0 to 1: a quarter turn less the root
    /// of `1 - x` times a cubic in `x`.
    pub open spec fn arc_sine_of_positive(x: Fixed) -> Fixed {
        let cubic = Fixed { raw: 102942 }.sum(
            x.product(
                Fixed { raw: -13901i64 }.sum(
                    x.product(Fixed { raw: 4867 }.sum(x.product(Fixed { raw: -1227i64 }))),
                ),
            ),
        );
        Self::quarter_turn().difference(Fixed::unit().difference(x).root().product(cubic))
    }

    fn asin_of_positive(x: Fixed) -> (r: Fixed)
        ensures
            r == Self::arc_sine_of_positive(x),
    {
        let cubic = Fixed { raw: 102942 }.add(
            x.mul(Fixed { raw: -13901 }.add(x.mul(Fixed { raw: 4867 }.add(x.mul(Fixed { raw: -1227 }))))),
        );
        Fixed { raw: 102944 }.sub(Fixed::one().sub(x).sqrt().mul(cubic))
    }

    /// A whole turn.
    pub open spec fn whole_turn() -> Fixed {
        Fixed { raw: 411775 }
    }

    /// The sine of an angle `x` from 0 to half a turn: with `b` for `x`
    /// times what `x` lacks of half a turn, 16 `b` over 49.348 less 4 `b`.
    pub open spec fn sine_of_arc(x: Fixed) -> Fixed {
        let bow = x.product(Fixed::half_turn().difference(x));
        Fixed::lift(16).product(bow).quotient(
            Fixed { raw: 3234072 }.difference(Fixed::lift(4).product(bow)),
        )
    }

    fn sin_of_arc(x: Fixed) -> (r: Fixed)
        ensures
            r == Self::sine_of_arc(x),
    {
        let bow = x.mul(Fixed::pi().sub(x));
        Fixed::from_u32(16).mul(bow).div(Fixed { raw: 3234072 }.sub(Fixed::from_u32(4).mul(bow)))
    }
}

impl Scalar for Fixed {
    open spec fn nil() -> Fixed {
        Fixed { raw: 0 }
    }

    open spec fn unit() -> Fixed {
        Fixed { raw: 65536 }
    }

    /// The largest number there is.
    open spec fn unbounded() -> Fixed {
        Fixed { raw: i64::MAX }
    }

    /// Sixteen 65536ths.
    open spec fn tolerance() -> Fixed {
        Fixed { raw: 16 }
    }

    open spec fn half_turn() -> Fixed {
        Fixed { raw: 205887 }
    }

    open spec fn of_u32(n: u32) -> Fixed {
        Fixed { raw: fit(n * 65536) }
    }

    open spec fn of_i32(n: i32) -> Fixed {
        Fixed { raw: fit(n * 65536) }
    }

    open spec fn sum(self, rhs: Fixed) -> Fixed {
        Fixed { raw: fit(self.raw + rhs.raw) }
    }

    open spec fn difference(self, rhs: Fixed) -> Fixed {
        Fixed { raw: fit(self.raw - rhs.raw) }
    }

    /// The product, rounded down to a whole number of 65536ths.
    open spec fn product(self, rhs: Fixed) -> Fixed {
        Fixed { raw: fit((self.raw * rhs.raw) / 65536) }
    }

    /// The quotient, rounded towards zero to a whole number of 65536ths. A
    /// quotient by 0 is the end of the range on the side of the dividend, and
    /// 0 for 0 by 0.
    open spec fn quotient(self, rhs: Fixed) -> Fixed {
        if rhs.raw == 0 {
            if self.raw > 0 {
                Fixed { raw: i64::MAX }
            } else if self.raw < 0 {
                Fixed { raw: i64::MIN }
            } else {
                Fixed { raw: 0 }
            }
        } else {
            Fixed { raw: fit(towards_zero(self.raw * 65536, rhs.raw as int)) }
        }
    }

    /// The dividend less the divisor times their quotient rounded towards
    /// zero; it has the sign of the dividend. 0 for a divisor of 0.
    open spec fn remainder(self, rhs: Fixed) -> Fixed {
        if rhs.raw == 0 {
            Fixed { raw: 0 }
        } else {
            Fixed { raw: fit(self.raw - rhs.raw * towards_zero(self.raw as int, rhs.raw as int)) }
        }
    }

    open spec fn negation(self) -> Fixed {
        Fixed { raw: fit(-self.raw) }
    }

    /// The square root, rounded down to a whole number of 65536ths; 0 for a
    /// negative number.
    open spec fn root(self) -> Fixed {
        if self.raw <= 0 {
            Fixed { raw: 0 }
        } else {
            Fixed { raw: int_sqrt(self.raw * 65536) as i64 }
        }
    }

    open spec fn magnitude(self) -> Fixed {
        Fixed { raw: fit(size(self.raw as int)) }
    }

    open spec fn upper(self, rhs: Fixed) -> Fixed {
        if self.raw < rhs.raw {
            rhs
        } else {
            self
        }
    }

    open spec fn lower(self, rhs: Fixed) -> Fixed {
        if rhs.raw < self.raw {
            rhs
        } else {
            self
        }
    }

    open spec fn below(self, rhs: Fixed) -> bool {
        self.raw < rhs.raw
    }

    open spec fn at_most(self, rhs: Fixed) -> bool {
        self.raw <= rhs.raw
    }

    open spec fn same(self, rhs: Fixed) -> bool {
        self.raw == rhs.raw
    }

    open spec fn nearest(self) -> i32 {
        fit32(rounded(self.raw as int))
    }

    open spec fn whole_below(self) -> i32 {
        fit32(self.raw / 65536)
    }

    open spec fn whole_above(self) -> i32 {
        fit32((self.raw + 65535) / 65536)
    }

    /// `x (15 - x^2) / (15 - 6 x^2)`, for angles up to about an eighth of a
    /// turn.
    open spec fn tangent(self) -> Fixed {
        let x2 = self.product(self);
        self.product(Fixed::lift(15).difference(x2)).quotient(
            Fixed::lift(15).difference(Fixed::lift(6).product(x2)),
        )
    }

    /// Degrees times 1144 65536ths.
    open spec fn radians(self) -> Fixed {
        self.product(Fixed { raw: 1144 })
    }

    /// Radians times 57.2958.
    open spec fn degrees(self) -> Fixed {
        self.product(Fixed { raw: 3754936 })
    }

    /// The arc sine of the number brought into `[-1, 1]`, odd in its
    /// argument: see `arc_sine_of_positive`.
    open spec fn arc_sine(self) -> Fixed {
        if self.raw < 0 {
            Fixed::arc_sine_of_positive(self.negation().lower(Fixed::unit())).negation()
        } else {
            Fixed::arc_sine_of_positive(self.lower(Fixed::unit()))
        }
    }

    /// The angle of the point `(x, self)`, from minus half a turn to half a
    /// turn: see `slope_angle`. 0 for the origin.
    open spec fn arc_tangent(self, x: Fixed) -> Fixed {
        let ay = self.magnitude();
        let ax = x.magnitude();
        if ay.raw == 0 && ax.raw == 0 {
            Fixed { raw: 0 }
        } else {
            let first = if ax.raw < ay.raw {
                Fixed::quarter_turn().difference(Fixed::slope_angle(ax.quotient(ay)))
            } else {
                Fixed::slope_angle(ay.quotient(ax))
            };
            let upper = if x.raw < 0 {
                Fixed::half_turn().difference(first)
            } else {
                first
            };
            if self.raw < 0 {
                upper.negation()
            } else {
                upper
            }
        }
    }


    /// The sine: the angle is brought into one whole turn from 0 on; in
    /// the first half of it see `sine_of_arc`, in the second half the sine
    /// is that of the angle half a turn earlier, negated.
    open spec fn sine(self) -> Fixed {
        let left = self.remainder(Fixed::whole_turn());
        let angle = if left.raw < 0 {
            left.sum(Fixed::whole_turn())
        } else {
            left
        };
        if angle.raw > Fixed::half_turn().raw {
            Fixed::sine_of_arc(angle.difference(Fixed::half_turn())).negation()
        } else {
            Fixed::sine_of_arc(angle)
        }
    }

    /// The sine of the angle a quarter turn on.
    open spec fn cosine(self) -> Fixed {
        self.sum(Fixed::quarter_turn()).sine()
    }

    /// A quarter turn less the arc sine.
    open spec fn arc_cosine(self) -> Fixed {
        Fixed::quarter_turn().difference(self.arc_sine())
    }

    /// The cube root, rounded down to a whole number of 65536ths; 0 for a
    /// negative number.
    open spec fn cube_root(self) -> Fixed {
        if self.raw <= 0 {
            Fixed { raw: 0 }
        } else {
            Fixed { raw: int_cbrt(self.raw * 4294967296) as i64 }
        }
    }

    fn zero() -> (r: Fixed) {
        Fixed { raw: 0 }
    }

    fn one() -> (r: Fixed) {
        Fixed { raw: 65536 }
    }

    fn infinity() -> (r: Fixed) {
        Fixed { raw: i64::MAX }
    }

    fn epsilon() -> (r: Fixed) {
        Fixed { raw: 16 }
    }

    fn pi() -> (r: Fixed) {
        Fixed { raw: 205887 }
    }

    fn from_u32(n: u32) -> (r: Fixed) {
        Fixed { raw: saturate(n as i128 * 65536) }
    }

    fn from_i32(n: i32) -> (r: Fixed) {
        Fixed { raw: saturate(n as i128 * 65536) }
    }

    fn add(self, rhs: Fixed) -> (r: Fixed) {
        Fixed { raw: saturate(self.raw as i128 + rhs.raw as i128) }
    }

    fn sub(self, rhs: Fixed) -> (r: Fixed) {
        Fixed { raw: saturate(self.raw as i128 - rhs.raw as i128) }
    }

    fn mul(self, rhs: Fixed) -> (r: Fixed) {
        let a = self.raw as i128;
        let b = rhs.raw as i128;
        proof {
            assert(-0x4000_0000_0000_0000_0000_0000_0000_0000 <= a * b
                <= 0x4000_0000_0000_0000_0000_0000_0000_0000) by (nonlinear_arith)
                requires
                    -0x8000_0000_0000_0000 <= a <= 0x8000_0000_0000_0000,
                    -0x8000_0000_0000_0000 <= b <= 0x8000_0000_0000_0000,
            ;
        }
        Fixed { raw: saturate(floor_div(a * b, 65536)) }
    }

    fn div(self, rhs: Fixed) -> (r: Fixed) {
        if rhs.raw == 0 {
            if self.raw > 0 {
                Fixed { raw: i64::MAX }
            } else if self.raw < 0 {
                Fixed { raw: i64::MIN }
            } else {
                Fixed { raw: 0 }
            }
        } else {
            let a = self.raw as i128 * 65536;
            let b = rhs.raw as i128;
            let m: i128 = (if a < 0 { -a } else { a }) / (if b < 0 { -b } else { b });
            let q: i128 = if (a < 0) != (b < 0) {
                -m
            } else {
                m
            };
            Fixed { raw: saturate(q) }
        }
    }

    fn rem(self, rhs: Fixed) -> (r: Fixed) {
        if rhs.raw == 0 {
            Fixed { raw: 0 }
        } else {
            let a = self.raw as i128;
            let b = rhs.raw as i128;
            let m: i128 = (if a < 0 { -a } else { a }) / (if b < 0 { -b } else { b });
            let q: i128 = if (a < 0) != (b < 0) {
                -m
            } else {
                m
            };
            proof {
                assert(-0x4000_0000_0000_0000_0000_0000_0000_0000 <= b * q
                    <= 0x4000_0000_0000_0000_0000_0000_0000_0000) by (nonlinear_arith)
                    requires
                        -0x8000_0000_0000_0000 <= b <= 0x8000_0000_0000_0000,
                        -0x8000_0000_0000_0000 <= q <= 0x8000_0000_0000_0000,
                ;
            }
            Fixed { raw: saturate(a - b * q) }
        }
    }

    fn neg(self) -> (r: Fixed) {
        Fixed { raw: saturate(-(self.raw as i128)) }
    }

    fn sqrt(self) -> (r: Fixed) {
        if self.raw <= 0 {
            Fixed { raw: 0 }
        } else {
            let v: u128 = self.raw as u128 * 65536;
            Fixed { raw: square_root(v) as i64 }
        }
    }

    fn abs(self) -> (r: Fixed) {
        let a = self.raw as i128;
        Fixed { raw: saturate(if a < 0 { -a } else { a }) }
    }

    fn max(self, rhs: Fixed) -> (r: Fixed) {
        if self.raw < rhs.raw {
            rhs
        } else {
            self
        }
    }

    fn min(self, rhs: Fixed) -> (r: Fixed) {
        if rhs.raw < self.raw {
            rhs
        } else {
            self
        }
    }

    fn lt(self, rhs: Fixed) -> (r: bool) {
        self.raw < rhs.raw
    }

    fn le(self, rhs: Fixed) -> (r: bool) {
        self.raw <= rhs.raw
    }

    fn eq(self, rhs: Fixed) -> (r: bool) {
        self.raw == rhs.raw
    }

    fn round(self) -> (r: i32) {
        let a = self.raw as i128;
        let q = if a < 0 {
            -((-a + 32768) / 65536)
        } else {
            (a + 32768) / 65536
        };
        saturate32(q)
    }

    fn floor(self) -> (r: i32) {
        saturate32(floor_div(self.raw as i128, 65536))
    }

    fn ceil(self) -> (r: i32) {
        saturate32(floor_div(self.raw as i128 + 65535, 65536))
    }

    fn tan(self) -> (r: Fixed) {
        let x2 = self.mul(self);
        self.mul(Fixed::from_u32(15).sub(x2)).div(
            Fixed::from_u32(15).sub(Fixed::from_u32(6).mul(x2)),
        )
    }

    fn to_radians(self) -> (r: Fixed) {
        self.mul(Fixed { raw: 1144 })
    }

    fn to_degrees(self) -> (r: Fixed) {
        self.mul(Fixed { raw: 3754936 })
    }

    fn asin(self) -> (r: Fixed) {
        if self.raw < 0 {
            Fixed::asin_of_positive(self.neg().min(Fixed::one())).neg()
        } else {
            Fixed::asin_of_positive(self.min(Fixed::one()))
        }
    }

    fn atan2(self, x: Fixed) -> (r: Fixed) {
        let ay = self.abs();
        let ax = x.abs();
        if ay.raw == 0 && ax.raw == 0 {
            Fixed { raw: 0 }
        } else {
            let first = if ax.raw < ay.raw {
                Fixed { raw: 102944 }.sub(Fixed::slope_to_angle(ax.div(ay)))
            } else {
                Fixed::slope_to_angle(ay.div(ax))
            };
            let upper = if x.raw < 0 {
                Fixed::pi().sub(first)
            } else {
                first
            };
            if self.raw < 0 {
                upper.neg()
            } else {
                upper
            }
        }
    }

    fn sin(self) -> (r: Fixed) {
        let whole = Fixed { raw: 411775 };
        let left = self.rem(whole);
        let angle = if left.raw < 0 {
            left.add(whole)
        } else {
            left
        };
        if angle.raw > 205887 {
            Fixed::sin_of_arc(angle.sub(Fixed::pi())).neg()
        } else {
            Fixed::sin_of_arc(angle)
        }
    }

    fn cos(self) -> (r: Fixed) {
        self.add(Fixed { raw: 102944 }).sin()
    }

    fn acos(self) -> (r: Fixed) {
        Fixed { raw: 102944 }.sub(self.asin())
    }

    fn cbrt(self) -> (r: Fixed) {
        if self.raw <= 0 {
            Fixed { raw: 0 }
        } else {
            let v: u128 = self.raw as u128 * 4294967296;
            Fixed { raw: cube_root(v) as i64 }
        }
    }
}

/// On fixed-point numbers adding to 0 and multiplying with 1 change nothing.
pub proof fn lemma_units_are_neutral(x: Fixed)
    ensures
        Fixed::nil().sum(x) == x,
        x.sum(Fixed::nil()) == x,
        x.product(Fixed::unit()) == x,
        Fixed::unit().product(x) == x,
{
    assert((x.raw * 65536) / 65536 == x.raw) by (nonlinear_arith);
    assert((65536 * x.raw) / 65536 == x.raw) by (nonlinear_arith);
}

/// Fixed-point numbers are in a strict total order.
pub proof fn lemma_order_is_total(a: Fixed, b: Fixed, c: Fixed)
    ensures
        !a.below(a),
        a.below(b) && b.below(c) ==> a.below(c),
        a.below(b) || b.below(a) || a == b,
        a.at_most(b) <==> !b.below(a),
        a.same(b) <==> a == b,
{
}

} // verus!
