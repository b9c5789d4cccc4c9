//! Signed fixed-point numbers with thirty-two fractional bits.
//!
//! A [`Fixed`] stores the integer `raw` and stands for the rational number
//! `raw / 2^32`. Every operation is total: a result that leaves the range of
//! an `i64` is replaced by the nearest bound, and a quotient or product that
//! is not a multiple of `2^-32` is rounded down.

use core::ops::Neg;
use vstd::arithmetic::div_mod::{lemma_fundamental_div_mod, lemma_fundamental_div_mod_converse};
use vstd::prelude::*;

verus! {

/// The raw value of the number one: `2^32`.
pub const SCALE: i64 = 0x1_0000_0000;

/// The nearest value to `x` that an `i64` can hold.
pub open spec fn sat(x: int) -> int {
    if x < -0x8000_0000_0000_0000 {
        -0x8000_0000_0000_0000
    } else if x > 0x7fff_ffff_ffff_ffff {
        0x7fff_ffff_ffff_ffff
    } else {
        x
    }
}

/// The quotient of `n` by a non-zero `d` of either sign, rounded down.
pub open spec fn fdiv(n: int, d: int) -> int
    recommends
        d != 0,
{
    if d > 0 {
        n / d
    } else {
        (-n) / (-d)
    }
}

/// `r` is the largest natural number whose square does not exceed `n`.
pub open spec fn is_floor_sqrt(n: int, r: int) -> bool {
    0 <= r && r * r <= n < (r + 1) * (r + 1)
}

/// The integer square root of `n`: the `r` with `r * r <= n < (r + 1) * (r + 1)`.
/// It is meaningful for `n >= 0` only.
pub open spec fn isqrt(n: int) -> int {
    choose|r: int| is_floor_sqrt(n, r)
}

/// At most one number is the floor of the square root of `n`.
pub proof fn lemma_floor_sqrt_unique(n: int, r: int, s: int)
    requires
        is_floor_sqrt(n, r),
        is_floor_sqrt(n, s),
    ensures
        r == s,
{
    assert(r == s) by (nonlinear_arith)
        requires
            0 <= r,
            0 <= s,
            r * r <= n < (r + 1) * (r + 1),
            s * s <= n < (s + 1) * (s + 1),
    {
        if r < s {
            assert((r + 1) * (r + 1) <= s * s);
        } else if s < r {
            assert((s + 1) * (s + 1) <= r * r);
        }
    }
}

/// Every natural number has an integer square root, and `isqrt` names it.
pub proof fn lemma_isqrt(n: int)
    requires
        n >= 0,
    ensures
        is_floor_sqrt(n, isqrt(n)),
    decreases n,
{
    if n == 0 {
        assert(is_floor_sqrt(0, 0));
    } else {
        lemma_isqrt(n - 1);
        let r = isqrt(n - 1);
        if (r + 1) * (r + 1) <= n {
            assert(is_floor_sqrt(n, r + 1)) by (nonlinear_arith)
                requires
                    0 <= r,
                    n - 1 < (r + 1) * (r + 1),
                    (r + 1) * (r + 1) <= n,
            ;
        } else {
            assert(is_floor_sqrt(n, r));
        }
    }
}

/// Whatever satisfies the defining inequalities is the integer square root.
pub proof fn lemma_isqrt_is(n: int, r: int)
    requires
        is_floor_sqrt(n, r),
    ensures
        isqrt(n) == r,
{
    lemma_floor_sqrt_unique(n, r, isqrt(n));
}

/// The integer square root of a square is its root.
pub proof fn lemma_isqrt_square(r: int)
    requires
        r >= 0,
    ensures
        isqrt(r * r) == r,
{
    assert(is_floor_sqrt(r * r, r)) by (nonlinear_arith)
        requires
            r >= 0,
    ;
    lemma_isqrt_is(r * r, r);
}

/// The integer square root of `n`, found by bisection.
pub fn floor_sqrt(n: u128) -> (r: u64)
    ensures
        r == isqrt(n as int),
        is_floor_sqrt(n as int, r as int),
{
    let mut lo: u128 = 0;
    let mut hi: u128 = 0x1_0000_0000_0000_0000;
    assert(n < 0x1_0000_0000_0000_0000 * 0x1_0000_0000_0000_0000);
    while hi - lo > 1
        invariant
            lo < hi <= 0x1_0000_0000_0000_0000,
            lo * lo <= n < hi * hi,
        decreases hi - lo,
    {
        let mid: u128 = lo + (hi - lo) / 2;
        assert(mid * mid <= 0xffff_ffff_ffff_ffff * 0xffff_ffff_ffff_ffff) by (nonlinear_arith)
            requires
                mid <= 0xffff_ffff_ffff_ffff,
        ;
        if mid * mid <= n {
            lo = mid;
        } else {
            hi = mid;
        }
    }
    proof {
        assert(hi == lo + 1);
        lemma_isqrt_is(n as int, lo as int);
    }
    lo as u64
}

pub(crate) fn saturate(x: i128) -> (r: i64)
    ensures
        r == sat(x as int),
{
    if x < -0x8000_0000_0000_0000 {
        -0x8000_0000_0000_0000
    } else if x > 0x7fff_ffff_ffff_ffff {
        0x7fff_ffff_ffff_ffff
    } else {
        x as i64
    }
}

/// The quotient of `a` by a positive `b`, rounded down.
pub(crate) fn floor_div(a: i128, b: i128) -> (q: i128)
    requires
        b > 0,
        a > i128::MIN,
    ensures
        q == a as int / b as int,
{
    if a >= 0 {
        a / b
    } else {
        let n: i128 = -a;
        let q0: i128 = n / b;
        let r0: i128 = n % b;
        proof {
            lemma_fundamental_div_mod(n as int, b as int);
            if r0 == 0 {
                assert(a as int == (-q0) * b + 0) by (nonlinear_arith)
                    requires
                        n == b * q0 + r0,
                        r0 == 0,
                        a == -n,
                ;
                lemma_fundamental_div_mod_converse(a as int, b as int, -(q0 as int), 0);
            } else {
                assert(a as int == (-q0 - 1) * b + (b - r0)) by (nonlinear_arith)
                    requires
                        n == b * q0 + r0,
                        a == -n,
                ;
                lemma_fundamental_div_mod_converse(
                    a as int,
                    b as int,
                    -(q0 as int) - 1,
                    b - r0,
                );
            }
        }
        if r0 == 0 {
            -q0
        } else {
            -q0 - 1
        }
    }
}

/// The product of two `i64` values fits in an `i128` with room to spare.
pub proof fn lemma_product_bounds(a: int, b: int)
    by (nonlinear_arith)
    requires
        -0x8000_0000_0000_0000 <= a <= 0x7fff_ffff_ffff_ffff,
        -0x8000_0000_0000_0000 <= b <= 0x7fff_ffff_ffff_ffff,
    ensures
        -0x4000_0000_0000_0000_0000_0000_0000_0000 <= a * b
            <= 0x4000_0000_0000_0000_0000_0000_0000_0000,
{
}

/// A fixed-point number: `raw / 2^32`.
#[derive(Clone, Copy, Debug, PartialEq, Eq, Structural)]
pub struct Fixed {
    pub raw: i64,
}

impl core::ops::Add for Fixed {
    type Output = Fixed;

    /// The sum, held to the range of the type.
    fn add(self, rhs: Fixed) -> (r: Fixed) {
        Fixed { raw: saturate(self.raw as i128 + rhs.raw as i128) }
    }
}

impl vstd::std_specs::ops::AddSpecImpl for Fixed {
    open spec fn obeys_add_spec() -> bool {
        true
    }

    open spec fn add_req(self, rhs: Fixed) -> bool {
        true
    }

    open spec fn add_spec(self, rhs: Fixed) -> Fixed {
        self.plus(rhs)
    }
}

impl core::ops::Sub for Fixed {
    type Output = Fixed;

    /// The difference, held to the range of the type.
    fn sub(self, rhs: Fixed) -> (r: Fixed) {
        Fixed { raw: saturate(self.raw as i128 - rhs.raw as i128) }
    }
}

impl vstd::std_specs::ops::SubSpecImpl for Fixed {
    open spec fn obeys_sub_spec() -> bool {
        true
    }

    open spec fn sub_req(self, rhs: Fixed) -> bool {
        true
    }

    open spec fn sub_spec(self, rhs: Fixed) -> Fixed {
        self.minus(rhs)
    }
}

impl core::ops::Neg for Fixed {
    type Output = Fixed;

    /// The negation; the least value has none and gives the greatest.
    fn neg(self) -> (r: Fixed) {
        Fixed { raw: saturate(-(self.raw as i128)) }
    }
}

impl vstd::std_specs::ops::NegSpecImpl for Fixed {
    open spec fn obeys_neg_spec() -> bool {
        true
    }

    open spec fn neg_req(self) -> bool {
        true
    }

    open spec fn neg_spec(self) -> Fixed {
        self.negated()
    }
}

impl core::ops::Mul for Fixed {
    type Output = Fixed;

    /// The product, rounded down and held to the range of the type.
    fn mul(self, rhs: Fixed) -> (r: Fixed) {
        proof {
            lemma_product_bounds(self.raw as int, rhs.raw as int);
        }
        let p: i128 = (self.raw as i128) * (rhs.raw as i128);
        Fixed { raw: saturate(floor_div(p, SCALE as i128)) }
    }
}

impl vstd::std_specs::ops::MulSpecImpl for Fixed {
    open spec fn obeys_mul_spec() -> bool {
        true
    }

    open spec fn mul_req(self, rhs: Fixed) -> bool {
        true
    }

    open spec fn mul_spec(self, rhs: Fixed) -> Fixed {
        self.times(rhs)
    }
}

impl core::ops::Div for Fixed {
    type Output = Fixed;

    /// The quotient, rounded down and held to the range of the type.
    /// Division by zero gives the bound on the dividend's side, and zero for
    /// a zero dividend.
    fn div(self, rhs: Fixed) -> (r: Fixed) {
        let n: i128 = (self.raw as i128) * (SCALE as i128);
        if rhs.raw == 0 {
            if self.raw > 0 {
                Fixed { raw: i64::MAX }
            } else if self.raw < 0 {
                Fixed { raw: i64::MIN }
            } else {
                Fixed { raw: 0 }
            }
        } else if rhs.raw > 0 {
            Fixed { raw: saturate(floor_div(n, rhs.raw as i128)) }
        } else {
            Fixed { raw: saturate(floor_div(-n, -(rhs.raw as i128))) }
        }
    }
}

impl vstd::std_specs::ops::DivSpecImpl for Fixed {
    open spec fn obeys_div_spec() -> bool {
        true
    }

    open spec fn div_req(self, rhs: Fixed) -> bool {
        true
    }

    open spec fn div_spec(self, rhs: Fixed) -> Fixed {
        self.over(rhs)
    }
}

impl Fixed {
    /// The sum, held to the range of the type.
    pub open spec fn plus(self, rhs: Fixed) -> Fixed {
        Fixed { raw: sat(self.raw + rhs.raw) as i64 }
    }

    /// The difference, held to the range of the type.
    pub open spec fn minus(self, rhs: Fixed) -> Fixed {
        Fixed { raw: sat(self.raw - rhs.raw) as i64 }
    }

    /// The negation, held to the range of the type.
    pub open spec fn negated(self) -> Fixed {
        Fixed { raw: sat(-self.raw) as i64 }
    }

    /// The product, rounded down and held to the range of the type.
    pub open spec fn times(self, rhs: Fixed) -> Fixed {
        Fixed { raw: sat((self.raw * rhs.raw) / (SCALE as int)) as i64 }
    }

    /// The quotient, rounded down and held to the range of the type; by
    /// zero, the bound on the dividend's side, and zero for zero.
    pub open spec fn over(self, rhs: Fixed) -> Fixed {
        if rhs.raw == 0 {
            if self.raw > 0 {
                Fixed { raw: i64::MAX }
            } else if self.raw < 0 {
                Fixed { raw: i64::MIN }
            } else {
                Fixed { raw: 0 }
            }
        } else {
            Fixed { raw: sat(fdiv(self.raw * SCALE, rhs.raw as int)) as i64 }
        }
    }

    pub open spec fn spec_zero() -> Fixed {
        Fixed { raw: 0 }
    }

    /// The number zero.
    #[verifier::when_used_as_spec(spec_zero)]
    pub fn zero() -> (r: Fixed)
        ensures
            r == Fixed::spec_zero(),
    {
        Fixed { raw: 0 }
    }

    pub open spec fn spec_one() -> Fixed {
        Fixed { raw: SCALE }
    }

    /// The number one.
    #[verifier::when_used_as_spec(spec_one)]
    pub fn one() -> (r: Fixed)
        ensures
            r == Fixed::spec_one(),
    {
        Fixed { raw: SCALE }
    }

    pub open spec fn spec_max_value() -> Fixed {
        Fixed { raw: i64::MAX }
    }

    /// The greatest number of the type, a little under `2^31`.
    #[verifier::when_used_as_spec(spec_max_value)]
    pub fn max_value() -> (r: Fixed)
        ensures
            r == Fixed::spec_max_value(),
    {
        Fixed { raw: i64::MAX }
    }

    pub open spec fn spec_from_raw(raw: i64) -> Fixed {
        Fixed { raw }
    }

    /// The number `raw / 2^32`.
    #[verifier::when_used_as_spec(spec_from_raw)]
    pub fn from_raw(raw: i64) -> (r: Fixed)
        ensures
            r == Fixed::spec_from_raw(raw),
    {
        Fixed { raw }
    }

    pub open spec fn spec_from_int(n: i32) -> Fixed {
        Fixed { raw: (n * SCALE) as i64 }
    }

    /// The whole number `n`.
    #[verifier::when_used_as_spec(spec_from_int)]
    pub fn from_int(n: i32) -> (r: Fixed)
        ensures
            r == Fixed::spec_from_int(n),
            r.raw == n * 0x1_0000_0000,
    {
        Fixed { raw: (n as i64) * SCALE }
    }

    pub open spec fn spec_sqrt(self) -> Fixed {
        if self.raw <= 0 {
            Fixed { raw: 0 }
        } else {
            Fixed { raw: isqrt(self.raw * SCALE) as i64 }
        }
    }

    /// The square root, rounded down; zero for a negative number.
    #[verifier::when_used_as_spec(spec_sqrt)]
    pub fn sqrt(self) -> (r: Fixed)
        ensures
            r == self.spec_sqrt(),
            0 <= r.raw < 0x1_0000_0000_0000,
    {
        if self.raw <= 0 {
            Fixed { raw: 0 }
        } else {
            let n: u128 = (self.raw as u128) * (SCALE as u128);
            let root: u64 = floor_sqrt(n);
            assert(root < 0x1_0000_0000_0000) by (nonlinear_arith)
                requires
                    root * root <= n,
                    n < 0x1_0000_0000_0000 * 0x1_0000_0000_0000,
            ;
            Fixed { raw: root as i64 }
        }
    }

    pub open spec fn spec_leg(self, side: Fixed) -> Fixed {
        let d = self.raw * self.raw - side.raw * side.raw;
        if d <= 0 {
            Fixed { raw: 0 }
        } else {
            Fixed { raw: sat(isqrt(d)) as i64 }
        }
    }

    /// The third side of a right triangle with this hypotenuse and the given
    /// side: the square root of the difference of the squares, taken over
    /// the raw values and rounded down once; zero where the side is not
    /// shorter than the hypotenuse.
    #[verifier::when_used_as_spec(spec_leg)]
    pub fn leg(self, side: Fixed) -> (r: Fixed)
        ensures
            r == self.spec_leg(side),
            r.raw >= 0,
    {
        proof {
            lemma_product_bounds(self.raw as int, self.raw as int);
            lemma_product_bounds(side.raw as int, side.raw as int);
            assert(side.raw * side.raw >= 0) by (nonlinear_arith);
        }
        let hh: i128 = (self.raw as i128) * (self.raw as i128);
        let ss: i128 = (side.raw as i128) * (side.raw as i128);
        if hh <= ss {
            Fixed { raw: 0 }
        } else {
            let root: u64 = floor_sqrt((hh - ss) as u128);
            if root > 0x7fff_ffff_ffff_ffff {
                Fixed { raw: i64::MAX }
            } else {
                Fixed { raw: root as i64 }
            }
        }
    }

    pub open spec fn spec_max(self, other: Fixed) -> Fixed {
        if self.raw >= other.raw {
            self
        } else {
            other
        }
    }

    /// The greater of two numbers.
    #[verifier::when_used_as_spec(spec_max)]
    pub fn max(self, other: Fixed) -> (r: Fixed)
        ensures
            r == self.spec_max(other),
    {
        if self.raw >= other.raw {
            self
        } else {
            other
        }
    }

    pub open spec fn spec_min(self, other: Fixed) -> Fixed {
        if self.raw <= other.raw {
            self
        } else {
            other
        }
    }

    /// The lesser of two numbers.
    #[verifier::when_used_as_spec(spec_min)]
    pub fn min(self, other: Fixed) -> (r: Fixed)
        ensures
            r == self.spec_min(other),
    {
        if self.raw <= other.raw {
            self
        } else {
            other
        }
    }

    pub open spec fn spec_clamp_unit(self) -> Fixed {
        self.spec_max(Fixed::spec_zero()).spec_min(Fixed::spec_one())
    }

    /// The number held to the interval from zero to one: first raised to
    /// zero, then lowered to one.
    #[verifier::when_used_as_spec(spec_clamp_unit)]
    pub fn clamp_unit(self) -> (r: Fixed)
        ensures
            r == self.spec_clamp_unit(),
            0 <= r.raw <= SCALE,
    {
        self.max(Fixed::zero()).min(Fixed::one())
    }

    pub open spec fn spec_copysign(self, sign: Fixed) -> Fixed {
        if (sign.raw < 0) == (self.raw < 0) {
            self
        } else {
            self.negated()
        }
    }

    /// The number with the sign of `sign`, where zero counts as positive.
    #[verifier::when_used_as_spec(spec_copysign)]
    pub fn copysign(self, sign: Fixed) -> (r: Fixed)
        ensures
            r == self.spec_copysign(sign),
    {
        if (sign.raw < 0) == (self.raw < 0) {
            self
        } else {
            self.neg()
        }
    }

    pub open spec fn spec_powi(self, n: u32) -> Fixed
        decreases n,
    {
        if n == 0 {
            Fixed::spec_one()
        } else if n % 2 == 0 {
            let half = self.spec_powi((n / 2) as u32);
            half.times(half)
        } else {
            self.times(self.spec_powi((n - 1) as u32))
        }
    }

    /// The `n`-th power by repeated squaring: the zeroth power is one, an
    /// even power is the square of the half power, and an odd power is the
    /// number times the power below. Each product is rounded on its own.
    #[verifier::when_used_as_spec(spec_powi)]
    pub fn powi(self, n: u32) -> (r: Fixed)
        ensures
            r == self.spec_powi(n),
        decreases n,
    {
        if n == 0 {
            Fixed::one()
        } else if n % 2 == 0 {
            let half = self.powi(n / 2);
            half * half
        } else {
            self * self.powi(n - 1)
        }
    }
}

} // verus!
