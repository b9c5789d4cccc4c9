//! Vectors of three fixed-point coordinates.

use crate::fixed::{
    floor_div, floor_sqrt, isqrt, lemma_product_bounds, sat, saturate, Fixed, SCALE,
};
use crate::geometry::{is_near_unit, lemma_normalized_length};
use core::ops::Neg;
use vstd::prelude::*;

verus! {

/// A vector, or a point, in space.
#[derive(Clone, Copy, Debug, PartialEq, Eq, Structural)]
pub struct Vox {
    pub x: Fixed,
    pub y: Fixed,
    pub z: Fixed,
}

/// If a square is below the square of `l + 1`, its root is at most `l`.
proof fn lemma_root_below(x: int, l: int)
    by (nonlinear_arith)
    requires
        0 <= l,
        x * x < (l + 1) * (l + 1),
    ensures
        -l <= x <= l,
{
}

/// A coordinate no longer than `l`, scaled to the unit, stays within the unit.
proof fn lemma_unit_component(x: int, l: int)
    by (nonlinear_arith)
    requires
        0 < l,
        -l <= x <= l,
    ensures
        -0x1_0000_0000 <= (x * 0x1_0000_0000) / l <= 0x1_0000_0000,
{
}

/// The sum of three products of raw values, as a fixed-point number: the
/// exact sum is divided by the scale and rounded down once.
pub open spec fn scaled(sum: int) -> Fixed {
    Fixed { raw: sat(sum / (SCALE as int)) as i64 }
}

/// The quotient and the remainder of a product by the scale.
fn split(p: i128) -> (qr: (i128, i128))
    requires
        -0x4000_0000_0000_0000_0000_0000_0000_0000 <= p
            <= 0x4000_0000_0000_0000_0000_0000_0000_0000,
    ensures
        qr.0 == p / 0x1_0000_0000,
        qr.1 == p % 0x1_0000_0000,
{
    let q: i128 = floor_div(p, SCALE as i128);
    (q, p - q * (SCALE as i128))
}

/// Computes [`scaled`] of a sum that may not fit in any machine integer.
fn scaled_sum(first: i128, second: i128, third: i128) -> (r: Fixed)
    requires
        -0x4000_0000_0000_0000_0000_0000_0000_0000 <= first
            <= 0x4000_0000_0000_0000_0000_0000_0000_0000,
        -0x4000_0000_0000_0000_0000_0000_0000_0000 <= second
            <= 0x4000_0000_0000_0000_0000_0000_0000_0000,
        -0x4000_0000_0000_0000_0000_0000_0000_0000 <= third
            <= 0x4000_0000_0000_0000_0000_0000_0000_0000,
    ensures
        r == scaled(first + second + third),
{
    let (q1, r1) = split(first);
    let (q2, r2) = split(second);
    let (q3, r3) = split(third);
    let carry: i128 = (r1 + r2 + r3) / (SCALE as i128);
    Fixed { raw: saturate(q1 + q2 + q3 + carry) }
}

impl core::ops::Add for Vox {
    type Output = Vox;

    /// The sum, coordinate by coordinate.
    fn add(self, other: Vox) -> (r: Vox) {
        Vox { x: self.x + other.x, y: self.y + other.y, z: self.z + other.z }
    }
}

impl vstd::std_specs::ops::AddSpecImpl for Vox {
    open spec fn obeys_add_spec() -> bool {
        true
    }

    open spec fn add_req(self, other: Vox) -> bool {
        true
    }

    open spec fn add_spec(self, other: Vox) -> Vox {
        self.plus(other)
    }
}

impl core::ops::Sub for Vox {
    type Output = Vox;

    /// The difference, coordinate by coordinate.
    fn sub(self, other: Vox) -> (r: Vox) {
        Vox { x: self.x - other.x, y: self.y - other.y, z: self.z - other.z }
    }
}

impl vstd::std_specs::ops::SubSpecImpl for Vox {
    open spec fn obeys_sub_spec() -> bool {
        true
    }

    open spec fn sub_req(self, other: Vox) -> bool {
        true
    }

    open spec fn sub_spec(self, other: Vox) -> Vox {
        self.minus(other)
    }
}

impl core::ops::Neg for Vox {
    type Output = Vox;

    /// The opposite vector.
    fn neg(self) -> (r: Vox) {
        Vox { x: self.x.neg(), y: self.y.neg(), z: self.z.neg() }
    }
}

impl vstd::std_specs::ops::NegSpecImpl for Vox {
    open spec fn obeys_neg_spec() -> bool {
        true
    }

    open spec fn neg_req(self) -> bool {
        true
    }

    open spec fn neg_spec(self) -> Vox {
        self.negated()
    }
}

/// `a * b - c * d` over raw values, rounded once to a fixed-point number.
pub open spec fn det2(a: Fixed, b: Fixed, c: Fixed, d: Fixed) -> Fixed {
    scaled(a.raw * b.raw - c.raw * d.raw)
}

fn cross_term(a: Fixed, b: Fixed, c: Fixed, d: Fixed) -> (r: Fixed)
    ensures
        r == det2(a, b, c, d),
{
    proof {
        lemma_product_bounds(a.raw as int, b.raw as int);
        lemma_product_bounds(c.raw as int, d.raw as int);
    }
    let ab: i128 = (a.raw as i128) * (b.raw as i128);
    let cd: i128 = (c.raw as i128) * (d.raw as i128);
    scaled_sum(ab, -cd, 0)
}

impl Vox {
    /// The opposite vector.
    pub open spec fn negated(self) -> Vox {
        Vox { x: self.x.negated(), y: self.y.negated(), z: self.z.negated() }
    }

    /// The sum, coordinate by coordinate.
    pub open spec fn plus(self, other: Vox) -> Vox {
        Vox { x: self.x.plus(other.x), y: self.y.plus(other.y), z: self.z.plus(other.z) }
    }

    /// The difference, coordinate by coordinate.
    pub open spec fn minus(self, other: Vox) -> Vox {
        Vox { x: self.x.minus(other.x), y: self.y.minus(other.y), z: self.z.minus(other.z) }
    }

    pub open spec fn spec_orig() -> Vox {
        Vox { x: Fixed::zero(), y: Fixed::zero(), z: Fixed::zero() }
    }

    /// The origin, `(0, 0, 0)`.
    #[verifier::when_used_as_spec(spec_orig)]
    pub fn orig() -> (r: Vox)
        ensures
            r == Vox::spec_orig(),
    {
        Vox { x: Fixed::zero(), y: Fixed::zero(), z: Fixed::zero() }
    }

    pub open spec fn spec_new(v: (Fixed, Fixed, Fixed)) -> Vox {
        Vox { x: v.0, y: v.1, z: v.2 }
    }

    /// The vector with the given coordinates.
    #[verifier::when_used_as_spec(spec_new)]
    pub fn new(v: (Fixed, Fixed, Fixed)) -> (r: Vox)
        ensures
            r == Vox::spec_new(v),
    {
        Vox { x: v.0, y: v.1, z: v.2 }
    }

    /// The sum of the squares of the raw coordinates.
    pub open spec fn norm_squared(&self) -> int {
        self.x.raw * self.x.raw + self.y.raw * self.y.raw + self.z.raw * self.z.raw
    }

    /// The sum of the products of the raw coordinates.
    pub open spec fn raw_dot(&self, other: &Vox) -> int {
        self.x.raw * other.x.raw + self.y.raw * other.y.raw + self.z.raw * other.z.raw
    }

    fn raw_norm_squared(&self) -> (n: u128)
        ensures
            n == self.norm_squared(),
    {
        proof {
            lemma_product_bounds(self.x.raw as int, self.x.raw as int);
            lemma_product_bounds(self.y.raw as int, self.y.raw as int);
            lemma_product_bounds(self.z.raw as int, self.z.raw as int);
            assert(self.x.raw * self.x.raw >= 0) by (nonlinear_arith);
            assert(self.y.raw * self.y.raw >= 0) by (nonlinear_arith);
            assert(self.z.raw * self.z.raw >= 0) by (nonlinear_arith);
        }
        let xx: i128 = (self.x.raw as i128) * (self.x.raw as i128);
        let yy: i128 = (self.y.raw as i128) * (self.y.raw as i128);
        let zz: i128 = (self.z.raw as i128) * (self.z.raw as i128);
        (xx as u128) + (yy as u128) + (zz as u128)
    }

    pub open spec fn spec_l2(&self) -> Fixed {
        Fixed { raw: sat(isqrt(self.norm_squared())) as i64 }
    }

    /// The Euclidean length: the integer square root of the sum of the
    /// squared raw coordinates, held to the range of the type.
    #[verifier::when_used_as_spec(spec_l2)]
    pub fn l2(&self) -> (r: Fixed)
        ensures
            r == self.spec_l2(),
            r.raw >= 0,
    {
        let root: u64 = floor_sqrt(self.raw_norm_squared());
        if root > 0x7fff_ffff_ffff_ffff {
            Fixed { raw: i64::MAX }
        } else {
            Fixed { raw: root as i64 }
        }
    }

    pub open spec fn spec_dot(&self, other: &Vox) -> Fixed {
        scaled(self.raw_dot(other))
    }

    /// The dot product: the three raw products are added exactly and the
    /// sum is rounded once.
    #[verifier::when_used_as_spec(spec_dot)]
    pub fn dot(&self, other: &Vox) -> (r: Fixed)
        ensures
            r == self.spec_dot(other),
    {
        proof {
            lemma_product_bounds(self.x.raw as int, other.x.raw as int);
            lemma_product_bounds(self.y.raw as int, other.y.raw as int);
            lemma_product_bounds(self.z.raw as int, other.z.raw as int);
        }
        let xx: i128 = (self.x.raw as i128) * (other.x.raw as i128);
        let yy: i128 = (self.y.raw as i128) * (other.y.raw as i128);
        let zz: i128 = (self.z.raw as i128) * (other.z.raw as i128);
        scaled_sum(xx, yy, zz)
    }

    pub open spec fn spec_normalized(&self) -> Vox {
        let len = isqrt(self.norm_squared());
        if len == 0 {
            *self
        } else {
            Vox {
                x: Fixed { raw: ((self.x.raw * SCALE) / len) as i64 },
                y: Fixed { raw: ((self.y.raw * SCALE) / len) as i64 },
                z: Fixed { raw: ((self.z.raw * SCALE) / len) as i64 },
            }
        }
    }

    /// The vector scaled to unit length: each coordinate is divided by the
    /// unsaturated length. The zero vector, which has no direction, is
    /// returned as it is. A vector of length one is returned as it is, too;
    /// and of a vector at least half a unit long the result has length one,
    /// give or take a few units of the last place.
    #[verifier::when_used_as_spec(spec_normalized)]
    pub fn normalized(&self) -> (r: Vox)
        ensures
            r == self.spec_normalized(),
            -SCALE <= r.x.raw <= SCALE,
            -SCALE <= r.y.raw <= SCALE,
            -SCALE <= r.z.raw <= SCALE,
            self.l2() == Fixed::one() ==> r == *self,
            self.l2().raw >= SCALE / 2 ==> is_near_unit(r),
    {
        proof {
            if self.l2() == Fixed::one() {
                lemma_unit_vector_normalized(*self);
            }
            if self.l2().raw >= SCALE / 2 {
                lemma_normalized_length(*self);
            }
        }
        let len: u64 = floor_sqrt(self.raw_norm_squared());
        proof {
            assert(self.x.raw * self.x.raw >= 0) by (nonlinear_arith);
            assert(self.y.raw * self.y.raw >= 0) by (nonlinear_arith);
            assert(self.z.raw * self.z.raw >= 0) by (nonlinear_arith);
        }
        if len == 0 {
            proof {
                lemma_root_below(self.x.raw as int, 0);
                lemma_root_below(self.y.raw as int, 0);
                lemma_root_below(self.z.raw as int, 0);
            }
            *self
        } else {
            proof {
                lemma_root_below(self.x.raw as int, len as int);
                lemma_root_below(self.y.raw as int, len as int);
                lemma_root_below(self.z.raw as int, len as int);
                lemma_unit_component(self.x.raw as int, len as int);
                lemma_unit_component(self.y.raw as int, len as int);
                lemma_unit_component(self.z.raw as int, len as int);
            }
            let d: i128 = len as i128;
            let s: i128 = SCALE as i128;
            Vox {
                x: Fixed { raw: floor_div((self.x.raw as i128) * s, d) as i64 },
                y: Fixed { raw: floor_div((self.y.raw as i128) * s, d) as i64 },
                z: Fixed { raw: floor_div((self.z.raw as i128) * s, d) as i64 },
            }
        }
    }

    pub open spec fn spec_walk_dir(&self, v: Fixed) -> Vox {
        Vox { x: self.x.times(v), y: self.y.times(v), z: self.z.times(v) }
    }

    /// The vector stretched by the factor `v`.
    #[verifier::when_used_as_spec(spec_walk_dir)]
    pub fn walk_dir(&self, v: Fixed) -> (r: Vox)
        ensures
            r == self.spec_walk_dir(v),
    {
        Vox { x: self.x * v, y: self.y * v, z: self.z * v }
    }

    pub open spec fn spec_project_on(&self, other: &Vox) -> Vox {
        let unit = other.normalized();
        unit.walk_dir(self.dot(&unit))
    }

    /// The projection onto the direction of `other`: that direction
    /// normalized, stretched by its dot product with this vector.
    #[verifier::when_used_as_spec(spec_project_on)]
    pub fn project_on(&self, other: &Vox) -> (r: Vox)
        ensures
            r == self.spec_project_on(other),
    {
        let unit = other.normalized();
        unit.walk_dir(self.dot(&unit))
    }

    pub open spec fn spec_cross(&self, other: &Vox) -> Vox {
        Vox {
            x: det2(self.y, other.z, self.z, other.y),
            y: det2(self.z, other.x, self.x, other.z),
            z: det2(self.x, other.y, self.y, other.x),
        }
    }

    /// The cross product; each coordinate is rounded once.
    #[verifier::when_used_as_spec(spec_cross)]
    pub fn cross(&self, other: &Vox) -> (r: Vox)
        ensures
            r == self.spec_cross(other),
    {
        Vox {
            x: cross_term(self.y, other.z, self.z, other.y),
            y: cross_term(self.z, other.x, self.x, other.z),
            z: cross_term(self.x, other.y, self.y, other.x),
        }
    }

    pub open spec fn spec_reflect(&self, normal: Vox) -> Vox {
        let along = self.dot(&normal);
        self.minus(normal.walk_dir(along.plus(along)))
    }

    /// The mirror image of this direction about a surface with the given
    /// normal: `d - 2 (d . n) n`.
    #[verifier::when_used_as_spec(spec_reflect)]
    pub fn reflect(&self, normal: Vox) -> (r: Vox)
        ensures
            r == self.spec_reflect(normal),
    {
        let along = self.dot(&normal);
        *self - normal.walk_dir(along + along)
    }

    pub open spec fn spec_refract(&self, normal: Vox, index: Fixed) -> Vox {
        let one = Fixed::one();
        let c = self.dot(&normal).max(one.negated()).min(one);
        let inside = c.raw > 0;
        let n = if inside { normal.negated() } else { normal };
        let cosi = if inside { c } else { c.negated() };
        let eta = if inside { index } else { one.over(index) };
        let k = one.minus(eta.times(eta).times(one.minus(cosi.times(cosi))));
        if k.raw < 0 {
            self.reflect(normal)
        } else {
            self.walk_dir(eta).plus(n.walk_dir(eta.times(cosi).minus(k.sqrt())))
        }
    }

    /// The direction of this ray after it crosses a surface with the given
    /// normal into (or, when it runs along the normal, out of) a medium with
    /// the given refractive index, by Snell's law: with `c` the cosine of the
    /// angle of incidence and `eta` the ratio of the indices,
    /// `eta d + (eta c - sqrt(k)) n` where `k = 1 - eta^2 (1 - c^2)`.
    /// Where `k` is negative no ray passes, and the result is the reflection.
    #[verifier::when_used_as_spec(spec_refract)]
    pub fn refract(&self, normal: Vox, index: Fixed) -> (r: Vox)
        ensures
            r == self.spec_refract(normal, index),
    {
        let one = Fixed::one();
        let c = self.dot(&normal).max(one.neg()).min(one);
        let inside = c.raw > 0;
        let n = if inside { normal.neg() } else { normal };
        let cosi = if inside { c } else { c.neg() };
        let eta = if inside { index } else { one / index };
        let k = one - eta * eta * (one - cosi * cosi);
        if k.raw < 0 {
            self.reflect(normal)
        } else {
            self.walk_dir(eta) + n.walk_dir(eta * cosi - k.sqrt())
        }
    }
}

/// A vector of length exactly one is its own normalization, so normalizing it
/// leaves its length at one.
pub proof fn lemma_unit_vector_normalized(v: Vox)
    requires
        v.l2() == Fixed::one(),
    ensures
        v.normalized() == v,
        v.normalized().l2() == Fixed::one(),
{
    let len = isqrt(v.norm_squared());
    assert(len == SCALE);
    assert((v.x.raw * SCALE) / (SCALE as int) == v.x.raw);
    assert((v.y.raw * SCALE) / (SCALE as int) == v.y.raw);
    assert((v.z.raw * SCALE) / (SCALE as int) == v.z.raw);
}

} // verus!
