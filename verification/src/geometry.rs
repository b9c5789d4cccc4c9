//! What the rounding leaves of the geometry: the length of normalized
//! vectors, and where rays meet spheres and planes.

use crate::blocks::{HitPoint, Plane, Ray, Sphere};
use crate::fixed::{is_floor_sqrt, isqrt, lemma_isqrt, lemma_isqrt_square, Fixed, SCALE};
use crate::voxel::Vox;
use vstd::arithmetic::div_mod::lemma_fundamental_div_mod;
use vstd::prelude::*;

verus! {

/// One of the six vectors of length one along an axis.
pub open spec fn is_axis(d: Vox) -> bool {
    let one = Fixed::one();
    let zero = Fixed::zero();
    ||| d == Vox { x: one, y: zero, z: zero }
    ||| d == Vox { x: one.negated(), y: zero, z: zero }
    ||| d == Vox { x: zero, y: one, z: zero }
    ||| d == Vox { x: zero, y: one.negated(), z: zero }
    ||| d == Vox { x: zero, y: zero, z: one }
    ||| d == Vox { x: zero, y: zero, z: one.negated() }
}

/// A coordinate of a vector along an axis: zero, one or minus one.
pub open spec fn is_axis_coordinate(a: Fixed) -> bool {
    a.raw == 0 || a.raw == SCALE || a.raw == -SCALE
}

/// The product of a coordinate of an axis vector and a number is zero, the
/// number or its opposite.
proof fn lemma_times_axis(a: Fixed, t: Fixed)
    requires
        is_axis_coordinate(a),
        t.raw > i64::MIN,
    ensures
        a.raw == 0 ==> a.times(t).raw == 0 && a.raw * t.raw == 0 && t.raw * a.raw == 0,
        a.raw == SCALE ==> a.times(t).raw == t.raw && a.raw * t.raw == 0x1_0000_0000 * t.raw
            && t.raw * a.raw == 0x1_0000_0000 * t.raw,
        a.raw == -SCALE ==> a.times(t).raw == -t.raw && a.raw * t.raw == -0x1_0000_0000 * t.raw
            && t.raw * a.raw == -0x1_0000_0000 * t.raw,
{
    let x = t.raw as int;
    let y = a.raw as int;
    assert(y == 0 ==> y * x == 0 && x * y == 0) by (nonlinear_arith);
    assert(y == 0x1_0000_0000 ==> y * x == 0x1_0000_0000 * x && x * y == 0x1_0000_0000 * x)
        by (nonlinear_arith);
    assert(y == -0x1_0000_0000 ==> y * x == -0x1_0000_0000 * x && x * y == -0x1_0000_0000 * x)
        by (nonlinear_arith);
}

/// A ray along an axis, aimed at the centre of a sphere that it starts
/// outside of, meets the sphere at the distance to the centre less the
/// radius.
pub proof fn lemma_axis_ray_at_center(sphere: Sphere, ray: Ray, distance: Fixed)
    requires
        is_axis(ray.direction),
        sphere.center.minus(ray.origin) == ray.direction.walk_dir(distance),
        0 <= sphere.radius.raw < distance.raw,
    ensures
        sphere.spec_ray_intersect(&ray) == HitPoint::Point(
            ray.walk_dir(distance.minus(sphere.radius)),
        ),
        ray.walk_dir(distance.minus(sphere.radius)).minus(ray.origin).l2() == distance.minus(
            sphere.radius,
        ),
{
    let s = SCALE as int;
    let dist = distance.raw as int;
    let r = sphere.radius.raw as int;
    let d = ray.direction;
    let cc = sphere.center.minus(ray.origin);
    lemma_times_axis(d.x, distance);
    lemma_times_axis(d.y, distance);
    lemma_times_axis(d.z, distance);
    lemma_times_axis(d.x, Fixed::one());
    lemma_times_axis(d.y, Fixed::one());
    lemma_times_axis(d.z, Fixed::one());
    assert(d.norm_squared() == s * s) by (nonlinear_arith)
        requires
            is_axis(d),
            s == 0x1_0000_0000,
    ;
    lemma_isqrt_square(s);
    assert(d.normalized() == d);
    lemma_isqrt_square(0);
    lemma_isqrt_square(r);
    lemma_isqrt_square(dist - r);
    lemma_times_axis(d.x, cc.x);
    lemma_times_axis(d.y, cc.y);
    lemma_times_axis(d.z, cc.z);
    assert(cc.raw_dot(&d) == dist * s);
    assert(cc.dot(&d).raw == dist);
    let t = distance.minus(sphere.radius);
    lemma_times_axis(d.x, t);
    lemma_times_axis(d.y, t);
    lemma_times_axis(d.z, t);
    let w = ray.walk_dir(t).minus(ray.origin);
    assert(w == d.walk_dir(t));
    assert(w.norm_squared() == (dist - r) * (dist - r)) by (nonlinear_arith)
        requires
            w.x.raw == 0 || w.y.raw == 0,
            w.x.raw == 0 || w.z.raw == 0,
            w.y.raw == 0 || w.z.raw == 0,
            w.x.raw == 0 || w.x.raw == dist - r || w.x.raw == r - dist,
            w.y.raw == 0 || w.y.raw == dist - r || w.y.raw == r - dist,
            w.z.raw == 0 || w.z.raw == dist - r || w.z.raw == r - dist,
            w.x.raw != 0 || w.y.raw != 0 || w.z.raw != 0,
    ;
}

/// Where the squared distance of a line from a centre is rounded down to
/// `miss`, and half the chord to `half`, the point of the line at `half` from
/// the foot of the perpendicular lies at the radius from the centre, less at
/// most two units.
proof fn lemma_chord_end_on_sphere(px: int, py: int, half: int, radius: int, miss: int)
    requires
        0 <= miss <= radius,
        is_floor_sqrt(px * px + py * py, miss),
        radius * radius - miss * miss > 0 ==> is_floor_sqrt(
            radius * radius - miss * miss,
            half,
        ),
        radius * radius - miss * miss <= 0 ==> half == 0,
    ensures
        radius - 2 <= isqrt(px * px + py * py + half * half) <= radius,
        px * px + py * py + half * half >= 0,
{
    let n = px * px + py * py + half * half;
    assert(n >= 0) by (nonlinear_arith)
        requires
            n == px * px + py * py + half * half,
    ;
    lemma_isqrt(n);
    let root = isqrt(n);
    assert(radius - 2 <= root <= radius) by (nonlinear_arith)
        requires
            0 <= miss <= radius,
            0 <= root,
            root * root <= n < (root + 1) * (root + 1),
            n == px * px + py * py + half * half,
            miss * miss <= px * px + py * py < (miss + 1) * (miss + 1),
            radius * radius - miss * miss > 0 ==> 0 <= half && half * half <= radius * radius
                - miss * miss < (half + 1) * (half + 1),
            radius * radius - miss * miss <= 0 ==> half == 0,
    {
        if radius * radius - miss * miss > 0 {
            assert(half <= radius);
            assert(n < (radius + 1) * (radius + 1));
            assert(n > radius * radius - 2 * radius - 1);
            if root < radius - 2 {
                assert((root + 1) * (root + 1) <= (radius - 2) * (radius - 2));
            }
            if root > radius {
                assert(root * root >= (radius + 1) * (radius + 1));
            }
        } else {
            assert(miss == radius);
            assert(n < (radius + 1) * (radius + 1));
            assert(n >= radius * radius);
            if root < radius {
                assert((root + 1) * (root + 1) <= radius * radius);
            }
            if root > radius {
                assert(root * root >= (radius + 1) * (radius + 1));
            }
        }
    }
}

/// Every coordinate lies within `2^29` of zero, so that no sum or
/// difference of such points leaves the range of the numbers.
pub open spec fn within_reach(v: Vox) -> bool {
    &&& -0x2000_0000_0000_0000 <= v.x.raw <= 0x2000_0000_0000_0000
    &&& -0x2000_0000_0000_0000 <= v.y.raw <= 0x2000_0000_0000_0000
    &&& -0x2000_0000_0000_0000 <= v.z.raw <= 0x2000_0000_0000_0000
}

/// What the projection on an axis leaves of the way to a centre: the way
/// itself, but for the coordinate along the axis, which is nothing; and the
/// distance along the axis is that coordinate, with the sign of the axis.
proof fn lemma_axis_rest(sphere: Sphere, ray: Ray)
    requires
        is_axis(ray.direction),
        within_reach(ray.origin),
        within_reach(sphere.center),
    ensures
        ({
            let d = ray.direction;
            let cc = sphere.to_center(&ray);
            let perp = cc.minus(cc.project_on(&d));
            let along = sphere.along(&ray);
            &&& cc.x.raw == sphere.center.x.raw - ray.origin.x.raw
            &&& cc.y.raw == sphere.center.y.raw - ray.origin.y.raw
            &&& cc.z.raw == sphere.center.z.raw - ray.origin.z.raw
            &&& d.x.raw != 0 ==> perp == Vox { x: Fixed::zero(), y: cc.y, z: cc.z }
            &&& d.y.raw != 0 ==> perp == Vox { x: cc.x, y: Fixed::zero(), z: cc.z }
            &&& d.z.raw != 0 ==> perp == Vox { x: cc.x, y: cc.y, z: Fixed::zero() }
            &&& d.x.raw == SCALE ==> along.raw == cc.x.raw
            &&& d.x.raw == -SCALE ==> along.raw == -cc.x.raw
            &&& d.y.raw == SCALE ==> along.raw == cc.y.raw
            &&& d.y.raw == -SCALE ==> along.raw == -cc.y.raw
            &&& d.z.raw == SCALE ==> along.raw == cc.z.raw
            &&& d.z.raw == -SCALE ==> along.raw == -cc.z.raw
        }),
{
    let s = SCALE as int;
    let d = ray.direction;
    let cc = sphere.to_center(&ray);
    lemma_times_axis(d.x, Fixed::one());
    lemma_times_axis(d.y, Fixed::one());
    lemma_times_axis(d.z, Fixed::one());
    assert(d.norm_squared() == s * s) by (nonlinear_arith)
        requires
            is_axis(d),
            s == 0x1_0000_0000,
    ;
    lemma_isqrt_square(s);
    assert(d.normalized() == d);
    lemma_times_axis(d.x, cc.x);
    lemma_times_axis(d.y, cc.y);
    lemma_times_axis(d.z, cc.z);
    let along = cc.dot(&d);
    lemma_times_axis(d.x, along);
    lemma_times_axis(d.y, along);
    lemma_times_axis(d.z, along);
}

/// Where a ray along an axis meets a sphere, the point lies at the radius
/// from the centre, less at most two units of the last place.
pub proof fn lemma_axis_ray_hit_on_sphere(sphere: Sphere, ray: Ray)
    requires
        is_axis(ray.direction),
        within_reach(ray.origin),
        within_reach(sphere.center),
        0 <= sphere.radius.raw <= 0x2000_0000_0000_0000,
    ensures
        sphere.spec_ray_intersect(&ray) matches HitPoint::Point(p) ==> sphere.radius.raw - 2
            <= p.minus(sphere.center).l2().raw <= sphere.radius.raw,
{
    let r = sphere.radius.raw as int;
    let d = ray.direction;
    let cc = sphere.to_center(&ray);
    lemma_axis_rest(sphere, ray);
    let perp = cc.minus(cc.project_on(&d));
    let px = if d.x.raw != 0 { perp.y.raw as int } else { perp.x.raw as int };
    let py = if d.z.raw != 0 { perp.y.raw as int } else { perp.z.raw as int };
    assert(perp.norm_squared() == px * px + py * py) by (nonlinear_arith)
        requires
            perp.x.raw == 0 || perp.y.raw == 0 || perp.z.raw == 0,
            px == if d.x.raw != 0 { perp.y.raw as int } else { perp.x.raw as int },
            py == if d.z.raw != 0 { perp.y.raw as int } else { perp.z.raw as int },
            d.x.raw != 0 ==> perp.x.raw == 0,
            d.y.raw != 0 ==> perp.y.raw == 0,
            d.z.raw != 0 ==> perp.z.raw == 0,
            d.x.raw != 0 || d.y.raw != 0 || d.z.raw != 0,
            d.x.raw == 0 || d.y.raw == 0,
            d.x.raw == 0 || d.z.raw == 0,
            d.y.raw == 0 || d.z.raw == 0,
    ;
    let n = px * px + py * py;
    assert(0 <= n <= 0x2000_0000_0000_0000_0000_0000_0000_0000) by (nonlinear_arith)
        requires
            n == px * px + py * py,
            -0x4000_0000_0000_0000 <= px <= 0x4000_0000_0000_0000,
            -0x4000_0000_0000_0000 <= py <= 0x4000_0000_0000_0000,
    ;
    lemma_isqrt(n);
    let root = isqrt(n);
    assert(root < 0x6000_0000_0000_0000) by (nonlinear_arith)
        requires
            0 <= root,
            root * root <= n,
            n <= 0x2000_0000_0000_0000_0000_0000_0000_0000,
    ;
    let miss = sphere.miss_distance(&ray);
    assert(miss.raw == root);
    if miss.raw <= r {
        let gap = r * r - root * root;
        if gap > 0 {
            lemma_isqrt(gap);
            assert(isqrt(gap) <= r) by (nonlinear_arith)
                requires
                    0 <= isqrt(gap),
                    isqrt(gap) * isqrt(gap) <= gap,
                    gap <= r * r,
                    0 <= r,
            ;
        }
        let half = sphere.half_chord(&ray);
        assert(0 <= half.raw <= r);
        lemma_chord_end_on_sphere(px, py, half.raw as int, r, root);
        let t = if sphere.near_root(&ray).raw > 0 {
            sphere.near_root(&ray)
        } else {
            sphere.far_root(&ray)
        };
        lemma_times_axis(d.x, t);
        lemma_times_axis(d.y, t);
        lemma_times_axis(d.z, t);
        let q = ray.walk_dir(t).minus(sphere.center);
        let h = half.raw as int;
        assert(q.norm_squared() == px * px + py * py + h * h) by (nonlinear_arith)
            requires
                d.x.raw != 0 ==> q.y.raw == -px && q.z.raw == -py && (q.x.raw == h || q.x.raw
                    == -h),
                d.y.raw != 0 ==> q.x.raw == -px && q.z.raw == -py && (q.y.raw == h || q.y.raw
                    == -h),
                d.z.raw != 0 ==> q.x.raw == -px && q.y.raw == -py && (q.z.raw == h || q.z.raw
                    == -h),
                d.x.raw != 0 || d.y.raw != 0 || d.z.raw != 0,
        ;
    }
}

/// A coordinate is no longer than the vector it belongs to.
proof fn lemma_coordinate_below_length(x: int, y: int, z: int, len: int)
    by (nonlinear_arith)
    requires
        0 <= len,
        x * x + y * y + z * z < (len + 1) * (len + 1),
    ensures
        -len <= x <= len,
{
}

/// The square of a coordinate after division by the length, against the
/// square of the coordinate before it.
proof fn lemma_scaled_coordinate(v: int, d: int, len: int, vv: int, dd: int, ll: int)
    by (nonlinear_arith)
    requires
        0 < len,
        -len <= v <= len,
        d * len <= v * 0x1_0000_0000 < d * len + len,
        vv == v * v,
        dd == d * d,
        ll == len * len,
    ensures
        vv * 0x1_0000_0000_0000_0000 - 0x2_0000_0000 * ll <= dd * ll,
        dd * ll <= vv * 0x1_0000_0000_0000_0000 + 0x2_0000_0000 * ll + ll,
        -0x1_0000_0000 <= d <= 0x1_0000_0000,
{
    let rho = v * 0x1_0000_0000 - d * len;
    assert(0 <= rho < len);
    assert(d * len == v * 0x1_0000_0000 - rho);
    assert(dd * ll == (d * len) * (d * len));
    assert((v * 0x1_0000_0000 - rho) * (v * 0x1_0000_0000 - rho) == vv
        * 0x1_0000_0000_0000_0000 - 0x2_0000_0000 * (v * rho) + rho * rho);
    assert(-ll <= v * rho <= ll);
    assert(0 <= rho * rho <= ll);
}

/// The squared length of a vector divided by its length, rounded down by
/// coordinate, lies between the squares of one less four units and one more
/// seven units.
proof fn lemma_normalized_squared_length(
    vx: int,
    vy: int,
    vz: int,
    dx: int,
    dy: int,
    dz: int,
    len: int,
)
    requires
        0x8000_0000 <= len,
        len * len <= vx * vx + vy * vy + vz * vz < (len + 1) * (len + 1),
        dx * len <= vx * 0x1_0000_0000 < dx * len + len,
        dy * len <= vy * 0x1_0000_0000 < dy * len + len,
        dz * len <= vz * 0x1_0000_0000 < dz * len + len,
    ensures
        (0x1_0000_0000 - 4) * (0x1_0000_0000 - 4) <= dx * dx + dy * dy + dz * dz,
        dx * dx + dy * dy + dz * dz < (0x1_0000_0000 + 7) * (0x1_0000_0000 + 7),
        -0x1_0000_0000 <= dx <= 0x1_0000_0000,
        -0x1_0000_0000 <= dy <= 0x1_0000_0000,
        -0x1_0000_0000 <= dz <= 0x1_0000_0000,
{
    let n = vx * vx + vy * vy + vz * vz;
    let m = dx * dx + dy * dy + dz * dz;
    let ll = len * len;
    assert(ll > 0) by (nonlinear_arith)
        requires
            ll == len * len,
            len > 0,
    ;
    lemma_coordinate_below_length(vx, vy, vz, len);
    lemma_coordinate_below_length(vy, vx, vz, len);
    lemma_coordinate_below_length(vz, vy, vx, len);
    lemma_scaled_coordinate(vx, dx, len, vx * vx, dx * dx, ll);
    lemma_scaled_coordinate(vy, dy, len, vy * vy, dy * dy, ll);
    lemma_scaled_coordinate(vz, dz, len, vz * vz, dz * dz, ll);
    assert(m * ll == (dx * dx) * ll + (dy * dy) * ll + (dz * dz) * ll) by (nonlinear_arith)
        requires
            m == dx * dx + dy * dy + dz * dz,
    ;
    // below: m ll >= 2^64 n - 6 2^32 ll >= (2^64 - 6 2^32) ll
    assert(m * ll >= n * 0x1_0000_0000_0000_0000 - 0x6_0000_0000 * ll);
    assert(m >= 0x1_0000_0000_0000_0000 - 0x6_0000_0000) by (nonlinear_arith)
        requires
            m * ll >= n * 0x1_0000_0000_0000_0000 - 0x6_0000_0000 * ll,
            n >= ll,
            ll > 0,
    ;
    // above: m ll <= 2^64 n + (6 2^32 + 3) ll, and n < ll + 3 len, 2^32 <= 2 len
    assert(m * ll <= n * 0x1_0000_0000_0000_0000 + 0x6_0000_0000 * ll + 3 * ll);
    assert(n < ll + 3 * len) by (nonlinear_arith)
        requires
            n < (len + 1) * (len + 1),
            ll == len * len,
            1 <= len,
    ;
    assert(3 * len * 0x1_0000_0000_0000_0000 <= 0x6_0000_0000 * ll) by (nonlinear_arith)
        requires
            ll == len * len,
            0x8000_0000 <= len,
    ;
    assert(m < 0x1_0000_0000_0000_0000 + 0xc_0000_0000 + 4) by (nonlinear_arith)
        requires
            m * ll <= n * 0x1_0000_0000_0000_0000 + 0x6_0000_0000 * ll + 3 * ll,
            n < ll + 3 * len,
            3 * len * 0x1_0000_0000_0000_0000 <= 0x6_0000_0000 * ll,
            ll > 0,
    ;
    assert(m < (0x1_0000_0000 + 7) * (0x1_0000_0000 + 7)) by (nonlinear_arith)
        requires
            m < 0x1_0000_0000_0000_0000 + 0xc_0000_0000 + 4,
    ;
}

/// A vector at least half a unit long, scaled to unit length, has length
/// one, give or take a few units of the last place.
pub proof fn lemma_normalized_length(v: Vox)
    requires
        v.l2().raw >= SCALE / 2,
    ensures
        SCALE - 4 <= v.normalized().l2().raw <= SCALE + 6,
{
    let n = v.norm_squared();
    assert(n >= 0) by (nonlinear_arith)
        requires
            n == v.x.raw * v.x.raw + v.y.raw * v.y.raw + v.z.raw * v.z.raw,
    ;
    lemma_isqrt(n);
    let len = isqrt(n);
    let d = v.normalized();
    lemma_fundamental_div_mod(v.x.raw * SCALE, len);
    lemma_fundamental_div_mod(v.y.raw * SCALE, len);
    lemma_fundamental_div_mod(v.z.raw * SCALE, len);
    lemma_coordinate_below_length(v.x.raw as int, v.y.raw as int, v.z.raw as int, len);
    lemma_coordinate_below_length(v.y.raw as int, v.x.raw as int, v.z.raw as int, len);
    lemma_coordinate_below_length(v.z.raw as int, v.y.raw as int, v.x.raw as int, len);
    let dx = (v.x.raw * SCALE) / len;
    let dy = (v.y.raw * SCALE) / len;
    let dz = (v.z.raw * SCALE) / len;
    assert(dx * len <= v.x.raw * 0x1_0000_0000 < dx * len + len) by (nonlinear_arith)
        requires
            v.x.raw * SCALE == len * dx + (v.x.raw * SCALE) % len,
            0 <= (v.x.raw * SCALE) % len < len,
            SCALE == 0x1_0000_0000,
    ;
    assert(dy * len <= v.y.raw * 0x1_0000_0000 < dy * len + len) by (nonlinear_arith)
        requires
            v.y.raw * SCALE == len * dy + (v.y.raw * SCALE) % len,
            0 <= (v.y.raw * SCALE) % len < len,
            SCALE == 0x1_0000_0000,
    ;
    assert(dz * len <= v.z.raw * 0x1_0000_0000 < dz * len + len) by (nonlinear_arith)
        requires
            v.z.raw * SCALE == len * dz + (v.z.raw * SCALE) % len,
            0 <= (v.z.raw * SCALE) % len < len,
            SCALE == 0x1_0000_0000,
    ;
    lemma_normalized_squared_length(
        v.x.raw as int,
        v.y.raw as int,
        v.z.raw as int,
        dx,
        dy,
        dz,
        len,
    );
    let m = dx * dx + dy * dy + dz * dz;
    assert(d.norm_squared() == m);
    lemma_isqrt(m);
    let root = isqrt(m);
    assert(0x1_0000_0000 - 4 <= root <= 0x1_0000_0000 + 6) by (nonlinear_arith)
        requires
            0 <= root,
            root * root <= m < (root + 1) * (root + 1),
            (0x1_0000_0000 - 4) * (0x1_0000_0000 - 4) <= m,
            m < (0x1_0000_0000 + 7) * (0x1_0000_0000 + 7),
    ;
}

/// Scaling a coordinate of a vector of nearly unit length by that length
/// moves it by at most seven units.
proof fn lemma_renormalized_coordinate(d: int, u: int, len: int)
    by (nonlinear_arith)
    requires
        0x1_0000_0000 - 4 <= len <= 0x1_0000_0000 + 6,
        -0x1_0000_0006 <= d <= 0x1_0000_0006,
        u * len <= d * 0x1_0000_0000 < u * len + len,
    ensures
        -7 <= u - d <= 6,
{
    assert((u - d) * len <= d * (0x1_0000_0000 - len));
    assert((u - d) * len > d * (0x1_0000_0000 - len) - len);
    assert(d * (0x1_0000_0000 - len) <= 0x1_0000_0006 * 6);
    assert(d * (0x1_0000_0000 - len) >= -0x1_0000_0006 * 6);
}

/// The product of two bounded numbers is bounded by the product of the
/// bounds.
proof fn lemma_product_within(a: int, b: int, ma: int, mb: int)
    by (nonlinear_arith)
    requires
        -ma <= a <= ma,
        -mb <= b <= mb,
    ensures
        -(ma * mb) <= a * b <= ma * mb,
{
}

/// Two dot products with the same vector differ by no more than the sum of
/// the coordinates of that vector times the greatest difference of the
/// coordinates of the others.
proof fn lemma_dot_difference(
    c1: int,
    c2: int,
    c3: int,
    d1: int,
    d2: int,
    d3: int,
    u1: int,
    u2: int,
    u3: int,
    bound: int,
)
    requires
        -bound <= c1 <= bound,
        -bound <= c2 <= bound,
        -bound <= c3 <= bound,
        -7 <= u1 - d1 <= 7,
        -7 <= u2 - d2 <= 7,
        -7 <= u3 - d3 <= 7,
    ensures
        -21 * bound <= (c1 * u1 + c2 * u2 + c3 * u3) - (c1 * d1 + c2 * d2 + c3 * d3) <= 21
            * bound,
{
    assert(bound >= 0);
    lemma_product_within(c1, u1 - d1, bound, 7);
    lemma_product_within(c2, u2 - d2, bound, 7);
    lemma_product_within(c3, u3 - d3, bound, 7);
    assert(c1 * u1 - c1 * d1 == c1 * (u1 - d1)) by (nonlinear_arith);
    assert(c2 * u2 - c2 * d2 == c2 * (u2 - d2)) by (nonlinear_arith);
    assert(c3 * u3 - c3 * d3 == c3 * (u3 - d3)) by (nonlinear_arith);
}

/// A dot product is bounded by three times the product of the bounds of the
/// coordinates.
proof fn lemma_dot_within(
    a1: int,
    a2: int,
    a3: int,
    b1: int,
    b2: int,
    b3: int,
    ma: int,
    mb: int,
    top: int,
)
    requires
        -ma <= a1 <= ma,
        -ma <= a2 <= ma,
        -ma <= a3 <= ma,
        -mb <= b1 <= mb,
        -mb <= b2 <= mb,
        -mb <= b3 <= mb,
        top == ma * mb,
    ensures
        -3 * top <= a1 * b1 + a2 * b2 + a3 * b3 <= 3 * top,
{
    lemma_product_within(a1, b1, ma, mb);
    lemma_product_within(a2, b2, ma, mb);
    lemma_product_within(a3, b3, ma, mb);
}

/// The distance along a ray to the point nearest a centre, taken with the
/// direction as it is (`al`) and with the direction scaled anew to unit
/// length (`an`): both are bounded, and they differ by little.
proof fn lemma_along_twice(
    c1: int,
    c2: int,
    c3: int,
    d1: int,
    d2: int,
    d3: int,
    u1: int,
    u2: int,
    u3: int,
    an: int,
    al: int,
    m: int,
)
    requires
        1 <= m <= 0x10_0000,
        -m * 0x1_0000_0000 <= c1 <= m * 0x1_0000_0000,
        -m * 0x1_0000_0000 <= c2 <= m * 0x1_0000_0000,
        -m * 0x1_0000_0000 <= c3 <= m * 0x1_0000_0000,
        -0x1_0000_0006 <= d1 <= 0x1_0000_0006,
        -0x1_0000_0006 <= d2 <= 0x1_0000_0006,
        -0x1_0000_0006 <= d3 <= 0x1_0000_0006,
        -0x1_0000_0000 <= u1 <= 0x1_0000_0000,
        -0x1_0000_0000 <= u2 <= 0x1_0000_0000,
        -0x1_0000_0000 <= u3 <= 0x1_0000_0000,
        -7 <= u1 - d1 <= 7,
        -7 <= u2 - d2 <= 7,
        -7 <= u3 - d3 <= 7,
        0x1_0000_0000 * an <= c1 * u1 + c2 * u2 + c3 * u3 < 0x1_0000_0000 * an + 0x1_0000_0000,
        0x1_0000_0000 * al <= c1 * d1 + c2 * d2 + c3 * d3 < 0x1_0000_0000 * al + 0x1_0000_0000,
    ensures
        -21 * m - 1 <= an - al <= 21 * m + 1,
        -3 * m * 0x1_0000_0000 <= an <= 3 * m * 0x1_0000_0000,
        -4 * m * 0x1_0000_0000 <= al <= 4 * m * 0x1_0000_0000,
{
    let bound = m * 0x1_0000_0000;
    lemma_dot_difference(c1, c2, c3, d1, d2, d3, u1, u2, u3, bound);
    lemma_dot_within(c1, c2, c3, u1, u2, u3, bound, 0x1_0000_0000, bound * 0x1_0000_0000);
    lemma_dot_within(c1, c2, c3, d1, d2, d3, bound, 0x1_0000_0006, bound * 0x1_0000_0006);
}

/// One coordinate of the identity behind [`lemma_nearly_perpendicular`].
proof fn lemma_perpendicular_coordinate(c: int, u: int, p: int, an: int, rest: int)
    by (nonlinear_arith)
    requires
        rest == u * an - 0x1_0000_0000 * p,
    ensures
        0x1_0000_0000 * ((c - p) * u) == 0x1_0000_0000 * (c * u) - (u * u) * an + u * rest,
{
}

/// What is left of a vector after its projection on a direction of nearly
/// unit length is taken away is nearly perpendicular to that direction.
proof fn lemma_nearly_perpendicular(
    c1: int,
    c2: int,
    c3: int,
    u1: int,
    u2: int,
    u3: int,
    f1: int,
    f2: int,
    f3: int,
    an: int,
    m: int,
)
    requires
        1 <= m <= 0x10_0000,
        -0x1_0000_0000 <= u1 <= 0x1_0000_0000,
        -0x1_0000_0000 <= u2 <= 0x1_0000_0000,
        -0x1_0000_0000 <= u3 <= 0x1_0000_0000,
        (0x1_0000_0000 - 4) * (0x1_0000_0000 - 4) <= u1 * u1 + u2 * u2 + u3 * u3,
        u1 * u1 + u2 * u2 + u3 * u3 < (0x1_0000_0000 + 7) * (0x1_0000_0000 + 7),
        -3 * m * 0x1_0000_0000 <= an <= 3 * m * 0x1_0000_0000,
        0x1_0000_0000 * an <= c1 * u1 + c2 * u2 + c3 * u3 < 0x1_0000_0000 * an + 0x1_0000_0000,
        0x1_0000_0000 * f1 <= u1 * an < 0x1_0000_0000 * f1 + 0x1_0000_0000,
        0x1_0000_0000 * f2 <= u2 * an < 0x1_0000_0000 * f2 + 0x1_0000_0000,
        0x1_0000_0000 * f3 <= u3 * an < 0x1_0000_0000 * f3 + 0x1_0000_0000,
    ensures
        -(45 * m + 4) * 0x1_0000_0000 <= (c1 - f1) * u1 + (c2 - f2) * u2 + (c3 - f3) * u3 <= (45
            * m + 4) * 0x1_0000_0000,
{
    let s = 0x1_0000_0000int;
    let ss = 0x1_0000_0000_0000_0000int;
    let r1 = u1 * an - s * f1;
    let r2 = u2 * an - s * f2;
    let r3 = u3 * an - s * f3;
    let uu = u1 * u1 + u2 * u2 + u3 * u3;
    let cu = c1 * u1 + c2 * u2 + c3 * u3;
    let left = (c1 - f1) * u1 + (c2 - f2) * u2 + (c3 - f3) * u3;
    let excess = uu - ss;
    let gamma = cu - s * an;
    lemma_perpendicular_coordinate(c1, u1, f1, an, r1);
    lemma_perpendicular_coordinate(c2, u2, f2, an, r2);
    lemma_perpendicular_coordinate(c3, u3, f3, an, r3);
    let ur = u1 * r1 + u2 * r2 + u3 * r3;
    assert(uu * an == (u1 * u1) * an + (u2 * u2) * an + (u3 * u3) * an) by (nonlinear_arith)
        requires
            uu == u1 * u1 + u2 * u2 + u3 * u3,
    ;
    assert(s * left == s * cu - uu * an + ur);
    assert(uu * an == ss * an + excess * an) by (nonlinear_arith)
        requires
            excess == uu - ss,
    ;
    assert(s * left == s * gamma - excess * an + ur);
    assert((0x1_0000_0000 - 4) * (0x1_0000_0000 - 4) == 0x1_0000_0000_0000_0000 - 8
        * 0x1_0000_0000 + 16) by (nonlinear_arith);
    assert((0x1_0000_0000 + 7) * (0x1_0000_0000 + 7) == 0x1_0000_0000_0000_0000 + 14
        * 0x1_0000_0000 + 49) by (nonlinear_arith);
    assert(-15 * s <= excess <= 15 * s);
    lemma_product_within(excess, an, 15 * s, 3 * m * s);
    let big = (15 * s) * (3 * m * s);
    assert(big == 45 * m * ss) by (nonlinear_arith)
        requires
            big == (15 * 0x1_0000_0000) * (3 * m * 0x1_0000_0000),
            ss == 0x1_0000_0000_0000_0000,
    ;
    lemma_dot_within(u1, u2, u3, r1, r2, r3, s, s, ss);
    assert(0 <= gamma < s);
}

/// One coordinate of the step from the foot of the perpendicular to the
/// point where the ray meets the sphere: it is the signed half chord along
/// the direction, up to an error that grows with the size of the scene only.
proof fn lemma_error_coordinate(
    d: int,
    u: int,
    p: int,
    w: int,
    an: int,
    al: int,
    sh: int,
    m: int,
)
    requires
        1 <= m <= 0x10_0000,
        -0x1_0000_0006 <= d <= 0x1_0000_0006,
        -7 <= u - d <= 7,
        -3 * m * 0x1_0000_0000 <= an <= 3 * m * 0x1_0000_0000,
        -21 * m - 1 <= an - al <= 21 * m + 1,
        0x1_0000_0000 * p <= u * an < 0x1_0000_0000 * p + 0x1_0000_0000,
        0x1_0000_0000 * w <= d * (al + sh) < 0x1_0000_0000 * w + 0x1_0000_0000,
    ensures
        -64 * m * 0x1_0000_0000 <= 0x1_0000_0000 * (w - p) - sh * d <= 64 * m * 0x1_0000_0000,
{
    let s = 0x1_0000_0000int;
    let first = d * (al - an);
    let second = (u - d) * an;
    assert(d * (al + sh) - u * an == first - second + sh * d) by (nonlinear_arith)
        requires
            first == d * (al - an),
            second == (u - d) * an,
    ;
    lemma_product_within(d, al - an, 0x1_0000_0006, 21 * m + 1);
    lemma_product_within(u - d, an, 7, 3 * m * s);
    assert(0x1_0000_0006 * (21 * m + 1) + 7 * (3 * m * s) + s <= 64 * m * s);
}

/// The product of two scaled numbers is the scaled product.
proof fn lemma_scaled_product(k: int, l: int, x: int, y: int, kl: int)
    by (nonlinear_arith)
    requires
        kl == k * l,
    ensures
        (k * x) * (l * y) == kl * (x * y),
{
}

/// A factor can be taken out of a sum of three.
proof fn lemma_distribute_three(k: int, a: int, b: int, c: int)
    by (nonlinear_arith)
    ensures
        k * (a + b + c) == k * a + k * b + k * c,
{
}

/// The dot product of two scaled vectors is the scaled dot product.
proof fn lemma_scaled_dot(
    k: int,
    l: int,
    x1: int,
    x2: int,
    x3: int,
    y1: int,
    y2: int,
    y3: int,
    kl: int,
)
    requires
        kl == k * l,
    ensures
        (k * x1) * (l * y1) + (k * x2) * (l * y2) + (k * x3) * (l * y3) == kl * (x1 * y1 + x2
            * y2 + x3 * y3),
{
    lemma_scaled_product(k, l, x1, y1, kl);
    lemma_scaled_product(k, l, x2, y2, kl);
    lemma_scaled_product(k, l, x3, y3, kl);
    lemma_distribute_three(kl, x1 * y1, x2 * y2, x3 * y3);
}

/// The square of a sum of three.
proof fn lemma_square_of_three(x: int, a: int, b: int, e: int)
    by (nonlinear_arith)
    requires
        x == -a + b + e,
    ensures
        x * x == a * a + b * b + e * e - 2 * (a * b) - 2 * (a * e) + 2 * (b * e),
{
}

/// A factor can be moved across a product.
proof fn lemma_scale_left(k: int, x: int, y: int)
    by (nonlinear_arith)
    ensures
        (k * x) * y == k * (x * y),
{
}

/// The squared distance from the centre to the point where the ray meets the
/// sphere, against the squared radius.
proof fn lemma_hit_squared_distance(
    a1: int,
    a2: int,
    a3: int,
    d1: int,
    d2: int,
    d3: int,
    e1: int,
    e2: int,
    e3: int,
    q1: int,
    q2: int,
    q3: int,
    sh: int,
    r: int,
    m: int,
    mr: int,
    mm: int,
)
    requires
        1 <= m <= 0x10_0000,
        0 <= r <= m * 0x1_0000_0000,
        -r <= sh <= r,
        mr == m * r,
        mm == m * m,
        0x1_0000_0000 * q1 == -0x1_0000_0000 * a1 + sh * d1 + e1,
        0x1_0000_0000 * q2 == -0x1_0000_0000 * a2 + sh * d2 + e2,
        0x1_0000_0000 * q3 == -0x1_0000_0000 * a3 + sh * d3 + e3,
        -(r + 1) <= a1 <= r + 1,
        -(r + 1) <= a2 <= r + 1,
        -(r + 1) <= a3 <= r + 1,
        -0x1_0000_0006 <= d1 <= 0x1_0000_0006,
        -0x1_0000_0006 <= d2 <= 0x1_0000_0006,
        -0x1_0000_0006 <= d3 <= 0x1_0000_0006,
        -64 * m * 0x1_0000_0000 <= e1 <= 64 * m * 0x1_0000_0000,
        -64 * m * 0x1_0000_0000 <= e2 <= 64 * m * 0x1_0000_0000,
        -64 * m * 0x1_0000_0000 <= e3 <= 64 * m * 0x1_0000_0000,
        -15 * 0x1_0000_0000 <= d1 * d1 + d2 * d2 + d3 * d3 - 0x1_0000_0000_0000_0000 <= 15
            * 0x1_0000_0000,
        -((45 * m + 4) * 0x1_0000_0000 + 21 * (r + 1)) <= a1 * d1 + a2 * d2 + a3 * d3 <= (45 * m
            + 4) * 0x1_0000_0000 + 21 * (r + 1),
        -2 * r <= a1 * a1 + a2 * a2 + a3 * a3 - r * r + sh * sh <= 2 * r,
    ensures
        -(945 * mr + 12672 * mm) <= q1 * q1 + q2 * q2 + q3 * q3 - r * r <= 945 * mr + 12672 * mm,
{
    let s = 0x1_0000_0000int;
    let ss = 0x1_0000_0000_0000_0000int;
    let aa = a1 * a1 + a2 * a2 + a3 * a3;
    let dd = d1 * d1 + d2 * d2 + d3 * d3;
    let ee = e1 * e1 + e2 * e2 + e3 * e3;
    let qq = q1 * q1 + q2 * q2 + q3 * q3;
    let ad = a1 * d1 + a2 * d2 + a3 * d3;
    let ae = a1 * e1 + a2 * e2 + a3 * e3;
    let de = d1 * e1 + d2 * e2 + d3 * e3;
    let hh = sh * sh;
    let rr = r * r;
    lemma_square_of_three(s * q1, s * a1, sh * d1, e1);
    lemma_square_of_three(s * q2, s * a2, sh * d2, e2);
    lemma_square_of_three(s * q3, s * a3, sh * d3, e3);
    lemma_scaled_dot(s, s, q1, q2, q3, q1, q2, q3, ss);
    lemma_scaled_dot(s, s, a1, a2, a3, a1, a2, a3, ss);
    lemma_scaled_dot(sh, sh, d1, d2, d3, d1, d2, d3, hh);
    lemma_scaled_dot(s, sh, a1, a2, a3, d1, d2, d3, s * sh);
    lemma_scale_left(s, a1, e1);
    lemma_scale_left(s, a2, e2);
    lemma_scale_left(s, a3, e3);
    lemma_scale_left(sh, d1, e1);
    lemma_scale_left(sh, d2, e2);
    lemma_scale_left(sh, d3, e3);
    lemma_distribute_three(sh, d1 * e1, d2 * e2, d3 * e3);
    let cross = (s * sh) * ad;
    let shde = sh * de;
    assert(ss * qq == ss * aa + hh * dd + ee - 2 * cross - 2 * (s * ae) + 2 * shde);
    let g = aa - rr + hh;
    let x = dd - ss;
    let t2 = hh * x;
    assert(hh * dd == t2 + ss * hh) by (nonlinear_arith)
        requires
            t2 == hh * x,
            x == dd - ss,
            ss == 0x1_0000_0000_0000_0000,
    ;
    assert(ss * (qq - rr) == ss * g + t2 + ee - 2 * cross - 2 * (s * ae) + 2 * shde);
    // the size of each part
    assert(r <= mr && m <= mm && 0 <= mr && r * r <= mr * s && 0 <= hh <= r * r)
        by (nonlinear_arith)
        requires
            1 <= m,
            0 <= r <= m * s,
            mr == m * r,
            mm == m * m,
            -r <= sh <= r,
            hh == sh * sh,
            s == 0x1_0000_0000,
    ;
    lemma_product_within(hh, x, mr * s, 15 * s);
    assert((mr * s) * (15 * s) == 15 * mr * ss) by (nonlinear_arith)
        requires
            s == 0x1_0000_0000,
            ss == 0x1_0000_0000_0000_0000,
    ;
    lemma_product_within(e1, e1, 64 * m * s, 64 * m * s);
    lemma_product_within(e2, e2, 64 * m * s, 64 * m * s);
    lemma_product_within(e3, e3, 64 * m * s, 64 * m * s);
    assert((64 * m * s) * (64 * m * s) == 4096 * mm * ss) by (nonlinear_arith)
        requires
            mm == m * m,
            s == 0x1_0000_0000,
            ss == 0x1_0000_0000_0000_0000,
    ;
    assert(0 <= e1 * e1 && 0 <= e2 * e2 && 0 <= e3 * e3) by (nonlinear_arith);
    assert(0 <= ee <= 12288 * mm * ss);
    let bad = (45 * m + 4) * s + 21 * (r + 1);
    lemma_product_within(s * sh, ad, s * r, bad);
    assert((s * r) * bad <= (66 * mr + 5 * r) * ss) by (nonlinear_arith)
        requires
            bad == (45 * m + 4) * s + 21 * (r + 1),
            mr == m * r,
            0 <= r,
            r * r <= mr * s,
            s == 0x1_0000_0000,
            ss == 0x1_0000_0000_0000_0000,
    ;
    lemma_dot_within(a1, a2, a3, e1, e2, e3, r + 1, 64 * m * s, (r + 1) * (64 * m * s));
    assert((r + 1) * (64 * m * s) == 64 * (mr + m) * s) by (nonlinear_arith)
        requires
            mr == m * r,
    ;
    lemma_dot_within(
        d1,
        d2,
        d3,
        e1,
        e2,
        e3,
        0x1_0000_0006,
        64 * m * s,
        0x1_0000_0006 * (64 * m * s),
    );
    lemma_product_within(sh, de, r, 3 * (0x1_0000_0006 * (64 * m * s)));
    assert(r * (3 * (0x1_0000_0006 * (64 * m * s))) <= 193 * mr * ss) by (nonlinear_arith)
        requires
            mr == m * r,
            0 <= mr,
            s == 0x1_0000_0000,
            ss == 0x1_0000_0000_0000_0000,
    ;
    assert(-(945 * mr + 12672 * mm) * ss <= ss * (qq - rr) <= (945 * mr + 12672 * mm) * ss);
}

/// A number whose square is near the square of `r` has its integer square
/// root near `r`.
proof fn lemma_root_near(qq: int, r: int, m: int, mr: int, mm: int)
    requires
        1 <= m,
        0 <= r,
        mr == m * r,
        mm == m * m,
        0 <= qq,
        -(945 * mr + 12672 * mm) <= qq - r * r <= 945 * mr + 12672 * mm,
    ensures
        r - 1024 * m <= isqrt(qq) <= r + 1024 * m,
{
    lemma_isqrt(qq);
    let root = isqrt(qq);
    let t = 1024 * m;
    assert(root <= r + t) by (nonlinear_arith)
        requires
            0 <= root,
            root * root <= qq,
            qq <= r * r + 945 * mr + 12672 * mm,
            mr == m * r,
            mm == m * m,
            t == 1024 * m,
            1 <= m,
            0 <= r,
    {
        if root > r + t {
            assert(root * root >= (r + t + 1) * (r + t + 1));
            assert((r + t + 1) * (r + t + 1) > r * r + 2 * t * r + t * t);
            assert(2 * t * r == 2048 * mr);
            assert(t * t == 1048576 * mm);
        }
    }
    assert(r - t <= root) by (nonlinear_arith)
        requires
            0 <= root,
            qq < (root + 1) * (root + 1),
            qq >= r * r - 945 * mr - 12672 * mm,
            mr == m * r,
            mm == m * m,
            t == 1024 * m,
            1 <= m,
            0 <= r,
    {
        if root < r - t {
            assert((root + 1) * (root + 1) <= (r - t) * (r - t));
            assert((r - t) * (r - t) == r * r - 2 * t * r + t * t);
            assert(2 * t * r == 2048 * mr);
            assert(t * t == 1048576 * mm);
            assert(r >= 1024 * m);
            assert(mr >= 1024 * mm);
        }
    }
}

/// The vector has length one, give or take a few units of the last place,
/// as the normalization of any vector at least half a unit long has.
pub open spec fn is_near_unit(d: Vox) -> bool {
    SCALE - 4 <= d.l2().raw <= SCALE + 6
}

/// A vector is at least as long as any of its coordinates.
pub proof fn lemma_length_at_least(v: Vox)
    ensures
        -v.l2().raw - 1 <= v.x.raw <= v.l2().raw,
        -v.l2().raw - 1 <= v.y.raw <= v.l2().raw,
        -v.l2().raw - 1 <= v.z.raw <= v.l2().raw,
{
    let n = v.norm_squared();
    assert(n >= 0) by (nonlinear_arith)
        requires
            n == v.x.raw * v.x.raw + v.y.raw * v.y.raw + v.z.raw * v.z.raw,
    ;
    lemma_isqrt(n);
    let root = isqrt(n);
    lemma_coordinate_below_length(v.x.raw as int, v.y.raw as int, v.z.raw as int, root);
    lemma_coordinate_below_length(v.y.raw as int, v.x.raw as int, v.z.raw as int, root);
    lemma_coordinate_below_length(v.z.raw as int, v.y.raw as int, v.x.raw as int, root);
}

/// A ray made from a vector at least half a unit long has a direction of
/// nearly unit length, wherever it is moved to.
pub proof fn lemma_ray_direction_near_unit(dir: Vox, origin: Vox)
    requires
        dir.l2().raw >= SCALE / 2,
    ensures
        is_near_unit(Ray::new(dir).direction),
        is_near_unit(Ray::new(dir).set_origin(origin).direction),
{
    lemma_normalized_length(dir);
}

/// What the length of a vector of nearly unit length says of its
/// coordinates and of the sum of their squares.
proof fn lemma_near_unit(d: Vox)
    requires
        is_near_unit(d),
    ensures
        0x1_0000_0000 - 4 <= isqrt(d.norm_squared()) <= 0x1_0000_0000 + 6,
        isqrt(d.norm_squared()) * isqrt(d.norm_squared()) <= d.norm_squared(),
        d.norm_squared() < (isqrt(d.norm_squared()) + 1) * (isqrt(d.norm_squared()) + 1),
        -15 * 0x1_0000_0000 <= d.norm_squared() - 0x1_0000_0000_0000_0000 <= 15 * 0x1_0000_0000,
        -0x1_0000_0006 <= d.x.raw <= 0x1_0000_0006,
        -0x1_0000_0006 <= d.y.raw <= 0x1_0000_0006,
        -0x1_0000_0006 <= d.z.raw <= 0x1_0000_0006,
{
    let n = d.norm_squared();
    assert(n >= 0) by (nonlinear_arith)
        requires
            n == d.x.raw * d.x.raw + d.y.raw * d.y.raw + d.z.raw * d.z.raw,
    ;
    lemma_isqrt(n);
    let root = isqrt(n);
    assert(0x1_0000_0000 - 4 <= root <= 0x1_0000_0000 + 6);
    assert(0x1_0000_0000_0000_0000 - 15 * 0x1_0000_0000 <= n <= 0x1_0000_0000_0000_0000 + 15
        * 0x1_0000_0000) by (nonlinear_arith)
        requires
            0x1_0000_0000 - 4 <= root <= 0x1_0000_0000 + 6,
            root * root <= n < (root + 1) * (root + 1),
    ;
    assert(n < (0x1_0000_0006 + 1) * (0x1_0000_0006 + 1)) by (nonlinear_arith)
        requires
            root <= 0x1_0000_0000 + 6,
            n < (root + 1) * (root + 1),
            0 <= root,
    ;
    lemma_coordinate_below_length(d.x.raw as int, d.y.raw as int, d.z.raw as int, 0x1_0000_0006);
    lemma_coordinate_below_length(d.y.raw as int, d.x.raw as int, d.z.raw as int, 0x1_0000_0006);
    lemma_coordinate_below_length(d.z.raw as int, d.y.raw as int, d.x.raw as int, 0x1_0000_0006);
}

/// A product of two numbers that stays in range is the exact product
/// divided by the scale, rounded down.
proof fn lemma_times_exact(a: Fixed, b: Fixed, ma: int, mb: int)
    requires
        -ma <= a.raw <= ma,
        -mb <= b.raw <= mb,
        ma * mb <= 0x1000_0000_0000_0000_0000_0000,
    ensures
        0x1_0000_0000 * a.times(b).raw <= a.raw * b.raw < 0x1_0000_0000 * a.times(b).raw
            + 0x1_0000_0000,
        -(ma * mb) <= a.raw * b.raw <= ma * mb,
{
    lemma_product_within(a.raw as int, b.raw as int, ma, mb);
}

/// A dot product that stays in range is the exact sum of the products
/// divided by the scale, rounded down.
proof fn lemma_dot_exact(a: Vox, b: Vox, ma: int, mb: int, top: int)
    requires
        -ma <= a.x.raw <= ma,
        -ma <= a.y.raw <= ma,
        -ma <= a.z.raw <= ma,
        -mb <= b.x.raw <= mb,
        -mb <= b.y.raw <= mb,
        -mb <= b.z.raw <= mb,
        top == ma * mb,
        top <= 0x1000_0000_0000_0000_0000_0000,
    ensures
        0x1_0000_0000 * a.dot(&b).raw <= a.raw_dot(&b) < 0x1_0000_0000 * a.dot(&b).raw
            + 0x1_0000_0000,
        -3 * top <= a.raw_dot(&b) <= 3 * top,
{
    lemma_dot_within(
        a.x.raw as int,
        a.y.raw as int,
        a.z.raw as int,
        b.x.raw as int,
        b.y.raw as int,
        b.z.raw as int,
        ma,
        mb,
        top,
    );
}

/// The projection of the way to the centre on the direction of the ray, and
/// what it leaves: the facts that [`lemma_hit_on_sphere`] builds on.
proof fn lemma_projection_of_centre(sphere: Sphere, ray: Ray, m: int)
    requires
        is_near_unit(ray.direction),
        within_reach(ray.origin),
        within_reach(sphere.center),
        1 <= m <= 0x10_0000,
        -m * SCALE <= sphere.center.x.raw - ray.origin.x.raw <= m * SCALE,
        -m * SCALE <= sphere.center.y.raw - ray.origin.y.raw <= m * SCALE,
        -m * SCALE <= sphere.center.z.raw - ray.origin.z.raw <= m * SCALE,
        0 <= sphere.radius.raw <= m * SCALE,
    ensures
        ({
            let d = ray.direction;
            let cc = sphere.to_center(&ray);
            let un = d.normalized();
            let an = cc.dot(&un);
            let al = cc.dot(&d);
            let proj = cc.project_on(&d);
            let perp = cc.minus(proj);
            &&& cc.x.raw == sphere.center.x.raw - ray.origin.x.raw
            &&& cc.y.raw == sphere.center.y.raw - ray.origin.y.raw
            &&& cc.z.raw == sphere.center.z.raw - ray.origin.z.raw
            &&& -7 <= un.x.raw - d.x.raw <= 7
            &&& -7 <= un.y.raw - d.y.raw <= 7
            &&& -7 <= un.z.raw - d.z.raw <= 7
            &&& -3 * m * 0x1_0000_0000 <= an.raw <= 3 * m * 0x1_0000_0000
            &&& -4 * m * 0x1_0000_0000 <= al.raw <= 4 * m * 0x1_0000_0000
            &&& -21 * m - 1 <= an.raw - al.raw <= 21 * m + 1
            &&& 0x1_0000_0000 * proj.x.raw <= un.x.raw * an.raw < 0x1_0000_0000 * proj.x.raw
                + 0x1_0000_0000
            &&& 0x1_0000_0000 * proj.y.raw <= un.y.raw * an.raw < 0x1_0000_0000 * proj.y.raw
                + 0x1_0000_0000
            &&& 0x1_0000_0000 * proj.z.raw <= un.z.raw * an.raw < 0x1_0000_0000 * proj.z.raw
                + 0x1_0000_0000
            &&& perp.x.raw == cc.x.raw - proj.x.raw
            &&& perp.y.raw == cc.y.raw - proj.y.raw
            &&& perp.z.raw == cc.z.raw - proj.z.raw
            &&& -0x40_0000_0000_0000 <= perp.x.raw <= 0x40_0000_0000_0000
            &&& -0x40_0000_0000_0000 <= perp.y.raw <= 0x40_0000_0000_0000
            &&& -0x40_0000_0000_0000 <= perp.z.raw <= 0x40_0000_0000_0000
            &&& -(45 * m + 4) * 0x1_0000_0000 <= (cc.x.raw - proj.x.raw) * un.x.raw + (cc.y.raw
                - proj.y.raw) * un.y.raw + (cc.z.raw - proj.z.raw) * un.z.raw <= (45 * m + 4)
                * 0x1_0000_0000
        }),
{
    let s = 0x1_0000_0000int;
    let r = sphere.radius.raw as int;
    let d = ray.direction;
    let cc = sphere.to_center(&ray);
    let un = d.normalized();
    let len = isqrt(d.norm_squared());
    lemma_near_unit(d);
    // the direction scaled anew
    lemma_fundamental_div_mod(d.x.raw * SCALE, len);
    lemma_fundamental_div_mod(d.y.raw * SCALE, len);
    lemma_fundamental_div_mod(d.z.raw * SCALE, len);
    let u1 = (d.x.raw * SCALE) / len;
    let u2 = (d.y.raw * SCALE) / len;
    let u3 = (d.z.raw * SCALE) / len;
    assert(u1 * len <= d.x.raw * 0x1_0000_0000 < u1 * len + len) by (nonlinear_arith)
        requires
            d.x.raw * SCALE == len * u1 + (d.x.raw * SCALE) % len,
            0 <= (d.x.raw * SCALE) % len < len,
            SCALE == 0x1_0000_0000,
    ;
    assert(u2 * len <= d.y.raw * 0x1_0000_0000 < u2 * len + len) by (nonlinear_arith)
        requires
            d.y.raw * SCALE == len * u2 + (d.y.raw * SCALE) % len,
            0 <= (d.y.raw * SCALE) % len < len,
            SCALE == 0x1_0000_0000,
    ;
    assert(u3 * len <= d.z.raw * 0x1_0000_0000 < u3 * len + len) by (nonlinear_arith)
        requires
            d.z.raw * SCALE == len * u3 + (d.z.raw * SCALE) % len,
            0 <= (d.z.raw * SCALE) % len < len,
            SCALE == 0x1_0000_0000,
    ;
    lemma_normalized_squared_length(
        d.x.raw as int,
        d.y.raw as int,
        d.z.raw as int,
        u1,
        u2,
        u3,
        len,
    );
    assert(un.x.raw == u1 && un.y.raw == u2 && un.z.raw == u3);
    lemma_renormalized_coordinate(d.x.raw as int, u1, len);
    lemma_renormalized_coordinate(d.y.raw as int, u2, len);
    lemma_renormalized_coordinate(d.z.raw as int, u3, len);
    // the two distances along the ray
    let bound = m * s;
    assert(cc.x.raw == sphere.center.x.raw - ray.origin.x.raw);
    assert(cc.y.raw == sphere.center.y.raw - ray.origin.y.raw);
    assert(cc.z.raw == sphere.center.z.raw - ray.origin.z.raw);
    lemma_dot_exact(cc, un, bound, s, bound * s);
    lemma_dot_exact(cc, d, bound, 0x1_0000_0006, bound * 0x1_0000_0006);
    let an = cc.dot(&un);
    let al = cc.dot(&d);
    lemma_along_twice(
        cc.x.raw as int,
        cc.y.raw as int,
        cc.z.raw as int,
        d.x.raw as int,
        d.y.raw as int,
        d.z.raw as int,
        u1,
        u2,
        u3,
        an.raw as int,
        al.raw as int,
        m,
    );
    // the projection and what it leaves
    let proj = cc.project_on(&d);
    assert(proj == un.walk_dir(an));
    lemma_times_exact(un.x, an, s, 3 * m * s);
    lemma_times_exact(un.y, an, s, 3 * m * s);
    lemma_times_exact(un.z, an, s, 3 * m * s);
    let perp = cc.minus(proj);
    assert(perp.x.raw == cc.x.raw - proj.x.raw);
    assert(perp.y.raw == cc.y.raw - proj.y.raw);
    assert(perp.z.raw == cc.z.raw - proj.z.raw);
    lemma_nearly_perpendicular(
        cc.x.raw as int,
        cc.y.raw as int,
        cc.z.raw as int,
        u1,
        u2,
        u3,
        proj.x.raw as int,
        proj.y.raw as int,
        proj.z.raw as int,
        an.raw as int,
        m,
    );
}

/// The ray has a direction of nearly unit length, and the sphere lies within
/// `m` whole units of the ray's origin along each axis and is no larger.
pub open spec fn sphere_in_range(sphere: Sphere, ray: Ray, m: int) -> bool {
    &&& is_near_unit(ray.direction)
    &&& within_reach(ray.origin)
    &&& within_reach(sphere.center)
    &&& 1 <= m <= 0x10_0000
    &&& -m * SCALE <= sphere.center.x.raw - ray.origin.x.raw <= m * SCALE
    &&& -m * SCALE <= sphere.center.y.raw - ray.origin.y.raw <= m * SCALE
    &&& -m * SCALE <= sphere.center.z.raw - ray.origin.z.raw <= m * SCALE
    &&& 0 <= sphere.radius.raw <= m * SCALE
}

/// Where a ray of nearly unit direction meets a sphere, the point lies at
/// the radius from the centre, give or take `1024 m` units of the last place,
/// where `m` is a whole number that bounds the radius and the distance from
/// the ray's origin to the centre along each axis.
#[verifier::rlimit(30)]
pub proof fn lemma_hit_on_sphere(sphere: Sphere, ray: Ray, m: int)
    requires
        sphere_in_range(sphere, ray, m),
    ensures
        sphere.spec_ray_intersect(&ray) matches HitPoint::Point(p) ==> sphere.radius.raw - 1024
            * m <= p.minus(sphere.center).l2().raw <= sphere.radius.raw + 1024 * m,
{
    let s = 0x1_0000_0000int;
    let r = sphere.radius.raw as int;
    let d = ray.direction;
    let cc = sphere.to_center(&ray);
    let un = d.normalized();
    let u1 = un.x.raw as int;
    let u2 = un.y.raw as int;
    let u3 = un.z.raw as int;
    let an = cc.dot(&un);
    let al = cc.dot(&d);
    let proj = cc.project_on(&d);
    let perp = cc.minus(proj);
    lemma_near_unit(d);
    lemma_projection_of_centre(sphere, ray, m);
    let pp = perp.norm_squared();
    assert(0 <= pp <= 0x1000_0000_0000_0000_0000_0000_0000_0000) by (nonlinear_arith)
        requires
            pp == perp.x.raw * perp.x.raw + perp.y.raw * perp.y.raw + perp.z.raw * perp.z.raw,
            -0x40_0000_0000_0000 <= perp.x.raw <= 0x40_0000_0000_0000,
            -0x40_0000_0000_0000 <= perp.y.raw <= 0x40_0000_0000_0000,
            -0x40_0000_0000_0000 <= perp.z.raw <= 0x40_0000_0000_0000,
    ;
    lemma_isqrt(pp);
    let miss = isqrt(pp);
    assert(miss <= 0x4000_0000_0000_0000) by (nonlinear_arith)
        requires
            0 <= miss,
            miss * miss <= pp,
            pp <= 0x1000_0000_0000_0000_0000_0000_0000_0000,
    ;
    assert(sphere.miss_distance(&ray).raw == miss);
    if miss <= r {
        lemma_coordinate_below_length(
            perp.x.raw as int,
            perp.y.raw as int,
            perp.z.raw as int,
            miss,
        );
        lemma_coordinate_below_length(
            perp.y.raw as int,
            perp.x.raw as int,
            perp.z.raw as int,
            miss,
        );
        lemma_coordinate_below_length(
            perp.z.raw as int,
            perp.y.raw as int,
            perp.x.raw as int,
            miss,
        );
        // half the chord
        let gap = r * r - miss * miss;
        assert(0 <= gap <= r * r) by (nonlinear_arith)
            requires
                gap == r * r - miss * miss,
                0 <= miss <= r,
        ;
        if gap > 0 {
            lemma_isqrt(gap);
            assert(isqrt(gap) <= r) by (nonlinear_arith)
                requires
                    0 <= isqrt(gap),
                    isqrt(gap) * isqrt(gap) <= gap,
                    gap <= r * r,
                    0 <= r,
            ;
        }
        let half = sphere.half_chord(&ray).raw as int;
        assert(0 <= half <= r);
        assert(gap > 0 ==> half * half <= gap < (half + 1) * (half + 1));
        assert(gap <= 0 ==> half == 0);
        let hh_gap = pp - r * r + half * half;
        assert(-2 * r <= hh_gap <= 2 * r) by (nonlinear_arith)
            requires
                hh_gap == pp - r * r + half * half,
                gap == r * r - miss * miss,
                0 <= miss <= r,
                0 <= half <= r,
                miss * miss <= pp < (miss + 1) * (miss + 1),
                gap > 0 ==> half * half <= gap < (half + 1) * (half + 1),
                gap <= 0 ==> half == 0,
        ;
        // the point where the ray meets the sphere
        let near = sphere.near_root(&ray);
        let far = sphere.far_root(&ray);
        assert(near.raw == al.raw - half);
        assert(far.raw == al.raw + half);
        let t = if near.raw > 0 { near } else { far };
        let sh = if near.raw > 0 { -half } else { half };
        assert(t.raw == al.raw + sh);
        lemma_times_exact(d.x, t, 0x1_0000_0006, 5 * m * s);
        lemma_times_exact(d.y, t, 0x1_0000_0006, 5 * m * s);
        lemma_times_exact(d.z, t, 0x1_0000_0006, 5 * m * s);
        let w = d.walk_dir(t);
        let hit = ray.walk_dir(t);
        assert(hit == ray.origin.plus(w));
        let q = hit.minus(sphere.center);
        assert(q.x.raw == w.x.raw - cc.x.raw);
        assert(q.y.raw == w.y.raw - cc.y.raw);
        assert(q.z.raw == w.z.raw - cc.z.raw);
        lemma_error_coordinate(
            d.x.raw as int,
            u1,
            proj.x.raw as int,
            w.x.raw as int,
            an.raw as int,
            al.raw as int,
            sh,
            m,
        );
        lemma_error_coordinate(
            d.y.raw as int,
            u2,
            proj.y.raw as int,
            w.y.raw as int,
            an.raw as int,
            al.raw as int,
            sh,
            m,
        );
        lemma_error_coordinate(
            d.z.raw as int,
            u3,
            proj.z.raw as int,
            w.z.raw as int,
            an.raw as int,
            al.raw as int,
            sh,
            m,
        );
        let e1 = s * (w.x.raw - proj.x.raw) - sh * d.x.raw;
        let e2 = s * (w.y.raw - proj.y.raw) - sh * d.y.raw;
        let e3 = s * (w.z.raw - proj.z.raw) - sh * d.z.raw;
        // what the projection leaves is nearly perpendicular to the direction
        lemma_dot_within(
            perp.x.raw as int,
            perp.y.raw as int,
            perp.z.raw as int,
            u1 - d.x.raw,
            u2 - d.y.raw,
            u3 - d.z.raw,
            r + 1,
            7,
            (r + 1) * 7,
        );
        assert(perp.x.raw * d.x.raw == perp.x.raw * u1 - perp.x.raw * (u1 - d.x.raw))
            by (nonlinear_arith);
        assert(perp.y.raw * d.y.raw == perp.y.raw * u2 - perp.y.raw * (u2 - d.y.raw))
            by (nonlinear_arith);
        assert(perp.z.raw * d.z.raw == perp.z.raw * u3 - perp.z.raw * (u3 - d.z.raw))
            by (nonlinear_arith);
        let mr = m * r;
        let mm = m * m;
        assert(sh * sh == half * half) by (nonlinear_arith)
            requires
                sh == half || sh == -half,
        ;
        lemma_hit_squared_distance(
            perp.x.raw as int,
            perp.y.raw as int,
            perp.z.raw as int,
            d.x.raw as int,
            d.y.raw as int,
            d.z.raw as int,
            e1,
            e2,
            e3,
            q.x.raw as int,
            q.y.raw as int,
            q.z.raw as int,
            sh,
            r,
            m,
            mr,
            mm,
        );
        let qq = q.norm_squared();
        assert(qq >= 0) by (nonlinear_arith)
            requires
                qq == q.x.raw * q.x.raw + q.y.raw * q.y.raw + q.z.raw * q.z.raw,
        ;
        lemma_root_near(qq, r, m, mr, mm);
    }
}

/// One coordinate of the identity behind [`lemma_along_own_direction`].
proof fn lemma_own_direction_coordinate(c: int, d: int, len: int, rest: int)
    by (nonlinear_arith)
    requires
        rest == c * 0x1_0000_0000 - d * len,
    ensures
        (c * d) * len == 0x1_0000_0000 * (c * c) - c * rest,
{
}

/// The last step of [`lemma_along_own_direction`], over the sums alone.
proof fn lemma_along_own_direction_sums(
    cd: int,
    len: int,
    n: int,
    cr: int,
    ll: int,
    al: int,
    m: int,
)
    by (nonlinear_arith)
    requires
        1 <= m,
        1 <= len <= 2 * m * 0x1_0000_0000,
        ll == len * len,
        ll <= n < (len + 1) * (len + 1),
        cd * len == 0x1_0000_0000 * n - cr,
        -3 * ll <= cr,
        cr <= 3 * ll,
        0x1_0000_0000 * al <= cd < 0x1_0000_0000 * al + 0x1_0000_0000,
    ensures
        -6 * m - 3 <= al - len <= 6 * m + 3,
{
    assert(cd * len >= (0x1_0000_0000 - 3) * ll);
    assert(cd >= (0x1_0000_0000 - 3) * len);
    assert(n <= ll + 2 * len);
    assert(cd * len <= 0x1_0000_0000 * ll + 0x2_0000_0000 * len + 3 * ll);
    assert(cd <= 0x1_0000_0000 * len + 0x2_0000_0000 + 3 * len);
}

/// The dot product of a vector with its own direction is its length, give or
/// take a few units for each unit of length.
proof fn lemma_along_own_direction(
    c1: int,
    c2: int,
    c3: int,
    d1: int,
    d2: int,
    d3: int,
    len: int,
    al: int,
    m: int,
)
    requires
        1 <= m <= 0x10_0000,
        1 <= len <= 2 * m * 0x1_0000_0000,
        len * len <= c1 * c1 + c2 * c2 + c3 * c3 < (len + 1) * (len + 1),
        d1 * len <= c1 * 0x1_0000_0000 < d1 * len + len,
        d2 * len <= c2 * 0x1_0000_0000 < d2 * len + len,
        d3 * len <= c3 * 0x1_0000_0000 < d3 * len + len,
        0x1_0000_0000 * al <= c1 * d1 + c2 * d2 + c3 * d3 < 0x1_0000_0000 * al + 0x1_0000_0000,
    ensures
        -6 * m - 3 <= al - len <= 6 * m + 3,
{
    let s = 0x1_0000_0000int;
    let n = c1 * c1 + c2 * c2 + c3 * c3;
    let cd = c1 * d1 + c2 * d2 + c3 * d3;
    let r1 = c1 * s - d1 * len;
    let r2 = c2 * s - d2 * len;
    let r3 = c3 * s - d3 * len;
    lemma_coordinate_below_length(c1, c2, c3, len);
    lemma_coordinate_below_length(c2, c1, c3, len);
    lemma_coordinate_below_length(c3, c2, c1, len);
    lemma_own_direction_coordinate(c1, d1, len, r1);
    lemma_own_direction_coordinate(c2, d2, len, r2);
    lemma_own_direction_coordinate(c3, d3, len, r3);
    let cr = c1 * r1 + c2 * r2 + c3 * r3;
    lemma_dot_within(c1, c2, c3, r1, r2, r3, len, len, len * len);
    assert(cd * len == (c1 * d1) * len + (c2 * d2) * len + (c3 * d3) * len) by (nonlinear_arith)
        requires
            cd == c1 * d1 + c2 * d2 + c3 * d3,
    ;
    lemma_along_own_direction_sums(cd, len, n, cr, len * len, al, m);
}

/// One coordinate of what the projection leaves of a vector that runs
/// along the direction projected on: next to nothing.
proof fn lemma_aimed_rest_coordinate(
    c: int,
    d: int,
    u: int,
    p: int,
    len: int,
    an: int,
    m: int,
)
    requires
        1 <= m <= 0x10_0000,
        1 <= len <= 2 * m * 0x1_0000_0000,
        d * len <= c * 0x1_0000_0000 < d * len + len,
        -0x1_0000_0006 <= d <= 0x1_0000_0006,
        -7 <= u - d <= 7,
        -3 * m * 0x1_0000_0000 <= an <= 3 * m * 0x1_0000_0000,
        -27 * m - 4 <= an - len <= 27 * m + 4,
        0x1_0000_0000 * p <= u * an < 0x1_0000_0000 * p + 0x1_0000_0000,
    ensures
        -56 * m <= c - p <= 56 * m,
{
    let s = 0x1_0000_0000int;
    let first = d * (an - len);
    let second = (u - d) * an;
    assert(u * an - d * len == first + second) by (nonlinear_arith)
        requires
            first == d * (an - len),
            second == (u - d) * an,
    ;
    lemma_product_within(d, an - len, 0x1_0000_0006, 27 * m + 4);
    lemma_product_within(u - d, an, 7, 3 * m * s);
    assert(2 * m * s + 0x1_0000_0006 * (27 * m + 4) + 7 * (3 * m * s) + s <= 56 * m * s);
}

/// The length of a step along a direction of nearly unit length is the
/// number stepped by, give or take a little for each unit stepped.
proof fn lemma_step_length(
    d1: int,
    d2: int,
    d3: int,
    w1: int,
    w2: int,
    w3: int,
    t: int,
    m: int,
    mt: int,
)
    requires
        1 <= m <= 0x10_0000,
        0 <= t <= 5 * m * 0x1_0000_0000,
        mt == m * t,
        -0x1_0000_0006 <= d1 <= 0x1_0000_0006,
        -0x1_0000_0006 <= d2 <= 0x1_0000_0006,
        -0x1_0000_0006 <= d3 <= 0x1_0000_0006,
        -15 * 0x1_0000_0000 <= d1 * d1 + d2 * d2 + d3 * d3 - 0x1_0000_0000_0000_0000 <= 15
            * 0x1_0000_0000,
        0x1_0000_0000 * w1 <= d1 * t < 0x1_0000_0000 * w1 + 0x1_0000_0000,
        0x1_0000_0000 * w2 <= d2 * t < 0x1_0000_0000 * w2 + 0x1_0000_0000,
        0x1_0000_0000 * w3 <= d3 * t < 0x1_0000_0000 * w3 + 0x1_0000_0000,
    ensures
        -(82 * mt + 3) <= w1 * w1 + w2 * w2 + w3 * w3 - t * t <= 82 * mt + 3,
{
    let s = 0x1_0000_0000int;
    let ss = 0x1_0000_0000_0000_0000int;
    let g1 = d1 * t - s * w1;
    let g2 = d2 * t - s * w2;
    let g3 = d3 * t - s * w3;
    let ww = w1 * w1 + w2 * w2 + w3 * w3;
    let dd = d1 * d1 + d2 * d2 + d3 * d3;
    let tt = t * t;
    // (s w)^2 = (d t - g)^2 = d^2 t^2 - 2 t d g + g^2
    assert((s * w1) * (s * w1) == (d1 * d1) * tt - 2 * (t * (d1 * g1)) + g1 * g1)
        by (nonlinear_arith)
        requires
            g1 == d1 * t - s * w1,
            tt == t * t,
    ;
    assert((s * w2) * (s * w2) == (d2 * d2) * tt - 2 * (t * (d2 * g2)) + g2 * g2)
        by (nonlinear_arith)
        requires
            g2 == d2 * t - s * w2,
            tt == t * t,
    ;
    assert((s * w3) * (s * w3) == (d3 * d3) * tt - 2 * (t * (d3 * g3)) + g3 * g3)
        by (nonlinear_arith)
        requires
            g3 == d3 * t - s * w3,
            tt == t * t,
    ;
    lemma_scaled_dot(s, s, w1, w2, w3, w1, w2, w3, ss);
    let dg = d1 * g1 + d2 * g2 + d3 * g3;
    let gg = g1 * g1 + g2 * g2 + g3 * g3;
    lemma_distribute_three(t, d1 * g1, d2 * g2, d3 * g3);
    assert(dd * tt == (d1 * d1) * tt + (d2 * d2) * tt + (d3 * d3) * tt) by (nonlinear_arith)
        requires
            dd == d1 * d1 + d2 * d2 + d3 * d3,
    ;
    let tdg = t * dg;
    let ddtt = dd * tt;
    assert(ss * ww == ddtt - 2 * tdg + gg);
    let x = dd - ss;
    let xtt = x * tt;
    assert(ddtt == ss * tt + xtt) by (nonlinear_arith)
        requires
            ddtt == dd * tt,
            xtt == x * tt,
            x == dd - ss,
    ;
    lemma_step_length_sums(ww, tt, xtt, tdg, gg, x, dg, t, m, mt, g1, g2, g3, d1, d2, d3);
}

/// The last step of [`lemma_step_length`], over the sums alone.
proof fn lemma_step_length_sums(
    ww: int,
    tt: int,
    xtt: int,
    tdg: int,
    gg: int,
    x: int,
    dg: int,
    t: int,
    m: int,
    mt: int,
    g1: int,
    g2: int,
    g3: int,
    d1: int,
    d2: int,
    d3: int,
)
    requires
        1 <= m <= 0x10_0000,
        0 <= t <= 5 * m * 0x1_0000_0000,
        mt == m * t,
        tt == t * t,
        xtt == x * tt,
        tdg == t * dg,
        dg == d1 * g1 + d2 * g2 + d3 * g3,
        gg == g1 * g1 + g2 * g2 + g3 * g3,
        0 <= g1 < 0x1_0000_0000,
        0 <= g2 < 0x1_0000_0000,
        0 <= g3 < 0x1_0000_0000,
        -0x1_0000_0006 <= d1 <= 0x1_0000_0006,
        -0x1_0000_0006 <= d2 <= 0x1_0000_0006,
        -0x1_0000_0006 <= d3 <= 0x1_0000_0006,
        -15 * 0x1_0000_0000 <= x,
        x <= 15 * 0x1_0000_0000,
        0x1_0000_0000_0000_0000 * ww == 0x1_0000_0000_0000_0000 * tt + xtt - 2 * tdg + gg,
    ensures
        -(82 * mt + 3) <= ww - tt <= 82 * mt + 3,
{
    let s = 0x1_0000_0000int;
    let ss = 0x1_0000_0000_0000_0000int;
    assert(0 <= tt && tt <= 5 * mt * s && 0 <= mt) by (nonlinear_arith)
        requires
            tt == t * t,
            mt == m * t,
            0 <= t <= 5 * m * s,
            1 <= m,
            s == 0x1_0000_0000,
    ;
    lemma_product_within(x, tt, 15 * s, 5 * mt * s);
    assert((15 * s) * (5 * mt * s) == 75 * mt * ss) by (nonlinear_arith)
        requires
            s == 0x1_0000_0000,
            ss == 0x1_0000_0000_0000_0000,
    ;
    lemma_dot_within(d1, d2, d3, g1, g2, g3, 0x1_0000_0006, s, 0x1_0000_0006 * s);
    assert(t <= mt) by (nonlinear_arith)
        requires
            mt == m * t,
            1 <= m,
            0 <= t,
    ;
    lemma_product_within(t, dg, t, 3 * (0x1_0000_0006 * s));
    assert(2 * (t * (3 * (0x1_0000_0006 * s))) <= 7 * mt * ss) by (nonlinear_arith)
        requires
            0 <= t <= mt,
            s == 0x1_0000_0000,
            ss == 0x1_0000_0000_0000_0000,
    ;
    lemma_dot_within(g1, g2, g3, g1, g2, g3, s, s, ss);
    assert(0 <= g1 * g1 && 0 <= g2 * g2 && 0 <= g3 * g3) by (nonlinear_arith);
}

/// A number whose square is near the square of `t` has its integer square
/// root near `t`.
proof fn lemma_step_root(ww: int, t: int, m: int, mt: int, mm: int)
    requires
        1 <= m,
        0 <= t,
        mt == m * t,
        mm == m * m,
        0 <= ww,
        -(82 * mt + 3) <= ww - t * t <= 82 * mt + 3,
    ensures
        t - 83 * m <= isqrt(ww) <= t + 83 * m,
{
    lemma_isqrt(ww);
    let root = isqrt(ww);
    let e = 83 * m;
    assert(root <= t + e) by (nonlinear_arith)
        requires
            0 <= root,
            root * root <= ww,
            ww <= t * t + 82 * mt + 3,
            mt == m * t,
            mm == m * m,
            e == 83 * m,
            1 <= m,
            0 <= t,
    {
        if root > t + e {
            assert(root * root >= (t + e + 1) * (t + e + 1));
            assert((t + e + 1) * (t + e + 1) > t * t + 2 * e * t + e * e);
            assert(2 * e * t == 166 * mt);
            assert(e * e == 6889 * mm);
            assert(mm >= 1);
        }
    }
    assert(t - e <= root) by (nonlinear_arith)
        requires
            0 <= root,
            ww < (root + 1) * (root + 1),
            ww >= t * t - 82 * mt - 3,
            mt == m * t,
            mm == m * m,
            e == 83 * m,
            1 <= m,
            0 <= t,
    {
        if root < t - e {
            assert((root + 1) * (root + 1) <= (t - e) * (t - e));
            assert((t - e) * (t - e) == t * t - 2 * e * t + e * e);
            assert(2 * e * t == 166 * mt);
            assert(e * e == 6889 * mm);
            assert(t >= 83 * m + 1);
            assert(mt >= 83 * mm + m);
        }
    }
}

/// Half a chord is no shorter than the radius less the distance of the
/// chord from the centre.
proof fn lemma_half_chord_long(r: int, miss: int, half: int)
    by (nonlinear_arith)
    requires
        0 <= miss <= r,
        0 <= half,
        r * r - miss * miss > 0 ==> half * half <= r * r - miss * miss < (half + 1) * (half
            + 1),
        r * r - miss * miss <= 0 ==> half == 0,
    ensures
        r - miss <= half <= r,
{
    if r * r - miss * miss > 0 {
        assert((r - miss) * (r - miss) <= r * r - miss * miss);
        if half < r - miss {
            assert((half + 1) * (half + 1) <= (r - miss) * (r - miss));
        }
        if half > r {
            assert(half * half >= (r + 1) * (r + 1));
        }
    } else {
        assert(miss == r);
    }
}

/// The ray from `origin` toward the centre of a sphere.
pub open spec fn ray_at_centre(sphere: Sphere, origin: Vox) -> Ray {
    Ray::new(sphere.center.minus(origin)).set_origin(origin)
}

/// A ray aimed at the centre of a sphere from outside meets the
/// sphere, and little is left of the way to the centre beside the ray.
proof fn lemma_aimed_ray_meets(sphere: Sphere, origin: Vox, m: int)
    requires
        within_reach(origin),
        within_reach(sphere.center),
        1 <= m <= 0x10_0000,
        -m * SCALE <= sphere.center.x.raw - origin.x.raw <= m * SCALE,
        -m * SCALE <= sphere.center.y.raw - origin.y.raw <= m * SCALE,
        -m * SCALE <= sphere.center.z.raw - origin.z.raw <= m * SCALE,
        sphere.center.minus(origin).l2().raw >= SCALE / 2,
        97 * m <= sphere.radius.raw <= m * SCALE,
    ensures
        ({
            let ray = ray_at_centre(sphere, origin);
            let cc = sphere.center.minus(origin);
            let al = cc.dot(&ray.direction);
            &&& is_near_unit(ray.direction)
            &&& ray.origin == origin
            &&& sphere.to_center(&ray) == cc
            &&& 0 <= sphere.miss_distance(&ray).raw <= 97 * m
            &&& -6 * m - 3 <= al.raw - cc.l2().raw <= 6 * m + 3
            &&& -4 * m * 0x1_0000_0000 <= al.raw <= 4 * m * 0x1_0000_0000
        }),
{
    let s = 0x1_0000_0000int;
    let cc = sphere.center.minus(origin);
    let ray = ray_at_centre(sphere, origin);
    let d = ray.direction;
    assert(d == cc.normalized());
    lemma_normalized_length(cc);
    lemma_near_unit(d);
    lemma_projection_of_centre(sphere, ray, m);
    let n = cc.norm_squared();
    assert(0 <= n <= 0x1000_0000_0000_0000_0000_0000_0000_0000) by (nonlinear_arith)
        requires
            n == cc.x.raw * cc.x.raw + cc.y.raw * cc.y.raw + cc.z.raw * cc.z.raw,
            -0x10_0000_0000_0000 <= cc.x.raw <= 0x10_0000_0000_0000,
            -0x10_0000_0000_0000 <= cc.y.raw <= 0x10_0000_0000_0000,
            -0x10_0000_0000_0000 <= cc.z.raw <= 0x10_0000_0000_0000,
    ;
    lemma_isqrt(n);
    let len = isqrt(n);
    assert(len <= 2 * m * s) by (nonlinear_arith)
        requires
            0 <= len,
            len * len <= n,
            n == cc.x.raw * cc.x.raw + cc.y.raw * cc.y.raw + cc.z.raw * cc.z.raw,
            -m * s <= cc.x.raw <= m * s,
            -m * s <= cc.y.raw <= m * s,
            -m * s <= cc.z.raw <= m * s,
            1 <= m,
    {
        let b = m * s;
        assert(n <= 3 * (b * b));
        if len > 2 * b {
            assert(len * len >= (2 * b + 1) * (2 * b + 1));
        }
    }
    assert(cc.l2().raw == len);
    lemma_fundamental_div_mod(cc.x.raw * SCALE, len);
    lemma_fundamental_div_mod(cc.y.raw * SCALE, len);
    lemma_fundamental_div_mod(cc.z.raw * SCALE, len);
    let d1 = (cc.x.raw * SCALE) / len;
    let d2 = (cc.y.raw * SCALE) / len;
    let d3 = (cc.z.raw * SCALE) / len;
    assert(d1 * len <= cc.x.raw * 0x1_0000_0000 < d1 * len + len) by (nonlinear_arith)
        requires
            cc.x.raw * SCALE == len * d1 + (cc.x.raw * SCALE) % len,
            0 <= (cc.x.raw * SCALE) % len < len,
            SCALE == 0x1_0000_0000,
    ;
    assert(d2 * len <= cc.y.raw * 0x1_0000_0000 < d2 * len + len) by (nonlinear_arith)
        requires
            cc.y.raw * SCALE == len * d2 + (cc.y.raw * SCALE) % len,
            0 <= (cc.y.raw * SCALE) % len < len,
            SCALE == 0x1_0000_0000,
    ;
    assert(d3 * len <= cc.z.raw * 0x1_0000_0000 < d3 * len + len) by (nonlinear_arith)
        requires
            cc.z.raw * SCALE == len * d3 + (cc.z.raw * SCALE) % len,
            0 <= (cc.z.raw * SCALE) % len < len,
            SCALE == 0x1_0000_0000,
    ;
    lemma_normalized_squared_length(
        cc.x.raw as int,
        cc.y.raw as int,
        cc.z.raw as int,
        d1,
        d2,
        d3,
        len,
    );
    assert(d.x.raw == d1 && d.y.raw == d2 && d.z.raw == d3);
    lemma_dot_exact(cc, d, m * s, 0x1_0000_0006, (m * s) * 0x1_0000_0006);
    let al = cc.dot(&d);
    lemma_along_own_direction(
        cc.x.raw as int,
        cc.y.raw as int,
        cc.z.raw as int,
        d1,
        d2,
        d3,
        len,
        al.raw as int,
        m,
    );
    let un = d.normalized();
    let an = cc.dot(&un);
    let proj = cc.project_on(&d);
    let perp = cc.minus(proj);
    lemma_aimed_rest_coordinate(
        cc.x.raw as int,
        d1,
        un.x.raw as int,
        proj.x.raw as int,
        len,
        an.raw as int,
        m,
    );
    lemma_aimed_rest_coordinate(
        cc.y.raw as int,
        d2,
        un.y.raw as int,
        proj.y.raw as int,
        len,
        an.raw as int,
        m,
    );
    lemma_aimed_rest_coordinate(
        cc.z.raw as int,
        d3,
        un.z.raw as int,
        proj.z.raw as int,
        len,
        an.raw as int,
        m,
    );
    let pp = perp.norm_squared();
    let mm = m * m;
    assert(0 <= pp <= 9408 * mm) by (nonlinear_arith)
        requires
            pp == perp.x.raw * perp.x.raw + perp.y.raw * perp.y.raw + perp.z.raw * perp.z.raw,
            -56 * m <= perp.x.raw <= 56 * m,
            -56 * m <= perp.y.raw <= 56 * m,
            -56 * m <= perp.z.raw <= 56 * m,
            mm == m * m,
    ;
    lemma_isqrt(pp);
    let miss = isqrt(pp);
    assert(miss <= 97 * m) by (nonlinear_arith)
        requires
            0 <= miss,
            miss * miss <= pp,
            pp <= 9408 * mm,
            mm == m * m,
            1 <= m,
    {
        if miss > 97 * m {
            assert(miss * miss >= (97 * m + 1) * (97 * m + 1));
        }
    }
    assert(sphere.miss_distance(&ray).raw == miss);
}

/// A ray aimed at the centre of a sphere from outside meets the sphere at
/// the distance to the centre less the radius, give or take `256 m` units of
/// the last place, where `m` is a whole number that bounds the radius and the
/// distance from the origin to the centre along each axis. The centre is to
/// be at least half a unit away, so that the direction to it can be told,
/// the radius at least `97 m` units of the last place, so that the ray does
/// not pass the sphere by, and the origin at least `10 m` such units outside.
pub proof fn lemma_aimed_ray_hit_distance(sphere: Sphere, origin: Vox, m: int)
    requires
        within_reach(origin),
        within_reach(sphere.center),
        1 <= m <= 0x10_0000,
        -m * SCALE <= sphere.center.x.raw - origin.x.raw <= m * SCALE,
        -m * SCALE <= sphere.center.y.raw - origin.y.raw <= m * SCALE,
        -m * SCALE <= sphere.center.z.raw - origin.z.raw <= m * SCALE,
        sphere.center.minus(origin).l2().raw >= SCALE / 2,
        97 * m <= sphere.radius.raw <= m * SCALE,
        sphere.radius.raw + 10 * m <= sphere.center.minus(origin).l2().raw,
    ensures
        sphere.spec_ray_intersect(&ray_at_centre(sphere, origin)) matches HitPoint::Point(p)
            && sphere.center.minus(origin).l2().raw - sphere.radius.raw - 256 * m <= p.minus(
            origin,
        ).l2().raw <= sphere.center.minus(origin).l2().raw - sphere.radius.raw + 256 * m,
{
    let s = 0x1_0000_0000int;
    let r = sphere.radius.raw as int;
    let cc = sphere.center.minus(origin);
    let ray = ray_at_centre(sphere, origin);
    let d = ray.direction;
    let len = cc.l2().raw as int;
    lemma_aimed_ray_meets(sphere, origin, m);
    lemma_near_unit(d);
    let al = cc.dot(&d);
    let miss = sphere.miss_distance(&ray).raw as int;
    // half the chord
    let gap = r * r - miss * miss;
    assert(0 <= gap <= r * r) by (nonlinear_arith)
        requires
            gap == r * r - miss * miss,
            0 <= miss <= r,
    ;
    if gap > 0 {
        lemma_isqrt(gap);
        assert(isqrt(gap) <= r) by (nonlinear_arith)
            requires
                0 <= isqrt(gap),
                isqrt(gap) * isqrt(gap) <= gap,
                gap <= r * r,
                0 <= r,
        ;
    }
    let half = sphere.half_chord(&ray).raw as int;
    lemma_half_chord_long(r, miss, half);
    let near = sphere.near_root(&ray);
    let t = near.raw as int;
    assert(t == al.raw - half);
    assert(t > 0);
    assert(sphere.spec_ray_intersect(&ray) == HitPoint::Point(ray.walk_dir(near)));
    // the step to the point
    lemma_times_exact(d.x, near, 0x1_0000_0006, 5 * m * s);
    lemma_times_exact(d.y, near, 0x1_0000_0006, 5 * m * s);
    lemma_times_exact(d.z, near, 0x1_0000_0006, 5 * m * s);
    let w = d.walk_dir(near);
    let hit = ray.walk_dir(near);
    assert(hit == origin.plus(w));
    let back = hit.minus(origin);
    assert(back == w);
    let mt = m * t;
    lemma_step_length(
        d.x.raw as int,
        d.y.raw as int,
        d.z.raw as int,
        w.x.raw as int,
        w.y.raw as int,
        w.z.raw as int,
        t,
        m,
        mt,
    );
    let ww = w.norm_squared();
    assert(ww >= 0) by (nonlinear_arith)
        requires
            ww == w.x.raw * w.x.raw + w.y.raw * w.y.raw + w.z.raw * w.z.raw,
    ;
    lemma_step_root(ww, t, m, mt, m * m);
}

/// The last step of [`lemma_hit_on_plane`], over the sums alone: how far
/// from the plane the ray has come after `t`.
proof fn lemma_plane_rest(
    nw: int,
    nd: int,
    np: int,
    ns: int,
    ap: int,
    off: int,
    t: int,
    m: int,
)
    by (nonlinear_arith)
    requires
        1 <= m,
        0 <= t <= m * 0x1_0000_0000,
        0x1_0000_0000 * nw == t * nd - ns,
        0x1_0000_0000 * ap <= nd < 0x1_0000_0000 * ap + 0x1_0000_0000,
        0x1_0000_0000 * off <= np < 0x1_0000_0000 * off + 0x1_0000_0000,
        -3 * 0x1_0000_0006 * 0x1_0000_0000 <= ns,
        ns <= 3 * 0x1_0000_0006 * 0x1_0000_0000,
        -4 * 0x1_0000_0000 <= ap,
        ap <= 4 * 0x1_0000_0000,
        ap > 0 ==> t * ap <= off * 0x1_0000_0000 < t * ap + ap,
        ap < 0 ==> t * (-ap) <= (-off) * 0x1_0000_0000 < t * (-ap) + (-ap),
        ap != 0,
    ensures
        -(m + 9) * 0x1_0000_0000 <= nw - np <= (m + 9) * 0x1_0000_0000,
{
    let s = 0x1_0000_0000int;
    let gamma = nd - s * ap;
    let beta = np - s * off;
    let tau = t * ap - s * off;
    assert(-4 * s <= tau <= 4 * s);
    assert(t * nd == s * (t * ap) + t * gamma);
    assert(s * (nw - np) == s * tau + t * gamma - ns - s * beta);
    assert(0 <= t * gamma <= t * s);
    assert(t * s <= m * s * s);
}

/// The normal of the plane and the direction of the ray are of nearly unit
/// length, the plane's point lies within `m` whole units of the ray's origin
/// along each axis, and the ray meets the plane no farther away.
pub open spec fn plane_in_range(plane: Plane, ray: Ray, m: int) -> bool {
    &&& is_near_unit(plane.normal)
    &&& is_near_unit(ray.direction)
    &&& within_reach(ray.origin)
    &&& within_reach(plane.point)
    &&& 1 <= m <= 0x10_0000
    &&& -m * SCALE <= plane.point.x.raw - ray.origin.x.raw <= m * SCALE
    &&& -m * SCALE <= plane.point.y.raw - ray.origin.y.raw <= m * SCALE
    &&& -m * SCALE <= plane.point.z.raw - ray.origin.z.raw <= m * SCALE
    &&& plane.reach(&ray).raw <= m * SCALE
}

/// Where a ray meets a plane within `m` whole units of its origin, the point
/// lies on the plane: its offset from the plane's point, measured along the
/// plane's normal, is at most `m + 9` units of the last place. The normal
/// and the direction of the ray are to be of nearly unit length.
pub proof fn lemma_hit_on_plane(plane: Plane, ray: Ray, m: int)
    requires
        plane_in_range(plane, ray, m),
    ensures
        plane.spec_ray_intersect(&ray) matches HitPoint::Point(p) ==> -(m + 10)
            <= plane.normal.dot(&p.minus(plane.point)).raw <= m + 9,
{
    let s = 0x1_0000_0000int;
    let n = plane.normal;
    let d = ray.direction;
    lemma_near_unit(n);
    lemma_near_unit(d);
    let po = plane.point.minus(ray.origin);
    assert(po.x.raw == plane.point.x.raw - ray.origin.x.raw);
    assert(po.y.raw == plane.point.y.raw - ray.origin.y.raw);
    assert(po.z.raw == plane.point.z.raw - ray.origin.z.raw);
    lemma_dot_exact(n, po, 0x1_0000_0006, m * s, 0x1_0000_0006 * (m * s));
    lemma_dot_exact(n, d, 0x1_0000_0006, 0x1_0000_0006, 0x1_0000_000c_0000_0024);
    let off = plane.offset(&ray);
    let ap = plane.approach(&ray);
    assert(off == n.dot(&po));
    assert(ap == n.dot(&d));
    if plane.faces(&ray) && plane.reach(&ray).raw > 0 {
        let t = plane.reach(&ray);
        let num = off.raw * SCALE;
        if ap.raw > 0 {
            lemma_fundamental_div_mod(num, ap.raw as int);
            assert(t.raw * ap.raw <= off.raw * 0x1_0000_0000 < t.raw * ap.raw + ap.raw)
                by (nonlinear_arith)
                requires
                    num == ap.raw * (num / (ap.raw as int)) + num % (ap.raw as int),
                    0 <= num % (ap.raw as int) < ap.raw,
                    num == off.raw * 0x1_0000_0000,
                    t.raw == num / (ap.raw as int),
            ;
        } else {
            lemma_fundamental_div_mod(-num, -(ap.raw as int));
            assert(t.raw * (-ap.raw) <= (-off.raw) * 0x1_0000_0000 < t.raw * (-ap.raw) + (
            -ap.raw)) by (nonlinear_arith)
                requires
                    -num == (-ap.raw) * ((-num) / (-(ap.raw as int))) + (-num) % (-(ap.raw
                        as int)),
                    0 <= (-num) % (-(ap.raw as int)) < -ap.raw,
                    num == off.raw * 0x1_0000_0000,
                    t.raw == (-num) / (-(ap.raw as int)),
            ;
        }
        lemma_times_exact(d.x, t, 0x1_0000_0006, m * s);
        lemma_times_exact(d.y, t, 0x1_0000_0006, m * s);
        lemma_times_exact(d.z, t, 0x1_0000_0006, m * s);
        let w = d.walk_dir(t);
        let hit = ray.walk_dir(t);
        assert(hit == ray.origin.plus(w));
        let q = hit.minus(plane.point);
        assert(q.x.raw == w.x.raw - po.x.raw);
        assert(q.y.raw == w.y.raw - po.y.raw);
        assert(q.z.raw == w.z.raw - po.z.raw);
        let g1 = d.x.raw * t.raw - s * w.x.raw;
        let g2 = d.y.raw * t.raw - s * w.y.raw;
        let g3 = d.z.raw * t.raw - s * w.z.raw;
        let nw = n.raw_dot(&w);
        let nd = n.raw_dot(&d);
        let np = n.raw_dot(&po);
        let ns = n.x.raw * g1 + n.y.raw * g2 + n.z.raw * g3;
        lemma_dot_within(
            n.x.raw as int,
            n.y.raw as int,
            n.z.raw as int,
            g1,
            g2,
            g3,
            0x1_0000_0006,
            s,
            0x1_0000_0006 * s,
        );
        assert(s * (n.x.raw * w.x.raw) == t.raw * (n.x.raw * d.x.raw) - n.x.raw * g1)
            by (nonlinear_arith)
            requires
                g1 == d.x.raw * t.raw - s * w.x.raw,
        ;
        assert(s * (n.y.raw * w.y.raw) == t.raw * (n.y.raw * d.y.raw) - n.y.raw * g2)
            by (nonlinear_arith)
            requires
                g2 == d.y.raw * t.raw - s * w.y.raw,
        ;
        assert(s * (n.z.raw * w.z.raw) == t.raw * (n.z.raw * d.z.raw) - n.z.raw * g3)
            by (nonlinear_arith)
            requires
                g3 == d.z.raw * t.raw - s * w.z.raw,
        ;
        lemma_distribute_three(
            t.raw as int,
            n.x.raw * d.x.raw,
            n.y.raw * d.y.raw,
            n.z.raw * d.z.raw,
        );
        lemma_plane_rest(nw, nd, np, ns, ap.raw as int, off.raw as int, t.raw as int, m);
        assert(n.raw_dot(&q) == nw - np) by (nonlinear_arith)
            requires
                q.x.raw == w.x.raw - po.x.raw,
                q.y.raw == w.y.raw - po.y.raw,
                q.z.raw == w.z.raw - po.z.raw,
                nw == n.x.raw * w.x.raw + n.y.raw * w.y.raw + n.z.raw * w.z.raw,
                np == n.x.raw * po.x.raw + n.y.raw * po.y.raw + n.z.raw * po.z.raw,
                n.raw_dot(&q) == n.x.raw * q.x.raw + n.y.raw * q.y.raw + n.z.raw * q.z.raw,
        ;
    }
}

} // verus!
