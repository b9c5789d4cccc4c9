//! The things a scene is made of: rays, materials, lights and shapes.

use crate::fixed::{Fixed, SCALE};
use crate::geometry::{
    is_near_unit, lemma_hit_on_plane, lemma_hit_on_sphere, plane_in_range, sphere_in_range,
};
use crate::voxel::Vox;
use vstd::prelude::*;

verus! {

/// A colour of eight bits per channel.
#[derive(Clone, Copy, Debug, PartialEq, Eq, Structural)]
pub struct Rgb8 {
    pub r: u8,
    pub g: u8,
    pub b: u8,
}

/// The eight-bit value of a colour channel: the channel is held to the
/// interval from zero to one, multiplied by 255 and rounded to the nearest
/// whole number, a half going up.
pub open spec fn channel_byte(c: Fixed) -> u8 {
    ((255 * c.clamp_unit().raw + 0x8000_0000) / 0x1_0000_0000) as u8
}

/// Computes [`channel_byte`].
pub fn to_channel(c: Fixed) -> (v: u8)
    ensures
        v == channel_byte(c),
{
    let unit = c.clamp_unit();
    let scaled: i64 = 255 * unit.raw + 0x8000_0000;
    (scaled / 0x1_0000_0000) as u8
}

/// Diffuse, specular, reflective and refractive weight, in this order.
pub type MaterialMixingWeights = (Fixed, Fixed, Fixed, Fixed);

/// A colour and the way a surface of it answers to light.
#[derive(Clone, Copy, Debug, PartialEq, Eq)]
pub struct Material {
    /// Red, green and blue, each from zero to one.
    pub color: (Fixed, Fixed, Fixed),
    /// The colour as it is drawn.
    pub pixel: Rgb8,
    /// How sharply the surface mirrors a light: the power to which the
    /// specular term is raised.
    pub specular_exponent: u32,
    /// How much the surface bends a ray that enters it.
    pub refraction_index: Fixed,
    pub diff_mixing_coef: Fixed,
    pub spec_mixing_coef: Fixed,
    pub reflection_mixing_coef: Fixed,
    pub refraction_mixing_coef: Fixed,
}

/// One channel after shading: `c * diff_albedo + white_shift`, held to the
/// interval from zero to one.
pub open spec fn shaded_channel(c: Fixed, diff_albedo: Fixed, white_shift: Fixed) -> Fixed {
    c.times(diff_albedo).plus(white_shift).clamp_unit()
}

/// One channel after another colour is mixed in: `c1 + coef * c2`, held to
/// the interval from zero to one.
pub open spec fn mixed_channel(c1: Fixed, c2: Fixed, coef: Fixed) -> Fixed {
    c1.plus(coef.times(c2)).clamp_unit()
}

impl Material {
    /// The pixel that a colour is drawn as.
    pub open spec fn pixel_of(color: (Fixed, Fixed, Fixed)) -> Rgb8 {
        Rgb8 { r: channel_byte(color.0), g: channel_byte(color.1), b: channel_byte(color.2) }
    }

    /// Computes [`Material::pixel_of`].
    pub fn _to_pixel(color: (Fixed, Fixed, Fixed)) -> (p: Rgb8)
        ensures
            p == Material::pixel_of(color),
    {
        Rgb8 { r: to_channel(color.0), g: to_channel(color.1), b: to_channel(color.2) }
    }

    /// The pixel agrees with the colour.
    pub open spec fn wf(&self) -> bool {
        self.pixel == Material::pixel_of(self.color)
    }

    /// Every channel of the colour lies between zero and one.
    pub open spec fn in_gamut(&self) -> bool {
        &&& 0 <= self.color.0.raw <= SCALE
        &&& 0 <= self.color.1.raw <= SCALE
        &&& 0 <= self.color.2.raw <= SCALE
    }

    pub open spec fn spec_new(
        color: (Fixed, Fixed, Fixed),
        weights: MaterialMixingWeights,
        specular_exponent: u32,
        refraction_index: Fixed,
    ) -> Material {
        Material {
            color,
            pixel: Material::pixel_of(color),
            specular_exponent,
            refraction_index,
            diff_mixing_coef: weights.0,
            spec_mixing_coef: weights.1,
            reflection_mixing_coef: weights.2,
            refraction_mixing_coef: weights.3,
        }
    }

    /// A material of the given colour, weights, specular exponent and
    /// refractive index.
    #[verifier::when_used_as_spec(spec_new)]
    pub fn new(
        color: (Fixed, Fixed, Fixed),
        weights: MaterialMixingWeights,
        specular_exponent: u32,
        refraction_index: Fixed,
    ) -> (m: Material)
        ensures
            m == Material::spec_new(color, weights, specular_exponent, refraction_index),
            m.wf(),
    {
        let pixel = Self::_to_pixel(color);
        let (diff_mixing_coef, spec_mixing_coef, reflection_mixing_coef, refraction_mixing_coef) =
            weights;
        Material {
            color,
            pixel,
            specular_exponent,
            refraction_index,
            diff_mixing_coef,
            spec_mixing_coef,
            reflection_mixing_coef,
            refraction_mixing_coef,
        }
    }

    /// The same material with another colour, and the pixel that goes with it.
    pub open spec fn with_color(self, color: (Fixed, Fixed, Fixed)) -> Material {
        Material { color, pixel: Material::pixel_of(color), ..self }
    }

    pub open spec fn spec_adjust_light(self, diffuse: Fixed, specular: Fixed) -> Material {
        let diff_albedo = diffuse.times(self.diff_mixing_coef);
        let white_shift = specular.times(self.spec_mixing_coef);
        self.with_color(
            (
                shaded_channel(self.color.0, diff_albedo, white_shift),
                shaded_channel(self.color.1, diff_albedo, white_shift),
                shaded_channel(self.color.2, diff_albedo, white_shift),
            ),
        )
    }

    /// The material as it appears under the given sums of diffuse and
    /// specular light: each channel becomes
    /// `channel * (diffuse * diffuse weight) + specular * specular weight`,
    /// held to the interval from zero to one.
    #[verifier::when_used_as_spec(spec_adjust_light)]
    pub fn adjust_light(self, diffuse: Fixed, specular: Fixed) -> (m: Material)
        ensures
            m == self.spec_adjust_light(diffuse, specular),
            m.wf(),
            m.in_gamut(),
    {
        let (r, g, b) = self.color;
        let diff_albedo = diffuse * self.diff_mixing_coef;
        let white_shift = specular * self.spec_mixing_coef;
        let color = (
            (r * diff_albedo + white_shift).clamp_unit(),
            (g * diff_albedo + white_shift).clamp_unit(),
            (b * diff_albedo + white_shift).clamp_unit(),
        );
        let mut m = self;
        m.color = color;
        m.pixel = Self::_to_pixel(color);
        m
    }

    /// This material with `coef` times the colour of `other` added, channel
    /// by channel, each held to the interval from zero to one.
    pub open spec fn mixed(self, other: Material, coef: Fixed) -> Material {
        self.with_color(
            (
                mixed_channel(self.color.0, other.color.0, coef),
                mixed_channel(self.color.1, other.color.1, coef),
                mixed_channel(self.color.2, other.color.2, coef),
            ),
        )
    }

    /// Computes [`Material::mixed`].
    pub fn _mix_materials(self, other: Material, coef: Fixed) -> (m: Material)
        ensures
            m == self.mixed(other, coef),
            m.wf(),
            m.in_gamut(),
    {
        let (r1, g1, b1) = self.color;
        let (r2, g2, b2) = other.color;
        let color = (
            (r1 + coef * r2).clamp_unit(),
            (g1 + coef * g2).clamp_unit(),
            (b1 + coef * b2).clamp_unit(),
        );
        let mut m = self;
        m.color = color;
        m.pixel = Self::_to_pixel(color);
        m
    }

    pub open spec fn spec_mix_reflection(self, other: Material) -> Material {
        self.mixed(other, self.reflection_mixing_coef)
    }

    /// This material with the colour of `other` mixed in by this material's
    /// reflective weight.
    #[verifier::when_used_as_spec(spec_mix_reflection)]
    pub fn mix_reflection(self, other: Material) -> (m: Material)
        ensures
            m == self.spec_mix_reflection(other),
            m.wf(),
            m.in_gamut(),
    {
        self._mix_materials(other, self.reflection_mixing_coef)
    }

    pub open spec fn spec_mix_refraction(self, other: Material) -> Material {
        self.mixed(other, self.refraction_mixing_coef)
    }

    /// This material with the colour of `other` mixed in by this material's
    /// refractive weight.
    #[verifier::when_used_as_spec(spec_mix_refraction)]
    pub fn mix_refraction(self, other: Material) -> (m: Material)
        ensures
            m == self.spec_mix_refraction(other),
            m.wf(),
            m.in_gamut(),
    {
        self._mix_materials(other, self.refraction_mixing_coef)
    }

    /// The background: a sky blue that scatters all light and mirrors none.
    /// Its channels are the nearest fixed-point numbers to 0.2, 0.7 and 0.8.
    pub open spec fn background() -> Material {
        Material::spec_new(
            (Fixed { raw: 858993459 }, Fixed { raw: 3006477107 }, Fixed { raw: 3435973837 }),
            (Fixed::one(), Fixed::zero(), Fixed::zero(), Fixed::zero()),
            1,
            Fixed::one(),
        )
    }
}

impl Default for Material {
    /// The background material.
    fn default() -> (m: Material)
        ensures
            m == Material::background(),
            m.wf(),
            m.pixel == (Rgb8 { r: 51, g: 178, b: 204 }),
    {
        let weights: MaterialMixingWeights = (
            Fixed::one(),
            Fixed::zero(),
            Fixed::zero(),
            Fixed::zero(),
        );
        Material::new(
            (Fixed::from_raw(858993459), Fixed::from_raw(3006477107), Fixed::from_raw(3435973837)),
            weights,
            1,
            Fixed::one(),
        )
    }
}

/// A point light.
#[derive(Clone, Copy, Debug, PartialEq, Eq, Structural)]
pub struct LightSource {
    pub position: Vox,
    pub intensity: Fixed,
}

/// A half-line: where it starts and which way it goes.
#[derive(Clone, Copy, Debug, PartialEq, Eq, Structural)]
pub struct Ray {
    pub origin: Vox,
    /// The direction, scaled to unit length when the ray is made.
    pub direction: Vox,
}

impl Ray {
    pub open spec fn spec_new(dir: Vox) -> Ray {
        Ray { origin: Vox::orig(), direction: dir.normalized() }
    }

    /// The ray from the origin in the direction of `dir`, which is scaled to
    /// unit length, as far as [`Vox::normalized`] does it.
    #[verifier::when_used_as_spec(spec_new)]
    pub fn new(dir: Vox) -> (r: Ray)
        ensures
            r == Ray::spec_new(dir),
            r.origin == Vox::orig(),
            r.direction == dir.normalized(),
            -SCALE <= r.direction.x.raw <= SCALE,
            -SCALE <= r.direction.y.raw <= SCALE,
            -SCALE <= r.direction.z.raw <= SCALE,
            dir.l2().raw >= SCALE / 2 ==> is_near_unit(r.direction),
    {
        Ray { origin: Vox::orig(), direction: dir.normalized() }
    }

    pub open spec fn spec_set_origin(self, origin: Vox) -> Ray {
        Ray { origin, direction: self.direction }
    }

    /// The same ray moved to start at `origin`.
    #[verifier::when_used_as_spec(spec_set_origin)]
    pub fn set_origin(self, origin: Vox) -> (r: Ray)
        ensures
            r == self.spec_set_origin(origin),
    {
        let mut r = self;
        r.origin = origin;
        r
    }

    pub open spec fn spec_walk_dir(&self, distance: Fixed) -> Vox {
        self.origin.plus(self.direction.walk_dir(distance))
    }

    /// The point at the given distance along the ray.
    #[verifier::when_used_as_spec(spec_walk_dir)]
    pub fn walk_dir(&self, distance: Fixed) -> (p: Vox)
        ensures
            p == self.spec_walk_dir(distance),
    {
        self.origin + self.direction.walk_dir(distance)
    }
}

/// Where a ray meets a shape, if it does.
#[derive(Clone, Copy, Debug, PartialEq, Eq)]
pub enum HitPoint {
    Point(Vox),
    Miss,
}

/// What a shape must answer for a ray to be traced against it.
pub trait RayCollision {
    /// The nearest point ahead of the ray's origin at which the ray meets
    /// the shape.
    spec fn intersection(&self, ray: &Ray) -> HitPoint;

    /// The outward direction at a point of the surface.
    spec fn normal_at(&self, hit_point: Vox) -> Vox;

    /// The material at a point of the surface.
    spec fn material_at(&self, hit_point: Vox) -> Material;

    fn ray_intersect(&self, ray: &Ray) -> (hit: HitPoint)
        ensures
            hit == self.intersection(ray),
    ;

    fn collision_normal(&self, hit_point: Vox) -> (normal: Vox)
        ensures
            normal == self.normal_at(hit_point),
    ;

    fn collision_material(&self, hit_point: Vox) -> (material: Material)
        ensures
            material == self.material_at(hit_point),
    ;
}

/// An unbounded plane through `point`, facing along `normal`.
#[derive(Clone, Copy, Debug)]
pub struct Plane {
    pub normal: Vox,
    pub point: Vox,
}

impl Plane {
    /// How far the plane lies from the ray's origin, measured along the
    /// plane's normal.
    pub open spec fn offset(&self, ray: &Ray) -> Fixed {
        self.normal.dot(&self.point.minus(ray.origin))
    }

    /// How fast the ray approaches the plane: its direction measured along
    /// the plane's normal.
    pub open spec fn approach(&self, ray: &Ray) -> Fixed {
        self.normal.dot(&ray.direction)
    }

    /// The distance along the ray at which it meets the plane.
    pub open spec fn reach(&self, ray: &Ray) -> Fixed {
        self.offset(ray).over(self.approach(ray))
    }

    /// The ray runs toward the plane: offset and approach are both positive
    /// or both negative, which leaves out a ray parallel to the plane and one
    /// that starts on it.
    pub open spec fn faces(&self, ray: &Ray) -> bool {
        let offset = self.offset(ray).raw;
        let approach = self.approach(ray).raw;
        (offset > 0 && approach > 0) || (offset < 0 && approach < 0)
    }

    pub open spec fn spec_ray_intersect(&self, ray: &Ray) -> HitPoint {
        if self.faces(ray) && self.reach(ray).raw > 0 {
            HitPoint::Point(ray.walk_dir(self.reach(ray)))
        } else {
            HitPoint::Miss
        }
    }

    /// A ray that runs toward the plane meets it at the distance
    /// [`Plane::reach`], unless that distance rounds to zero; any other ray
    /// misses.
    ///
    /// The point lies on the plane, as nearly as the rounding allows: where
    /// normal and direction are of nearly unit length, within `m + 10` units
    /// of the last place if the ray meets the plane within `m` whole units
    /// ([`crate::geometry::lemma_hit_on_plane`]).
    #[verifier::when_used_as_spec(spec_ray_intersect)]
    pub fn ray_intersect(&self, ray: &Ray) -> (hit: HitPoint)
        ensures
            hit == self.spec_ray_intersect(ray),
            forall|m: int|
                #![trigger plane_in_range(*self, *ray, m)]
                plane_in_range(*self, *ray, m) ==> (hit matches HitPoint::Point(p) ==> -(m + 10)
                    <= self.normal.dot(&p.minus(self.point)).raw <= m + 9),
    {
        proof {
            assert forall|m: int| plane_in_range(*self, *ray, m) implies (self.spec_ray_intersect(
                ray,
            ) matches HitPoint::Point(p) ==> -(m + 10) <= self.normal.dot(
                &p.minus(self.point),
            ).raw <= m + 9) by {
                lemma_hit_on_plane(*self, *ray, m);
            }
        }
        let orig_to_point = self.point - ray.origin;
        let origin_to_plane_dist = self.normal.dot(&orig_to_point);
        let cos_dir_norm = self.normal.dot(&ray.direction);
        let toward = (origin_to_plane_dist.raw > 0 && cos_dir_norm.raw > 0) || (
        origin_to_plane_dist.raw < 0 && cos_dir_norm.raw < 0);
        if toward {
            let dist_to_collision = origin_to_plane_dist / cos_dir_norm;
            if dist_to_collision.raw > 0 {
                HitPoint::Point(ray.walk_dir(dist_to_collision))
            } else {
                HitPoint::Miss
            }
        } else {
            HitPoint::Miss
        }
    }

    /// The plane's normal, whatever the point.
    pub fn collision_normal(&self, hit_point: Vox) -> (normal: Vox)
        ensures
            normal == self.normal,
    {
        self.normal
    }

    /// A plane is made of the background material.
    pub fn collision_material(&self, hit_point: Vox) -> (material: Material)
        ensures
            material == Material::background(),
    {
        Material::default()
    }
}

impl RayCollision for Plane {
    open spec fn intersection(&self, ray: &Ray) -> HitPoint {
        self.spec_ray_intersect(ray)
    }

    open spec fn normal_at(&self, hit_point: Vox) -> Vox {
        self.normal
    }

    open spec fn material_at(&self, hit_point: Vox) -> Material {
        Material::background()
    }

    fn ray_intersect(&self, ray: &Ray) -> (hit: HitPoint) {
        Plane::ray_intersect(self, ray)
    }

    fn collision_normal(&self, hit_point: Vox) -> (normal: Vox) {
        Plane::collision_normal(self, hit_point)
    }

    fn collision_material(&self, hit_point: Vox) -> (material: Material) {
        Plane::collision_material(self, hit_point)
    }
}

/// A rectangle in space: a patch of a plane, spanned from the plane's point
/// by the two sides `width` and `height`.
#[derive(Clone, Copy, Debug)]
pub struct Rectangle2D {
    pub width: Vox,
    pub height: Vox,
    pub plane: Plane,
    pub material: Material,
}

impl Rectangle2D {
    pub open spec fn spec_new(
        origin: Vox,
        center: Vox,
        side_dir: Vox,
        material: Material,
    ) -> Rectangle2D {
        let z = center.minus(origin);
        let e1 = side_dir.normalized();
        let u = z.project_on(&e1);
        let e2 = z.minus(u).normalized();
        let two = Fixed::from_int(2);
        let w = two.times(z.project_on(&e1).l2());
        let h = two.times(z.project_on(&e2).l2());
        Rectangle2D {
            width: e1.walk_dir(w),
            height: e2.walk_dir(h),
            plane: Plane { normal: e1.cross(&e2), point: origin },
            material,
        }
    }

    /// The rectangle with a corner at `origin`, its centre at `center` and
    /// one side along `side_dir`. The first side runs along `side_dir` and
    /// is twice as long as the projection of the half diagonal on it; the
    /// second side runs along what is left of the half diagonal and is twice
    /// as long as that; the plane's normal is the cross product of the two
    /// directions.
    #[verifier::when_used_as_spec(spec_new)]
    pub fn new(origin: Vox, center: Vox, side_dir: Vox, material: Material) -> (r: Rectangle2D)
        ensures
            r == Rectangle2D::spec_new(origin, center, side_dir, material),
    {
        let z = center - origin;
        let e1 = side_dir.normalized();

        let u = z.project_on(&e1);

        let e2 = (z - u).normalized();

        let two = Fixed::from_int(2);
        let w = two * z.project_on(&e1).l2();
        let h = two * z.project_on(&e2).l2();
        let normal = e1.cross(&e2);

        let plane = Plane { normal, point: origin };

        Rectangle2D { width: e1.walk_dir(w), height: e2.walk_dir(h), plane, material }
    }

    /// A point of the plane lies on the rectangle: its offset from the
    /// plane's point, projected on either side, is no longer than that side.
    pub open spec fn covers(&self, p: Vox) -> bool {
        let d = p.minus(self.plane.point);
        &&& d.project_on(&self.width).l2().raw <= self.width.l2().raw
        &&& d.project_on(&self.height).l2().raw <= self.height.l2().raw
    }

    pub open spec fn spec_ray_intersect(&self, ray: &Ray) -> HitPoint {
        match self.plane.ray_intersect(ray) {
            HitPoint::Miss => HitPoint::Miss,
            HitPoint::Point(p) => if self.covers(p) {
                HitPoint::Point(p)
            } else {
                HitPoint::Miss
            },
        }
    }

    /// Where the ray meets the rectangle's plane, if that point lies on the
    /// rectangle ([`Rectangle2D::covers`]); else a miss.
    #[verifier::when_used_as_spec(spec_ray_intersect)]
    pub fn ray_intersect(&self, ray: &Ray) -> (hit: HitPoint)
        ensures
            hit == self.spec_ray_intersect(ray),
            hit matches HitPoint::Point(p) ==> self.plane.spec_ray_intersect(ray)
                == HitPoint::Point(p) && self.covers(p),
            forall|m: int|
                #![trigger plane_in_range(self.plane, *ray, m)]
                plane_in_range(self.plane, *ray, m) ==> (hit matches HitPoint::Point(p) ==> -(m
                    + 10) <= self.plane.normal.dot(&p.minus(self.plane.point)).raw <= m + 9),
    {
        match self.plane.ray_intersect(ray) {
            HitPoint::Miss => HitPoint::Miss,
            HitPoint::Point(p) => {
                // The plane's point is the corner that the sides start from.
                let d = p - self.plane.point;
                if d.project_on(&self.width).l2().raw <= self.width.l2().raw && d.project_on(
                    &self.height,
                ).l2().raw <= self.height.l2().raw {
                    HitPoint::Point(p)
                } else {
                    HitPoint::Miss
                }
            },
        }
    }

    /// The normal of the rectangle's plane, whatever the point.
    pub fn collision_normal(&self, hit_point: Vox) -> (normal: Vox)
        ensures
            normal == self.plane.normal,
    {
        self.plane.normal
    }

    /// The rectangle's material, whatever the point.
    pub fn collision_material(&self, hit_point: Vox) -> (material: Material)
        ensures
            material == self.material,
    {
        self.material
    }
}

impl RayCollision for Rectangle2D {
    open spec fn intersection(&self, ray: &Ray) -> HitPoint {
        self.spec_ray_intersect(ray)
    }

    open spec fn normal_at(&self, hit_point: Vox) -> Vox {
        self.plane.normal
    }

    open spec fn material_at(&self, hit_point: Vox) -> Material {
        self.material
    }

    fn ray_intersect(&self, ray: &Ray) -> (hit: HitPoint) {
        Rectangle2D::ray_intersect(self, ray)
    }

    fn collision_normal(&self, hit_point: Vox) -> (normal: Vox) {
        Rectangle2D::collision_normal(self, hit_point)
    }

    fn collision_material(&self, hit_point: Vox) -> (material: Material) {
        Rectangle2D::collision_material(self, hit_point)
    }
}

/// A ball: its centre, its radius and what it is made of.
#[derive(Clone, Copy, Debug)]
pub struct Sphere {
    pub center: Vox,
    pub radius: Fixed,
    pub material: Material,
}

impl Sphere {
    /// From the ray's origin to the centre.
    pub open spec fn to_center(&self, ray: &Ray) -> Vox {
        self.center.minus(ray.origin)
    }

    /// How far the line of the ray passes from the centre.
    pub open spec fn miss_distance(&self, ray: &Ray) -> Fixed {
        let c = self.to_center(ray);
        c.minus(c.project_on(&ray.direction)).l2()
    }

    /// Half the length of the chord that the sphere cuts from the line of
    /// the ray.
    pub open spec fn half_chord(&self, ray: &Ray) -> Fixed {
        self.radius.leg(self.miss_distance(ray))
    }

    /// The distance along the ray to the point nearest the centre.
    pub open spec fn along(&self, ray: &Ray) -> Fixed {
        self.to_center(ray).dot(&ray.direction)
    }

    /// The distance along the ray at which it enters the sphere.
    pub open spec fn near_root(&self, ray: &Ray) -> Fixed {
        self.along(ray).minus(self.half_chord(ray))
    }

    /// The distance along the ray at which it leaves the sphere.
    pub open spec fn far_root(&self, ray: &Ray) -> Fixed {
        self.along(ray).plus(self.half_chord(ray))
    }

    pub open spec fn spec_ray_intersect(&self, ray: &Ray) -> HitPoint {
        if self.miss_distance(ray).raw > self.radius.raw {
            HitPoint::Miss
        } else if self.near_root(ray).raw > 0 {
            HitPoint::Point(ray.walk_dir(self.near_root(ray)))
        } else if self.far_root(ray).raw > 0 {
            HitPoint::Point(ray.walk_dir(self.far_root(ray)))
        } else {
            HitPoint::Miss
        }
    }

    /// A line that passes farther from the centre than the radius misses.
    /// Otherwise the ray meets the sphere where it enters, if that lies
    /// ahead; else, starting inside, where it leaves, if that lies ahead;
    /// else not at all.
    ///
    /// The point lies on the sphere, as nearly as the rounding allows: of a
    /// ray of nearly unit direction, within `1024 m` units of the last place
    /// where the sphere lies within `m` whole units of the ray's origin
    /// ([`crate::geometry::lemma_hit_on_sphere`]).
    #[verifier::when_used_as_spec(spec_ray_intersect)]
    pub fn ray_intersect(&self, ray: &Ray) -> (hit: HitPoint)
        ensures
            hit == self.spec_ray_intersect(ray),
            forall|m: int|
                #![trigger sphere_in_range(*self, *ray, m)]
                sphere_in_range(*self, *ray, m) ==> (hit matches HitPoint::Point(p)
                    ==> self.radius.raw - 1024 * m <= p.minus(self.center).l2().raw
                    <= self.radius.raw + 1024 * m),
    {
        proof {
            assert forall|m: int| sphere_in_range(*self, *ray, m) implies (self.spec_ray_intersect(
                ray,
            ) matches HitPoint::Point(p) ==> self.radius.raw - 1024 * m <= p.minus(
                self.center,
            ).l2().raw <= self.radius.raw + 1024 * m) by {
                lemma_hit_on_sphere(*self, *ray, m);
            }
        }
        let canonical_center = self.center - ray.origin;
        let center_projected_ray = canonical_center.project_on(&ray.direction);

        let dist_ctr_proj = (canonical_center - center_projected_ray).l2();

        if dist_ctr_proj.raw > self.radius.raw {
            return HitPoint::Miss;
        }
        let dist_proj_intersect1 = self.radius.leg(dist_ctr_proj);

        let dist_orig_proj = canonical_center.dot(&ray.direction);

        let o_i1 = dist_orig_proj - dist_proj_intersect1;
        let o_i2 = dist_orig_proj + dist_proj_intersect1;
        if o_i1.raw > 0 {
            HitPoint::Point(ray.walk_dir(o_i1))
        } else if o_i2.raw > 0 {
            // The origin is inside the sphere: the ray is seen leaving it.
            HitPoint::Point(ray.walk_dir(o_i2))
        } else {
            HitPoint::Miss
        }
    }

    pub open spec fn spec_collision_normal(&self, hit_point: Vox) -> Vox {
        hit_point.minus(self.center).normalized()
    }

    /// The direction from the centre to the point, scaled to unit length.
    #[verifier::when_used_as_spec(spec_collision_normal)]
    pub fn collision_normal(&self, hit_point: Vox) -> (normal: Vox)
        ensures
            normal == self.spec_collision_normal(hit_point),
    {
        (hit_point - self.center).normalized()
    }

    /// The sphere's material, whatever the point.
    pub fn collision_material(&self, hit_point: Vox) -> (material: Material)
        ensures
            material == self.material,
    {
        self.material
    }
}

impl RayCollision for Sphere {
    open spec fn intersection(&self, ray: &Ray) -> HitPoint {
        self.spec_ray_intersect(ray)
    }

    open spec fn normal_at(&self, hit_point: Vox) -> Vox {
        self.spec_collision_normal(hit_point)
    }

    open spec fn material_at(&self, hit_point: Vox) -> Material {
        self.material
    }

    fn ray_intersect(&self, ray: &Ray) -> (hit: HitPoint) {
        Sphere::ray_intersect(self, ray)
    }

    fn collision_normal(&self, hit_point: Vox) -> (normal: Vox) {
        Sphere::collision_normal(self, hit_point)
    }

    fn collision_material(&self, hit_point: Vox) -> (material: Material) {
        Sphere::collision_material(self, hit_point)
    }
}

/// Any of the shapes, so that a scene can hold them side by side.
#[derive(Clone, Copy, Debug)]
pub enum Primitive {
    Sphere(Sphere),
    Plane(Plane),
    Rectangle(Rectangle2D),
}

impl RayCollision for Primitive {
    open spec fn intersection(&self, ray: &Ray) -> HitPoint {
        match self {
            Primitive::Sphere(s) => s.spec_ray_intersect(ray),
            Primitive::Plane(p) => p.spec_ray_intersect(ray),
            Primitive::Rectangle(r) => r.spec_ray_intersect(ray),
        }
    }

    open spec fn normal_at(&self, hit_point: Vox) -> Vox {
        match self {
            Primitive::Sphere(s) => s.spec_collision_normal(hit_point),
            Primitive::Plane(p) => p.normal,
            Primitive::Rectangle(r) => r.plane.normal,
        }
    }

    open spec fn material_at(&self, hit_point: Vox) -> Material {
        match self {
            Primitive::Sphere(s) => s.material,
            Primitive::Plane(p) => Material::background(),
            Primitive::Rectangle(r) => r.material,
        }
    }

    fn ray_intersect(&self, ray: &Ray) -> (hit: HitPoint) {
        match self {
            Primitive::Sphere(s) => Sphere::ray_intersect(s, ray),
            Primitive::Plane(p) => Plane::ray_intersect(p, ray),
            Primitive::Rectangle(r) => Rectangle2D::ray_intersect(r, ray),
        }
    }

    fn collision_normal(&self, hit_point: Vox) -> (normal: Vox) {
        match self {
            Primitive::Sphere(s) => Sphere::collision_normal(s, hit_point),
            Primitive::Plane(p) => Plane::collision_normal(p, hit_point),
            Primitive::Rectangle(r) => Rectangle2D::collision_normal(r, hit_point),
        }
    }

    fn collision_material(&self, hit_point: Vox) -> (material: Material) {
        match self {
            Primitive::Sphere(s) => Sphere::collision_material(s, hit_point),
            Primitive::Plane(p) => Plane::collision_material(p, hit_point),
            Primitive::Rectangle(r) => Rectangle2D::collision_material(r, hit_point),
        }
    }
}

} // verus!
