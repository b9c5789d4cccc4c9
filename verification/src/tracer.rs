//! Casting rays into a scene and shading what they hit.

use crate::blocks::{HitPoint, LightSource, Material, Ray, RayCollision, Rgb8};
use crate::fixed::Fixed;
use crate::voxel::Vox;
use vstd::arithmetic::power2::{lemma2_to64, lemma_pow2_pos, lemma_pow2_unfold, pow2};
use vstd::prelude::*;

verus! {

/// The raw value of the distance by which a new ray is moved off the surface
/// that it starts from: the nearest fixed-point number to a thousandth.
pub const DEFAULT_JITTER_RAW: i64 = 4294967;

/// How many times a ray may bounce before only local shading is computed.
pub const MAX_RAY_BOUNCES: u32 = 4;

pub open spec fn spec_default_jitter() -> Fixed {
    Fixed { raw: DEFAULT_JITTER_RAW }
}

/// The distance by which a new ray is moved off the surface that it starts
/// from.
#[verifier::when_used_as_spec(spec_default_jitter)]
pub fn default_jitter() -> (j: Fixed)
    ensures
        j == spec_default_jitter(),
{
    Fixed { raw: DEFAULT_JITTER_RAW }
}

pub open spec fn spec_jitter_along_normal(pt: Vox, direction: Vox, normal: Vox, jitter: Fixed) -> Vox {
    pt.plus(normal.walk_dir(jitter.copysign(direction.dot(&normal))))
}

/// The point `pt` moved by `jitter` along the normal, to the side that
/// `direction` points to: forward along the normal where the two make an
/// angle of at most a right angle, backward otherwise.
#[verifier::when_used_as_spec(spec_jitter_along_normal)]
pub fn jitter_along_normal(pt: Vox, direction: Vox, normal: Vox, jitter: Fixed) -> (p: Vox)
    ensures
        p == spec_jitter_along_normal(pt, direction, normal, jitter),
{
    let shift = jitter.copysign(direction.dot(&normal));
    pt + normal.walk_dir(shift)
}

/// What is known where a ray has met a shape.
#[derive(Clone, Copy, Debug)]
pub struct CollisionState {
    pub hit_point: Vox,
    pub normal: Vox,
    pub material: Material,
    pub ray: Ray,
}

impl CollisionState {
    pub open spec fn spec_jitter(&self, dir: Vox, jitter: Fixed) -> Vox {
        jitter_along_normal(self.hit_point, dir, self.normal, jitter)
    }

    /// The hit point moved off the surface to the side that `dir` points to.
    #[verifier::when_used_as_spec(spec_jitter)]
    pub fn _jitter(&self, dir: Vox, jitter: Fixed) -> (p: Vox)
        ensures
            p == self.spec_jitter(dir, jitter),
    {
        jitter_along_normal(self.hit_point, dir, self.normal, jitter)
    }

    pub open spec fn spec_reflected_ray(&self, jitter: Fixed) -> Ray {
        let reflect_dir = self.ray.direction.reflect(self.normal);
        Ray::new(reflect_dir).set_origin(self._jitter(reflect_dir, jitter))
    }

    /// The ray that the surface mirrors the incoming ray into, starting just
    /// off the surface.
    #[verifier::when_used_as_spec(spec_reflected_ray)]
    pub fn reflected_ray(&self, jitter: Fixed) -> (r: Ray)
        ensures
            r == self.spec_reflected_ray(jitter),
    {
        let reflect_dir = self.ray.direction.reflect(self.normal);
        let ref_orig = self._jitter(reflect_dir, jitter);

        Ray::new(reflect_dir).set_origin(ref_orig)
    }

    pub open spec fn spec_refracted_ray(&self, jitter: Fixed) -> Ray {
        let refract_dir = self.ray.direction.refract(
            self.normal,
            self.material.refraction_index,
        ).normalized();
        Ray::new(refract_dir).set_origin(self._jitter(refract_dir, jitter))
    }

    /// The ray that the surface bends the incoming ray into, starting just
    /// off the surface on the side that it goes to.
    #[verifier::when_used_as_spec(spec_refracted_ray)]
    pub fn refracted_ray(&self, jitter: Fixed) -> (r: Ray)
        ensures
            r == self.spec_refracted_ray(jitter),
    {
        let refract_dir = self.ray.direction.refract(
            self.normal,
            self.material.refraction_index,
        ).normalized();
        let ref_orig = self._jitter(refract_dir, jitter);

        Ray::new(refract_dir).set_origin(ref_orig)
    }
}

/// How far a point lies from the origin of a ray.
pub open spec fn distance_from_origin(ray: Ray, p: Vox) -> Fixed {
    p.minus(ray.origin).l2()
}

/// What is known where `ray` meets `shape` at `p`.
pub open spec fn collision_at<T: RayCollision>(ray: Ray, shape: T, p: Vox) -> CollisionState {
    CollisionState {
        hit_point: p,
        normal: shape.normal_at(p),
        material: shape.material_at(p),
        ray,
    }
}

/// The ray meets the shape within sight: nearer than the greatest distance
/// that can be told apart.
pub open spec fn in_sight<T: RayCollision>(ray: Ray, shape: T) -> bool {
    shape.intersection(&ray) matches HitPoint::Point(p) && distance_from_origin(ray, p).raw
        < Fixed::max_value().raw
}

/// The distance at which the ray meets the shape; the greatest distance if
/// it misses.
pub open spec fn sight_distance<T: RayCollision>(ray: Ray, shape: T) -> Fixed {
    match shape.intersection(&ray) {
        HitPoint::Point(p) => distance_from_origin(ray, p),
        HitPoint::Miss => Fixed::max_value(),
    }
}

/// The index, among the first `n` shapes, of the first one that the ray meets
/// nearest; `None` if it meets none of them within sight.
pub open spec fn nearest_among<T: RayCollision>(ray: Ray, scene: Seq<T>, n: nat) -> Option<int>
    decreases n,
{
    if n == 0 {
        None
    } else {
        let before = nearest_among(ray, scene, (n - 1) as nat);
        let limit = match before {
            Some(i) => sight_distance(ray, scene[i]),
            None => Fixed::max_value(),
        };
        if sight_distance(ray, scene[n - 1]).raw < limit.raw {
            Some(n - 1)
        } else {
            before
        }
    }
}

pub open spec fn spec_cast_ray<T: RayCollision>(ray: Ray, scene: Seq<T>) -> Option<CollisionState> {
    match nearest_among(ray, scene, scene.len()) {
        Some(i) => match scene[i].intersection(&ray) {
            HitPoint::Point(p) => Some(collision_at(ray, scene[i], p)),
            HitPoint::Miss => None,
        },
        None => None,
    }
}

/// What [`nearest_among`] picks is the first of the nearest shapes in sight,
/// and it picks nothing only where nothing is in sight.
pub proof fn lemma_nearest_among<T: RayCollision>(ray: Ray, scene: Seq<T>, n: nat)
    requires
        n <= scene.len(),
    ensures
        match nearest_among(ray, scene, n) {
            Some(i) => {
                &&& 0 <= i < n
                &&& in_sight(ray, scene[i])
                &&& forall|j: int|
                    0 <= j < n ==> sight_distance(ray, scene[i]).raw <= (#[trigger] sight_distance(
                        ray,
                        scene[j],
                    )).raw
                &&& forall|j: int|
                    0 <= j < i ==> sight_distance(ray, scene[i]).raw < (#[trigger] sight_distance(
                        ray,
                        scene[j],
                    )).raw
            },
            None => forall|j: int| 0 <= j < n ==> !in_sight(ray, #[trigger] scene[j]),
        },
    decreases n,
{
    if n > 0 {
        lemma_nearest_among(ray, scene, (n - 1) as nat);
    }
}

/// The nearest meeting of the ray with a shape of the scene: the record of
/// the first shape, in the order of the scene, among those that the ray
/// meets at the least distance from its origin; `None` where it meets no
/// shape within sight.
pub fn cast_ray<T: RayCollision>(ray: Ray, scene: &[T]) -> (hit: Option<CollisionState>)
    ensures
        hit == spec_cast_ray(ray, scene@),
        hit is None <==> forall|j: int| 0 <= j < scene@.len() ==> !in_sight(ray, #[trigger] scene@[j]),
        hit matches Some(c) ==> exists|i: int|
            {
                &&& 0 <= i < scene@.len()
                &&& #[trigger] scene@[i].intersection(&ray) == HitPoint::Point(c.hit_point)
                &&& c == collision_at(ray, scene@[i], c.hit_point)
                &&& in_sight(ray, scene@[i])
                &&& forall|j: int|
                    0 <= j < scene@.len() ==> sight_distance(ray, scene@[i]).raw <= (
                    #[trigger] sight_distance(ray, scene@[j])).raw
                &&& forall|j: int|
                    0 <= j < i ==> sight_distance(ray, scene@[i]).raw < (#[trigger] sight_distance(
                        ray,
                        scene@[j],
                    )).raw
            },
{
    let mut dist = Fixed::max_value();
    let mut hit_point: Option<Vox> = None;
    let mut normal = Vox::orig();
    let mut material = Material::default();
    let mut k: usize = 0;
    while k < scene.len()
        invariant
            k <= scene@.len(),
            match nearest_among(ray, scene@, k as nat) {
                Some(i) => {
                    &&& 0 <= i < k
                    &&& scene@[i].intersection(&ray) matches HitPoint::Point(p)
                    &&& hit_point == Some(p)
                    &&& dist == distance_from_origin(ray, p)
                    &&& normal == scene@[i].normal_at(p)
                    &&& material == scene@[i].material_at(p)
                },
                None => hit_point is None && dist == Fixed::max_value(),
            },
        decreases scene@.len() - k,
    {
        proof {
            lemma_nearest_among(ray, scene@, k as nat);
        }
        let s = &scene[k];
        match s.ray_intersect(&ray) {
            HitPoint::Point(p) => {
                let d = (p - ray.origin).l2();
                if d.raw < dist.raw {
                    dist = d;
                    material = s.collision_material(p);
                    normal = s.collision_normal(p);
                    hit_point = Some(p);
                }
            },
            HitPoint::Miss => {},
        }
        k += 1;
    }
    proof {
        lemma_nearest_among(ray, scene@, scene@.len());
    }
    match hit_point {
        Some(p) => Some(CollisionState { hit_point: p, normal, material, ray }),
        None => None,
    }
}

pub open spec fn spec_light_is_shadowed<T: RayCollision>(
    hit_point: Vox,
    hit_normal: Vox,
    light_position: Vox,
    scene: Seq<T>,
) -> bool {
    let to_light = light_position.minus(hit_point);
    let ldir = to_light.normalized();
    let shadow_orig = jitter_along_normal(hit_point, ldir, hit_normal, default_jitter());
    let shadow_ray = Ray::new(ldir).set_origin(shadow_orig);
    match spec_cast_ray(shadow_ray, scene) {
        Some(shadow) => shadow.hit_point.minus(shadow_orig).l2().raw < to_light.l2().raw,
        None => false,
    }
}

/// Whether a shape stands between a point of a surface and a light: whether
/// the ray from the point, moved just off the surface, toward the light meets
/// a shape at less than the distance from the point to the light.
pub fn light_is_shadowed<T: RayCollision>(
    hit_point: Vox,
    hit_normal: Vox,
    light_position: Vox,
    scene: &[T],
) -> (shadowed: bool)
    ensures
        shadowed == spec_light_is_shadowed(hit_point, hit_normal, light_position, scene@),
{
    let ldir = (light_position - hit_point).normalized();
    let ldist = (light_position - hit_point).l2();

    let shadow_orig = jitter_along_normal(hit_point, ldir, hit_normal, default_jitter());
    let shadow_ray = Ray::new(ldir).set_origin(shadow_orig);

    if let Some(shadow) = cast_ray(shadow_ray, scene) {
        if (shadow.hit_point - shadow_orig).l2().raw < ldist.raw {
            return true;
        }
    }
    false
}

/// The diffuse share of one light at a point of a surface: the light's
/// intensity times the cosine between the normal and the direction to the
/// light, or nothing where the light is behind the surface.
pub open spec fn diffuse_term(collision: CollisionState, light: LightSource) -> Fixed {
    let ldir = light.position.minus(collision.hit_point).normalized();
    light.intensity.times(ldir.dot(&collision.normal).max(Fixed::zero()))
}

/// The specular share of one light at a point of a surface: the light's
/// intensity times the cosine between the mirrored direction to the light and
/// the incoming ray, raised to the material's specular exponent.
pub open spec fn specular_term(collision: CollisionState, light: LightSource) -> Fixed {
    let ldir = light.position.minus(collision.hit_point).normalized();
    light.intensity.times(
        ldir.reflect(collision.normal).dot(&collision.ray.direction).max(Fixed::zero()).powi(
            collision.material.specular_exponent,
        ),
    )
}

/// The sums of diffuse and specular light that the first `n` lights throw on
/// the point of a collision. A light that a shape stands in front of adds
/// nothing; each of the others adds its terms, in the order of the lights.
pub open spec fn light_sums<T: RayCollision>(
    collision: CollisionState,
    scene: Seq<T>,
    lights: Seq<LightSource>,
    n: nat,
) -> (Fixed, Fixed)
    decreases n,
{
    if n == 0 {
        (Fixed::zero(), Fixed::zero())
    } else {
        let before = light_sums(collision, scene, lights, (n - 1) as nat);
        let cur = lights[n - 1];
        if spec_light_is_shadowed(collision.hit_point, collision.normal, cur.position, scene) {
            before
        } else {
            (
                before.0.plus(diffuse_term(collision, cur)),
                before.1.plus(specular_term(collision, cur)),
            )
        }
    }
}

pub open spec fn spec_get_light_adjustments<T: RayCollision>(
    collision: &CollisionState,
    scene: Seq<T>,
    lights: Seq<LightSource>,
) -> (Fixed, Fixed) {
    light_sums(*collision, scene, lights, lights.len())
}

/// The sums of diffuse and specular light that the lights throw on the point
/// of a collision ([`light_sums`] over all the lights).
pub fn get_light_adjustments<T: RayCollision>(
    collision: &CollisionState,
    scene: &[T],
    lights: &[LightSource],
) -> (sums: (Fixed, Fixed))
    ensures
        sums == spec_get_light_adjustments(collision, scene@, lights@),
{
    let (normal, p, ray) = (collision.normal, collision.hit_point, collision.ray);

    let mut diffuse = Fixed::zero();
    let mut specular = Fixed::zero();
    let mut k: usize = 0;
    while k < lights.len()
        invariant
            k <= lights@.len(),
            normal == collision.normal,
            p == collision.hit_point,
            ray == collision.ray,
            (diffuse, specular) == light_sums(*collision, scene@, lights@, k as nat),
        decreases lights@.len() - k,
    {
        let cur = &lights[k];
        k += 1;
        let ldir = (cur.position - p).normalized();
        let diff_coef = ldir.dot(&normal).max(Fixed::zero());

        if light_is_shadowed(p, normal, cur.position, scene) {
            continue ;
        }
        let spec_coef = ldir.reflect(normal).dot(&ray.direction).max(Fixed::zero()).powi(
            collision.material.specular_exponent,
        );

        diffuse = diffuse + cur.intensity * diff_coef;
        specular = specular + cur.intensity * spec_coef;
    }

    (diffuse, specular)
}

/// The colour that a ray brings back from the scene, where a ray that has
/// bounced `limit` times bounces no more.
///
/// A ray that meets nothing brings the background. Otherwise the material at
/// the nearest meeting is lit by the lights; and while the ray has bounced
/// fewer than `limit` times, the colours brought back by the mirrored and by
/// the bent ray are mixed in, in this order, each by its weight.
pub open spec fn traced<T: RayCollision>(
    ray: Ray,
    scene: Seq<T>,
    lights: Seq<LightSource>,
    depth: u32,
    limit: u32,
) -> Material
    decreases limit - depth,
{
    match spec_cast_ray(ray, scene) {
        Some(collision) => {
            let (diff, spec) = spec_get_light_adjustments(&collision, scene, lights);
            let local = collision.material.adjust_light(diff, spec);
            if depth < limit {
                let reflected = traced(
                    collision.reflected_ray(default_jitter()),
                    scene,
                    lights,
                    (depth + 1) as u32,
                    limit,
                );
                let refracted = traced(
                    collision.refracted_ray(default_jitter()),
                    scene,
                    lights,
                    (depth + 1) as u32,
                    limit,
                );
                local.mix_reflection(reflected).mix_refraction(refracted)
            } else {
                local
            }
        },
        None => Material::background(),
    }
}

/// The colour that a ray brings back from the scene, after `depth` bounces
/// already made: [`traced`] with the limit of [`MAX_RAY_BOUNCES`].
pub fn reflective_ray_cast<T: RayCollision>(
    ray: Ray,
    scene: &[T],
    lights: &[LightSource],
    depth: u32,
) -> (m: Material)
    ensures
        m == traced(ray, scene@, lights@, depth, MAX_RAY_BOUNCES),
        m.wf(),
        m.in_gamut(),
        spec_cast_ray(ray, scene@) is None ==> m == Material::background(),
    decreases MAX_RAY_BOUNCES - depth,
{
    match cast_ray(ray, scene) {
        Some(collision) => {
            if depth < MAX_RAY_BOUNCES {
                let reflected_ = reflective_ray_cast(
                    collision.reflected_ray(default_jitter()),
                    scene,
                    lights,
                    depth + 1,
                );

                let refracted_ = reflective_ray_cast(
                    collision.refracted_ray(default_jitter()),
                    scene,
                    lights,
                    depth + 1,
                );

                let (diff, spec) = get_light_adjustments(&collision, scene, lights);

                collision.material.adjust_light(diff, spec).mix_reflection(
                    reflected_,
                ).mix_refraction(refracted_)
            } else {
                let (diff, spec) = get_light_adjustments(&collision, scene, lights);
                collision.material.adjust_light(diff, spec)
            }
        },
        None => Material::default(),
    }
}

/// Whatever the scene, the lights and the limit, the colour that a ray brings
/// back lies between black and white in every channel, and its pixel goes
/// with it.
pub proof fn lemma_traced_in_gamut<T: RayCollision>(
    ray: Ray,
    scene: Seq<T>,
    lights: Seq<LightSource>,
    depth: u32,
    limit: u32,
)
    ensures
        traced(ray, scene, lights, depth, limit).in_gamut(),
        traced(ray, scene, lights, depth, limit).wf(),
{
}

/// A ray that meets no shape brings back the background, whatever the
/// lights and however often it has bounced; and the background is drawn as
/// `(51, 178, 204)`.
pub proof fn lemma_miss_brings_background<T: RayCollision>(
    ray: Ray,
    scene: Seq<T>,
    lights: Seq<LightSource>,
    depth: u32,
    limit: u32,
)
    requires
        forall|i: int| 0 <= i < scene.len() ==> (#[trigger] scene[i]).intersection(&ray) is Miss,
    ensures
        spec_cast_ray(ray, scene) is None,
        traced(ray, scene, lights, depth, limit) == Material::background(),
        traced(ray, scene, lights, depth, limit).pixel == (Rgb8 { r: 51, g: 178, b: 204 }),
{
    lemma_nearest_among(ray, scene, scene.len());
}

/// How many times [`traced`] stops at the limit of bounces and computes local
/// shading only.
pub open spec fn shading_leaves<T: RayCollision>(
    ray: Ray,
    scene: Seq<T>,
    depth: u32,
    limit: u32,
) -> nat
    decreases limit - depth,
{
    match spec_cast_ray(ray, scene) {
        Some(collision) => if depth < limit {
            shading_leaves(
                collision.reflected_ray(default_jitter()),
                scene,
                (depth + 1) as u32,
                limit,
            ) + shading_leaves(
                collision.refracted_ray(default_jitter()),
                scene,
                (depth + 1) as u32,
                limit,
            )
        } else {
            1
        },
        None => 0,
    }
}

/// How many rays [`traced`] casts in all, the first one included.
pub open spec fn rays_traced<T: RayCollision>(
    ray: Ray,
    scene: Seq<T>,
    depth: u32,
    limit: u32,
) -> nat
    decreases limit - depth,
{
    match spec_cast_ray(ray, scene) {
        Some(collision) => if depth < limit {
            1 + rays_traced(
                collision.reflected_ray(default_jitter()),
                scene,
                (depth + 1) as u32,
                limit,
            ) + rays_traced(
                collision.refracted_ray(default_jitter()),
                scene,
                (depth + 1) as u32,
                limit,
            )
        } else {
            1
        },
        None => 1,
    }
}

/// With a limit of `limit` bounces, a ray that has bounced `depth` times
/// leads to at most `2^(limit - depth)` shadings at the limit, and to fewer
/// than `2^(limit - depth + 1)` rays in all.
pub proof fn lemma_tracing_is_bounded<T: RayCollision>(
    ray: Ray,
    scene: Seq<T>,
    depth: u32,
    limit: u32,
)
    requires
        depth <= limit,
    ensures
        shading_leaves(ray, scene, depth, limit) <= pow2((limit - depth) as nat),
        rays_traced(ray, scene, depth, limit) < 2 * pow2((limit - depth) as nat),
    decreases limit - depth,
{
    lemma_pow2_pos((limit - depth) as nat);
    if depth < limit {
        lemma_pow2_unfold((limit - depth) as nat);
        match spec_cast_ray(ray, scene) {
            Some(collision) => {
                lemma_tracing_is_bounded(
                    collision.reflected_ray(default_jitter()),
                    scene,
                    (depth + 1) as u32,
                    limit,
                );
                lemma_tracing_is_bounded(
                    collision.refracted_ray(default_jitter()),
                    scene,
                    (depth + 1) as u32,
                    limit,
                );
            },
            None => {},
        }
    } else {
        assert(pow2(0) == 1) by {
            lemma2_to64();
        }
    }
}

/// The sums over the first `n` lights depend on those lights only.
proof fn lemma_light_sums_prefix<T: RayCollision>(
    collision: CollisionState,
    scene: Seq<T>,
    a: Seq<LightSource>,
    b: Seq<LightSource>,
    n: nat,
)
    requires
        n <= a.len(),
        n <= b.len(),
        forall|i: int| 0 <= i < n ==> a[i] == b[i],
    ensures
        light_sums(collision, scene, a, n) == light_sums(collision, scene, b, n),
    decreases n,
{
    if n > 0 {
        lemma_light_sums_prefix(collision, scene, a, b, (n - 1) as nat);
    }
}

/// The sums over the first `n + 1` lights, where the light at `k` is in
/// shadow, are the sums over the first `n` lights of the list without it.
proof fn lemma_light_sums_skip<T: RayCollision>(
    collision: CollisionState,
    scene: Seq<T>,
    lights: Seq<LightSource>,
    k: int,
    n: nat,
)
    requires
        0 <= k <= n < lights.len(),
        spec_light_is_shadowed(collision.hit_point, collision.normal, lights[k].position, scene),
    ensures
        light_sums(collision, scene, lights, n + 1) == light_sums(
            collision,
            scene,
            lights.remove(k),
            n,
        ),
    decreases n,
{
    if n == k {
        lemma_light_sums_prefix(collision, scene, lights, lights.remove(k), n);
    } else {
        lemma_light_sums_skip(collision, scene, lights, k, (n - 1) as nat);
        assert(lights.remove(k)[n - 1] == lights[n as int]);
    }
}

/// A light that a shape stands in front of throws nothing on the point: the
/// sums at its turn are the sums before it, and the sums over all the lights
/// are those over the lights without it.
pub proof fn lemma_shadowed_light_adds_nothing<T: RayCollision>(
    collision: CollisionState,
    scene: Seq<T>,
    lights: Seq<LightSource>,
    k: int,
)
    requires
        0 <= k < lights.len(),
        spec_light_is_shadowed(collision.hit_point, collision.normal, lights[k].position, scene),
    ensures
        light_sums(collision, scene, lights, (k + 1) as nat) == light_sums(
            collision,
            scene,
            lights,
            k as nat,
        ),
        spec_get_light_adjustments(&collision, scene, lights) == spec_get_light_adjustments(
            &collision,
            scene,
            lights.remove(k),
        ),
{
    lemma_light_sums_skip(collision, scene, lights, k, (lights.len() - 1) as nat);
}

} // verus!
