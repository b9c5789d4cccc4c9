use tinyraytrace::blocks::{
    HitPoint, Material, Plane, Primitive, Ray, RayCollision, Rectangle2D, Sphere,
};
use tinyraytrace::fixed::Fixed;
use tinyraytrace::voxel::Vox;

const ONE: i64 = 1 << 32;

fn fx(v: f64) -> Fixed {
    Fixed::from_raw((v * 4294967296.0).round() as i64)
}

fn vox(x: f64, y: f64, z: f64) -> Vox {
    Vox::new((fx(x), fx(y), fx(z)))
}

fn raw(x: i64, y: i64, z: i64) -> Vox {
    Vox::new((Fixed::from_raw(x), Fixed::from_raw(y), Fixed::from_raw(z)))
}

fn as_f64(v: Fixed) -> f64 {
    v.raw as f64 / 4294967296.0
}

fn ray(origin: Vox, dir: Vox) -> Ray {
    Ray::new(dir).set_origin(origin)
}

fn ivory() -> Material {
    Material::new((fx(0.4), fx(0.4), fx(0.3)), (fx(0.6), fx(0.3), fx(0.1), fx(0.0)), 50, fx(1.0))
}

fn ball() -> Sphere {
    Sphere { center: vox(0.0, 0.0, -10.0), radius: fx(2.0), material: ivory() }
}

fn floor() -> Plane {
    Plane { normal: vox(0.0, 1.0, 0.0), point: vox(0.0, -4.0, 0.0) }
}

fn patch() -> Rectangle2D {
    Rectangle2D::new(vox(0.0, -4.0, -1.0), vox(2.0, -4.0, -10.0), vox(1.0, 0.0, 0.0), ivory())
}

fn point_of(hit: HitPoint) -> Vox {
    match hit {
        HitPoint::Point(p) => p,
        HitPoint::Miss => panic!("the ray misses"),
    }
}

#[test]
fn sphere_hit_head_on() {
    let hit = ball().ray_intersect(&ray(Vox::orig(), vox(0.0, 0.0, -1.0)));
    assert_eq!(hit, HitPoint::Point(vox(0.0, 0.0, -8.0)));
}

#[test]
fn sphere_hit_head_on_along_every_axis() {
    let s = ball();
    assert_eq!(
        s.ray_intersect(&ray(vox(-5.0, 0.0, -10.0), vox(1.0, 0.0, 0.0))),
        HitPoint::Point(vox(-2.0, 0.0, -10.0))
    );
    assert_eq!(
        s.ray_intersect(&ray(vox(5.0, 0.0, -10.0), vox(-1.0, 0.0, 0.0))),
        HitPoint::Point(vox(2.0, 0.0, -10.0))
    );
    assert_eq!(
        s.ray_intersect(&ray(vox(0.0, 7.0, -10.0), vox(0.0, -1.0, 0.0))),
        HitPoint::Point(vox(0.0, 2.0, -10.0))
    );
    assert_eq!(
        s.ray_intersect(&ray(vox(0.0, -7.0, -10.0), vox(0.0, 1.0, 0.0))),
        HitPoint::Point(vox(0.0, -2.0, -10.0))
    );
    assert_eq!(
        s.ray_intersect(&ray(vox(0.0, 0.0, -30.0), vox(0.0, 0.0, 1.0))),
        HitPoint::Point(vox(0.0, 0.0, -12.0))
    );
}

#[test]
fn sphere_hit_at_distance_to_centre_less_radius() {
    // from (1, 2, 3) toward the centre (4, 6, -9), which is 13 away
    let origin = vox(1.0, 2.0, 3.0);
    let s = Sphere { center: vox(4.0, 6.0, -9.0), radius: fx(2.5), material: ivory() };
    let r = ray(origin, s.center - origin);
    let p = point_of(s.ray_intersect(&r));
    assert!((as_f64((p - origin).l2()) - 10.5).abs() < 1e-7);
    assert!((as_f64((p - s.center).l2()) - 2.5).abs() < 1e-7);
}

#[test]
fn sphere_hit_off_axis() {
    // one above the axis: half the chord is sqrt(2^2 - 1^2) = 7439101573 units
    let hit = ball().ray_intersect(&ray(vox(0.0, 1.0, 0.0), vox(0.0, 0.0, -1.0)));
    assert_eq!(hit, HitPoint::Point(raw(0, ONE, -10 * ONE + 7439101573)));
}

#[test]
fn sphere_hit_points_lie_on_the_sphere() {
    let s = Sphere { center: vox(7.0, 5.0, -18.0), radius: fx(4.0), material: ivory() };
    let origin = vox(-3.0, 1.0, 2.5);
    let mut hits = 0;
    for i in -20..=20 {
        for j in -20..=20 {
            let target = s.center + vox(i as f64 * 0.25, j as f64 * 0.25, 0.0);
            if let HitPoint::Point(p) = s.ray_intersect(&ray(origin, target - origin)) {
                hits += 1;
                let off = as_f64((p - s.center).l2()) - 4.0;
                assert!(off.abs() < 1e-6, "{} {} is off by {}", i, j, off);
            }
        }
    }
    assert!(hits > 500);
}

#[test]
fn sphere_hit_points_lie_within_the_proved_distance() {
    // the centre lies within 21 units of the origin along each axis
    let m: i64 = 21;
    let s = Sphere { center: vox(7.0, 5.0, -18.0), radius: fx(4.0), material: ivory() };
    let origin = vox(-3.0, 1.0, 2.5);
    for i in -16..=16 {
        for j in -16..=16 {
            let target = s.center + vox(i as f64 * 0.25, j as f64 * 0.25, 0.0);
            let r = ray(origin, target - origin);
            assert!((r.direction.l2().raw - ONE).abs() <= 6);
            if let HitPoint::Point(p) = s.ray_intersect(&r) {
                let off = (p - s.center).l2().raw - s.radius.raw;
                assert!(off.abs() <= 1024 * m, "{} {} is off by {}", i, j, off);
            }
        }
    }
}

#[test]
fn sphere_hit_along_an_axis_lies_within_two_units() {
    let s = ball();
    for k in 0..=40 {
        let y = k as f64 * 0.05;
        let r = ray(vox(0.0, y, 0.0), vox(0.0, 0.0, -1.0));
        let p = point_of(s.ray_intersect(&r));
        let away = (p - s.center).l2().raw;
        assert!(s.radius.raw - 2 <= away && away <= s.radius.raw, "{} gives {}", y, away);
    }
}

#[test]
fn sphere_aimed_at_is_hit_within_the_proved_distance() {
    let cases = [
        (vox(1.0, 2.0, 3.0), vox(4.0, 6.0, -9.0), 2.5, 12),
        (vox(0.0, 0.0, 0.0), vox(7.0, 5.0, -18.0), 4.0, 18),
        (vox(-20.0, 20.0, 20.0), vox(0.5, 0.25, -0.125), 0.001, 21),
        (vox(100.0, -3.0, 2.0), vox(-900.0, 40.0, 77.5), 600.0, 1000),
    ];
    for (origin, center, radius, m) in cases {
        let s = Sphere { center, radius: fx(radius), material: ivory() };
        let r = ray(origin, center - origin);
        let p = point_of(s.ray_intersect(&r));
        let expected = (center - origin).l2().raw - s.radius.raw;
        let got = (p - origin).l2().raw;
        assert!((got - expected).abs() <= 256 * m, "{} against {}", got, expected);
    }
}

#[test]
fn sphere_grazed() {
    let hit = ball().ray_intersect(&ray(vox(0.0, 2.0, 0.0), vox(0.0, 0.0, -1.0)));
    assert_eq!(hit, HitPoint::Point(vox(0.0, 2.0, -10.0)));
}

#[test]
fn sphere_missed_to_the_side() {
    let s = ball();
    assert_eq!(s.ray_intersect(&ray(vox(0.0, 3.0, 0.0), vox(0.0, 0.0, -1.0))), HitPoint::Miss);
    assert_eq!(
        s.ray_intersect(&ray(raw(0, 2 * ONE + 1, 0), vox(0.0, 0.0, -1.0))),
        HitPoint::Miss
    );
    assert_eq!(s.ray_intersect(&ray(Vox::orig(), vox(0.0, 1.0, 0.0))), HitPoint::Miss);
}

#[test]
fn sphere_behind_the_ray_is_missed() {
    assert_eq!(ball().ray_intersect(&ray(Vox::orig(), vox(0.0, 0.0, 1.0))), HitPoint::Miss);
    assert_eq!(
        ball().ray_intersect(&ray(vox(0.0, 0.0, -12.5), vox(0.0, 0.0, -1.0))),
        HitPoint::Miss
    );
}

#[test]
fn sphere_seen_from_inside_is_hit_where_the_ray_leaves() {
    let s = ball();
    assert_eq!(
        s.ray_intersect(&ray(vox(0.0, 0.0, -10.0), vox(0.0, 0.0, -1.0))),
        HitPoint::Point(vox(0.0, 0.0, -12.0))
    );
    assert_eq!(
        s.ray_intersect(&ray(vox(0.0, 0.0, -11.0), vox(0.0, 0.0, 1.0))),
        HitPoint::Point(vox(0.0, 0.0, -8.0))
    );
    assert_eq!(
        s.ray_intersect(&ray(vox(0.0, 1.0, -10.0), vox(0.0, 0.0, -1.0))),
        HitPoint::Point(raw(0, ONE, -10 * ONE - 7439101573))
    );
}

#[test]
fn sphere_from_its_surface() {
    let s = ball();
    // inward: the near root is zero, which is not ahead, so the far one counts
    assert_eq!(
        s.ray_intersect(&ray(vox(0.0, 0.0, -8.0), vox(0.0, 0.0, -1.0))),
        HitPoint::Point(vox(0.0, 0.0, -12.0))
    );
    // outward: both roots are behind or at the origin
    assert_eq!(s.ray_intersect(&ray(vox(0.0, 0.0, -12.0), vox(0.0, 0.0, -1.0))), HitPoint::Miss);
}

#[test]
fn sphere_of_negative_radius_is_never_hit() {
    let s = Sphere { center: vox(0.0, 0.0, -10.0), radius: fx(-2.0), material: ivory() };
    assert_eq!(s.ray_intersect(&ray(Vox::orig(), vox(0.0, 0.0, -1.0))), HitPoint::Miss);
}

#[test]
fn sphere_normal_points_away_from_the_centre() {
    let s = ball();
    assert_eq!(s.collision_normal(vox(0.0, 0.0, -8.0)), vox(0.0, 0.0, 1.0));
    assert_eq!(s.collision_normal(vox(0.0, 2.0, -10.0)), vox(0.0, 1.0, 0.0));
    assert_eq!(s.collision_normal(vox(-2.0, 0.0, -10.0)), vox(-1.0, 0.0, 0.0));
    // 1 / sqrt(3) = 0.57735026918..., times 2^32 = 2479700524.6
    assert_eq!(s.collision_normal(vox(1.0, 1.0, -9.0)), raw(2479700524, 2479700524, 2479700524));
    assert_eq!(s.collision_normal(vox(0.0, 0.0, -10.0)), Vox::orig());
}

#[test]
fn sphere_material_is_its_own() {
    assert_eq!(ball().collision_material(vox(0.0, 0.0, -8.0)), ivory());
    assert_eq!(ball().collision_material(vox(9.0, 9.0, 9.0)), ivory());
}

#[test]
fn plane_hit_from_above() {
    let hit = floor().ray_intersect(&ray(Vox::orig(), vox(0.0, -1.0, 0.0)));
    assert_eq!(hit, HitPoint::Point(vox(0.0, -4.0, 0.0)));
}

#[test]
fn plane_hit_from_below() {
    let hit = floor().ray_intersect(&ray(vox(2.0, -6.0, 1.0), vox(0.0, 1.0, 0.0)));
    assert_eq!(hit, HitPoint::Point(vox(2.0, -4.0, 1.0)));
}

#[test]
fn plane_hit_at_a_slant() {
    // down along (3, -4, 0) / 5: four down is five along and three across
    let p = point_of(floor().ray_intersect(&ray(Vox::orig(), vox(3.0, -4.0, 0.0))));
    assert_eq!(p.y, fx(-4.0));
    assert_eq!(p.z.raw, 0);
    assert!((as_f64(p.x) - 3.0).abs() < 1e-8);
}

#[test]
fn plane_hit_points_lie_on_the_plane() {
    // a tilted plane within 30 units of the origin of the rays
    let m: i64 = 30;
    let p = Plane { normal: vox(1.0, 2.0, -0.5).normalized(), point: vox(3.0, -4.0, -12.0) };
    let origin = vox(-1.0, 2.0, 5.0);
    let mut hits = 0;
    for i in -10..=10 {
        for j in -10..=10 {
            let r = ray(origin, vox(i as f64, j as f64, -7.0));
            if let HitPoint::Point(hit) = p.ray_intersect(&r) {
                if (hit - origin).l2().raw <= m * ONE {
                    hits += 1;
                    let off = p.normal.dot(&(hit - p.point)).raw;
                    assert!(-(m + 10) <= off && off <= m + 9, "{} {} is off by {}", i, j, off);
                }
            }
        }
    }
    assert!(hits > 100);
}

#[test]
fn plane_missed_by_a_ray_that_runs_away() {
    assert_eq!(floor().ray_intersect(&ray(Vox::orig(), vox(0.0, 1.0, 0.0))), HitPoint::Miss);
    assert_eq!(
        floor().ray_intersect(&ray(vox(0.0, -6.0, 0.0), vox(1.0, -1.0, 0.0))),
        HitPoint::Miss
    );
}

#[test]
fn plane_missed_by_a_parallel_ray() {
    assert_eq!(floor().ray_intersect(&ray(Vox::orig(), vox(1.0, 0.0, 0.0))), HitPoint::Miss);
    assert_eq!(floor().ray_intersect(&ray(Vox::orig(), vox(-3.0, 0.0, 2.0))), HitPoint::Miss);
}

#[test]
fn plane_missed_by_a_ray_that_starts_on_it() {
    assert_eq!(
        floor().ray_intersect(&ray(vox(0.0, -4.0, 0.0), vox(0.0, -1.0, 0.0))),
        HitPoint::Miss
    );
    assert_eq!(
        floor().ray_intersect(&ray(vox(5.0, -4.0, 2.0), vox(0.0, 1.0, 0.0))),
        HitPoint::Miss
    );
}

#[test]
fn plane_hit_from_one_unit_above() {
    let hit = floor().ray_intersect(&ray(raw(0, -4 * ONE + 1, 0), vox(0.0, -1.0, 0.0)));
    assert_eq!(hit, HitPoint::Point(vox(0.0, -4.0, 0.0)));
}

#[test]
fn plane_missed_by_a_ray_without_direction() {
    assert_eq!(floor().ray_intersect(&ray(Vox::orig(), Vox::orig())), HitPoint::Miss);
}

#[test]
fn plane_normal_and_material() {
    let p = floor();
    assert_eq!(p.collision_normal(vox(3.0, -4.0, 1.0)), vox(0.0, 1.0, 0.0));
    assert_eq!(p.collision_normal(vox(0.0, 0.0, 0.0)), vox(0.0, 1.0, 0.0));
    assert_eq!(p.collision_material(vox(3.0, -4.0, 1.0)), Material::default());
}

#[test]
fn rectangle_from_corner_centre_and_side() {
    let r = patch();
    assert_eq!(r.width, vox(4.0, 0.0, 0.0));
    assert_eq!(r.height, vox(0.0, 0.0, -18.0));
    assert_eq!(r.plane.normal, vox(0.0, 1.0, 0.0));
    assert_eq!(r.plane.point, vox(0.0, -4.0, -1.0));
    assert_eq!(r.material, ivory());
}

#[test]
fn rectangle_hit_inside() {
    let r = patch();
    assert_eq!(
        r.ray_intersect(&ray(vox(2.0, 0.0, -10.0), vox(0.0, -1.0, 0.0))),
        HitPoint::Point(vox(2.0, -4.0, -10.0))
    );
    assert_eq!(
        r.ray_intersect(&ray(vox(2.0, -8.0, -10.0), vox(0.0, 1.0, 0.0))),
        HitPoint::Point(vox(2.0, -4.0, -10.0))
    );
    let p = point_of(r.ray_intersect(&ray(vox(3.9, 0.0, -18.9), vox(0.0, -1.0, 0.0))));
    assert_eq!(p.y, fx(-4.0));
}

#[test]
fn rectangle_reaches_as_far_back_from_its_point_as_forward() {
    let r = patch();
    assert_eq!(
        r.ray_intersect(&ray(vox(-1.0, 0.0, -5.0), vox(0.0, -1.0, 0.0))),
        HitPoint::Point(vox(-1.0, -4.0, -5.0))
    );
    assert_eq!(
        r.ray_intersect(&ray(vox(2.0, 0.0, 10.0), vox(0.0, -1.0, 0.0))),
        HitPoint::Point(vox(2.0, -4.0, 10.0))
    );
}

#[test]
fn rectangle_edge_belongs_to_it() {
    let r = patch();
    assert_eq!(
        r.ray_intersect(&ray(vox(4.0, 0.0, -19.0), vox(0.0, -1.0, 0.0))),
        HitPoint::Point(vox(4.0, -4.0, -19.0))
    );
}

#[test]
fn rectangle_missed_outside_its_sides() {
    let r = patch();
    assert_eq!(r.ray_intersect(&ray(vox(4.1, 0.0, -10.0), vox(0.0, -1.0, 0.0))), HitPoint::Miss);
    assert_eq!(r.ray_intersect(&ray(vox(-4.1, 0.0, -5.0), vox(0.0, -1.0, 0.0))), HitPoint::Miss);
    assert_eq!(r.ray_intersect(&ray(vox(2.0, 0.0, -19.1), vox(0.0, -1.0, 0.0))), HitPoint::Miss);
    assert_eq!(r.ray_intersect(&ray(vox(2.0, 0.0, 17.1), vox(0.0, -1.0, 0.0))), HitPoint::Miss);
}

#[test]
fn rectangle_missed_where_its_plane_is_missed() {
    let r = patch();
    assert_eq!(r.ray_intersect(&ray(vox(2.0, 0.0, -10.0), vox(0.0, 1.0, 0.0))), HitPoint::Miss);
    assert_eq!(r.ray_intersect(&ray(vox(2.0, 0.0, -10.0), vox(1.0, 0.0, 0.0))), HitPoint::Miss);
}

#[test]
fn rectangle_normal_and_material() {
    let r = patch();
    assert_eq!(r.collision_normal(vox(2.0, -4.0, -10.0)), vox(0.0, 1.0, 0.0));
    assert_eq!(r.collision_material(vox(2.0, -4.0, -10.0)), ivory());
}

#[test]
fn primitive_answers_as_the_shape_it_holds() {
    let down = ray(vox(2.0, 0.0, -10.0), vox(0.0, -1.0, 0.0));
    let ahead = ray(Vox::orig(), vox(0.0, 0.0, -1.0));
    let s = Primitive::Sphere(ball());
    let p = Primitive::Plane(floor());
    let r = Primitive::Rectangle(patch());
    assert_eq!(s.ray_intersect(&ahead), ball().ray_intersect(&ahead));
    assert_eq!(s.ray_intersect(&ahead), HitPoint::Point(vox(0.0, 0.0, -8.0)));
    assert_eq!(s.ray_intersect(&down), HitPoint::Miss);
    assert_eq!(p.ray_intersect(&down), HitPoint::Point(vox(2.0, -4.0, -10.0)));
    assert_eq!(p.ray_intersect(&ahead), HitPoint::Miss);
    assert_eq!(r.ray_intersect(&down), HitPoint::Point(vox(2.0, -4.0, -10.0)));
    assert_eq!(s.collision_normal(vox(0.0, 0.0, -8.0)), vox(0.0, 0.0, 1.0));
    assert_eq!(p.collision_normal(vox(0.0, 0.0, -8.0)), vox(0.0, 1.0, 0.0));
    assert_eq!(r.collision_normal(vox(0.0, 0.0, -8.0)), vox(0.0, 1.0, 0.0));
    assert_eq!(s.collision_material(Vox::orig()), ivory());
    assert_eq!(p.collision_material(Vox::orig()), Material::default());
    assert_eq!(r.collision_material(Vox::orig()), ivory());
}

#[test]
fn shapes_answer_through_the_trait() {
    fn first_hit<T: RayCollision>(shape: &T, r: &Ray) -> HitPoint {
        shape.ray_intersect(r)
    }
    let ahead = ray(Vox::orig(), vox(0.0, 0.0, -1.0));
    assert_eq!(first_hit(&ball(), &ahead), HitPoint::Point(vox(0.0, 0.0, -8.0)));
    assert_eq!(first_hit(&floor(), &ahead), HitPoint::Miss);
    assert_eq!(first_hit(&patch(), &ahead), HitPoint::Miss);
    assert_eq!(first_hit(&Primitive::Sphere(ball()), &ahead), HitPoint::Point(vox(0.0, 0.0, -8.0)));
    assert_eq!(RayCollision::collision_normal(&ball(), vox(0.0, 0.0, -8.0)), vox(0.0, 0.0, 1.0));
    assert_eq!(RayCollision::collision_material(&floor(), Vox::orig()), Material::default());
}
