use tinyraytrace::blocks::{LightSource, Material, Primitive, Rectangle2D, Rgb8, Sphere};
use tinyraytrace::camera::{camera_ray, render, render_canvas, CANVAS_WIDTH_HEIGHT, TAN_FOV_RAW};
use tinyraytrace::fixed::Fixed;
use tinyraytrace::scene::{LightBuilder, SphereBuilder};
use tinyraytrace::tracer::reflective_ray_cast;
use tinyraytrace::voxel::Vox;

fn fx(v: f64) -> Fixed {
    Fixed::from_raw((v * 4294967296.0).round() as i64)
}

fn vox(x: f64, y: f64, z: f64) -> Vox {
    Vox::new((fx(x), fx(y), fx(z)))
}

fn raw(x: i64, y: i64, z: i64) -> Vox {
    Vox::new((Fixed::from_raw(x), Fixed::from_raw(y), Fixed::from_raw(z)))
}

fn mirror() -> Material {
    Material::new((fx(1.0), fx(1.0), fx(1.0)), (fx(0.0), fx(10.0), fx(0.8), fx(0.0)), 1425, fx(1.0))
}

fn rubber() -> Material {
    Material::new((fx(0.3), fx(0.1), fx(0.1)), (fx(0.9), fx(0.1), fx(0.0), fx(0.0)), 10, fx(1.0))
}

fn the_scene() -> Vec<Primitive> {
    let spheres = SphereBuilder::new().add((fx(7.0), fx(5.0), fx(-18.0)), fx(4.0), mirror()).build();
    let mut scene: Vec<Primitive> = spheres.iter().map(|s| Primitive::Sphere(*s)).collect();
    scene.push(Primitive::Rectangle(Rectangle2D::new(
        vox(0.0, -4.0, -1.0),
        vox(2.0, -4.0, -10.0),
        vox(1.0, 0.0, 0.0),
        rubber(),
    )));
    scene
}

fn the_lights() -> Vec<LightSource> {
    LightBuilder::new()
        .add((fx(-20.0), fx(20.0), fx(20.0)), fx(1.5))
        .add((fx(30.0), fx(50.0), fx(-25.0)), fx(1.3))
        .add((fx(30.0), fx(20.0), fx(30.0)), fx(1.3))
        .build()
}

#[test]
fn the_constants_of_the_camera() {
    assert_eq!(CANVAS_WIDTH_HEIGHT, (1024, 768));
    // tan(2 / pi) = 0.7393029504866...
    assert_eq!(TAN_FOV_RAW, 3175281994);
    assert!((TAN_FOV_RAW as f64 / 4294967296.0 - (2.0 / std::f64::consts::PI).tan()).abs() < 1e-9);
}

#[test]
fn camera_rays_start_at_the_eye() {
    for (i, j) in [(0, 0), (3, 2), (15, 11)] {
        assert_eq!(camera_ray(i, j, 16, 12).origin, Vox::orig());
    }
}

#[test]
fn camera_rays_have_nearly_unit_direction() {
    let one: i64 = 1 << 32;
    for (w, h) in [(1, 1), (16, 12), (1024, 768), (3, 1000), (4000, 7)] {
        for (i, j) in [(0, 0), (w - 1, 0), (0, h - 1), (w - 1, h - 1), (w / 2, h / 2)] {
            let len = camera_ray(i, j, w, h).direction.l2().raw;
            assert!(one - 4 <= len && len <= one + 6, "{} {} of {} {}: {}", i, j, w, h, len);
        }
    }
}

#[test]
fn camera_rays_through_the_corners() {
    // the corner columns lie at -15/12 and 15/12 of the tangent, the corner
    // rows at 11/12 and -11/12 of it
    assert_eq!(camera_ray(0, 0, 16, 12).direction, raw(-2609623679, 1913724030, -2823874762));
    assert_eq!(camera_ray(15, 11, 16, 12).direction, raw(2609623678, -1913724031, -2823874762));
    assert_eq!(camera_ray(8, 6, 16, 12).direction, raw(263608168, -263608169, -4278757477));
}

#[test]
fn camera_ray_of_a_single_pixel_looks_straight_ahead() {
    assert_eq!(camera_ray(0, 0, 1, 1).direction, vox(0.0, 0.0, -1.0));
}

#[test]
fn camera_rays_mirror_each_other() {
    let (w, h) = (64, 48);
    for (i, j) in [(0, 0), (10, 7), (31, 23), (5, 40)] {
        let a = camera_ray(i, j, w, h).direction;
        let b = camera_ray(w - 1 - i, h - 1 - j, w, h).direction;
        assert!((a.x.raw + b.x.raw).abs() <= 2);
        assert!((a.y.raw + b.y.raw).abs() <= 2);
        assert!((a.z.raw - b.z.raw).abs() <= 2);
        assert!(a.z.raw < 0);
    }
}

#[test]
fn an_empty_scene_is_all_sky() {
    let nothing: Vec<Primitive> = vec![];
    let canvas = render_canvas(&nothing, &[], 8, 6);
    assert_eq!(canvas.width(), 8);
    assert_eq!(canvas.height(), 6);
    for y in 0..6 {
        for x in 0..8 {
            assert_eq!(canvas.pixel_at(x, y), Some(Rgb8 { r: 51, g: 178, b: 204 }));
        }
    }
}

#[test]
fn outside_the_picture_there_is_no_pixel() {
    let nothing: Vec<Primitive> = vec![];
    let canvas = render_canvas(&nothing, &[], 8, 6);
    assert_eq!(canvas.pixel_at(8, 0), None);
    assert_eq!(canvas.pixel_at(0, 6), None);
    assert_eq!(canvas.pixel_at(8, 6), None);
    assert_eq!(canvas.pixel_at(u32::MAX, u32::MAX), None);
    assert!(canvas.pixel_at(7, 5).is_some());
}

#[test]
fn a_picture_without_area() {
    let nothing: Vec<Primitive> = vec![];
    let canvas = render_canvas(&nothing, &[], 0, 0);
    assert_eq!((canvas.width(), canvas.height()), (0, 0));
    assert_eq!(canvas.pixel_at(0, 0), None);
    let canvas = render_canvas(&nothing, &[], 5, 0);
    assert_eq!((canvas.width(), canvas.height()), (5, 0));
    assert_eq!(canvas.pixel_at(0, 0), None);
    let canvas = render_canvas(&nothing, &[], 0, 5);
    assert_eq!((canvas.width(), canvas.height()), (0, 5));
    assert_eq!(canvas.pixel_at(0, 0), None);
}

#[test]
fn every_pixel_is_what_its_ray_brings_back() {
    let scene = the_scene();
    let lights = the_lights();
    let (w, h) = (16, 12);
    let canvas = render_canvas(&scene, &lights, w, h);
    assert_eq!((canvas.width(), canvas.height()), (w, h));
    for y in 0..h {
        for x in 0..w {
            let m = reflective_ray_cast(camera_ray(x, y, w, h), &scene, &lights, 0);
            assert_eq!(canvas.pixel_at(x, y), Some(m.pixel), "at {} {}", x, y);
        }
    }
}

#[test]
fn the_picture_of_the_scene() {
    let canvas = render_canvas(&the_scene(), &the_lights(), 16, 12);
    let sky = Rgb8 { r: 0x33, g: 0xb2, b: 0xcc };
    let sky_in_the_mirror = Rgb8 { r: 0x29, g: 0x8f, b: 0xa3 };
    assert_eq!(canvas.pixel_at(0, 0), Some(sky));
    assert_eq!(canvas.pixel_at(15, 11), Some(sky));
    assert_eq!(canvas.pixel_at(10, 2), Some(sky_in_the_mirror));
    assert_eq!(canvas.pixel_at(12, 4), Some(sky_in_the_mirror));
    // the floor, seen in the mirror
    assert_eq!(canvas.pixel_at(10, 4), Some(Rgb8 { r: 0x4a, g: 0x1a, b: 0x1a }));
    // the floor in the shadow of the ball, and in the light
    assert_eq!(canvas.pixel_at(7, 8), Some(Rgb8 { r: 0x5c, g: 0x1f, b: 0x1f }));
    assert_eq!(canvas.pixel_at(6, 8), Some(Rgb8 { r: 0xa8, g: 0x38, b: 0x38 }));
    assert_eq!(canvas.pixel_at(2, 11), Some(Rgb8 { r: 0xb0, g: 0x3b, b: 0x3b }));
    assert_eq!(canvas.pixel_at(13, 11), Some(Rgb8 { r: 0xb7, g: 0x41, b: 0x41 }));
}

#[test]
fn the_full_picture_of_nothing() {
    let nothing: Vec<Primitive> = vec![];
    let canvas = render(&nothing, &[]);
    assert_eq!((canvas.width(), canvas.height()), (1024, 768));
    let sky = Some(Rgb8 { r: 51, g: 178, b: 204 });
    assert_eq!(canvas.pixel_at(0, 0), sky);
    assert_eq!(canvas.pixel_at(512, 384), sky);
    assert_eq!(canvas.pixel_at(1023, 767), sky);
    assert_eq!(canvas.pixel_at(1024, 767), None);
    assert_eq!(canvas.pixel_at(1023, 768), None);
}

#[test]
fn sphere_builder_collects_in_order() {
    assert!(SphereBuilder::new().build().is_empty());
    let spheres = SphereBuilder::new()
        .add((fx(-3.0), fx(0.0), fx(-16.0)), fx(2.0), rubber())
        .add((fx(7.0), fx(5.0), fx(-18.0)), fx(4.0), mirror())
        .build();
    assert_eq!(spheres.len(), 2);
    assert_eq!(spheres[0].center, vox(-3.0, 0.0, -16.0));
    assert_eq!(spheres[0].radius, fx(2.0));
    assert_eq!(spheres[0].material, rubber());
    assert_eq!(spheres[1].center, vox(7.0, 5.0, -18.0));
    assert_eq!(spheres[1].radius, fx(4.0));
    assert_eq!(spheres[1].material, mirror());
    let one: Vec<Sphere> = SphereBuilder::new().add((fx(0.0), fx(0.0), fx(0.0)), fx(1.0), mirror()).build();
    assert_eq!(one.len(), 1);
}

#[test]
fn light_builder_collects_in_order() {
    assert!(LightBuilder::new().build().is_empty());
    let lights = the_lights();
    assert_eq!(lights.len(), 3);
    assert_eq!(lights[0], LightSource { position: vox(-20.0, 20.0, 20.0), intensity: fx(1.5) });
    assert_eq!(lights[1], LightSource { position: vox(30.0, 50.0, -25.0), intensity: fx(1.3) });
    assert_eq!(lights[2], LightSource { position: vox(30.0, 20.0, 30.0), intensity: fx(1.3) });
}
