//! From the positions of a picture to rays, and from a scene to a picture.

use crate::blocks::{LightSource, Ray, RayCollision, Rgb8};
use crate::canvas::{blank_canvas, canvas_pixels, canvas_size, put_pixel, Canvas};
use crate::fixed::{floor_div, sat, saturate, Fixed};
use crate::geometry::{is_near_unit, lemma_length_at_least};
use crate::tracer::{reflective_ray_cast, traced, MAX_RAY_BOUNCES};
use crate::voxel::Vox;
use core::ops::Neg;
use vstd::prelude::*;

verus! {

/// The raw value of the tangent of half the angle of view: the nearest
/// fixed-point number to the tangent of `2 / pi`.
pub const TAN_FOV_RAW: i64 = 3175281994;

/// The width and the height of the picture that [`render`] draws.
pub const CANVAS_WIDTH_HEIGHT: (u32, u32) = (1024, 768);

/// Where the centre of column `i`, of `extent` columns, lies on the plane of
/// the picture at distance one: `(2 (i + 1/2) / extent - 1)` times the tangent
/// of half the angle of view times `extent / height`, rounded once. With the
/// height for `extent` it serves for rows, up to the sign.
pub open spec fn screen_offset(i: u32, extent: u32, height: u32) -> Fixed {
    Fixed { raw: sat(((2 * i + 1 - extent) * TAN_FOV_RAW) / (height as int)) as i64 }
}

fn offset_on_screen(i: u32, extent: u32, height: u32) -> (r: Fixed)
    requires
        height > 0,
    ensures
        r == screen_offset(i, extent, height),
{
    let steps: i128 = 2 * (i as i128) + 1 - (extent as i128);
    let tangent: i128 = TAN_FOV_RAW as i128;
    assert(steps * tangent == steps * 3175281994);
    let scaled: i128 = steps * tangent;
    Fixed { raw: saturate(floor_div(scaled, height as i128)) }
}

pub open spec fn spec_camera_ray(i: u32, j: u32, width: u32, height: u32) -> Ray {
    let dir = Vox {
        x: screen_offset(i, width, height),
        y: screen_offset(j, height, height).negated(),
        z: Fixed::one().negated(),
    };
    Ray::new(dir.normalized())
}

/// The ray from the eye, at the origin, through the centre of column `i` of
/// row `j` of a picture of the given size. The eye looks along the negative
/// `z` axis at a picture plane at distance one; rows run downward. The
/// direction of the ray has length one, give or take a few units of the last
/// place.
#[verifier::when_used_as_spec(spec_camera_ray)]
pub fn camera_ray(i: u32, j: u32, width: u32, height: u32) -> (ray: Ray)
    requires
        height > 0,
    ensures
        ray == spec_camera_ray(i, j, width, height),
        ray.origin == Vox::orig(),
        is_near_unit(ray.direction),
{
    let x = offset_on_screen(i, width, height);
    let y = offset_on_screen(j, height, height).neg();
    let through = Vox::new((x, y, Fixed::one().neg()));
    proof {
        lemma_length_at_least(through);
    }
    let dir = through.normalized();
    Ray::new(dir)
}

/// The colour that a picture of the given size shows at column `x` of row
/// `y`: what the ray through that position brings back from the scene.
pub open spec fn rendered_pixel<T: RayCollision>(
    scene: Seq<T>,
    lights: Seq<LightSource>,
    x: int,
    y: int,
    width: u32,
    height: u32,
) -> (u8, u8, u8) {
    let pixel = traced(
        camera_ray(x as u32, y as u32, width, height),
        scene,
        lights,
        0,
        MAX_RAY_BOUNCES,
    ).pixel;
    (pixel.r, pixel.g, pixel.b)
}

/// The picture of the scene, of the given size: each position shows what the
/// ray through it brings back.
pub fn render_canvas<T: RayCollision>(
    scene: &[T],
    lights: &[LightSource],
    width: u32,
    height: u32,
) -> (canvas: Canvas)
    requires
        3 * width * height <= isize::MAX,
    ensures
        canvas_size(canvas) == (width as int, height as int),
        forall|x: int, y: int|
            0 <= x < width && 0 <= y < height ==> #[trigger] canvas_pixels(canvas)[(x, y)]
                == rendered_pixel(scene@, lights@, x, y, width, height),
{
    let mut canvas = blank_canvas(width, height);
    let mut j: u32 = 0;
    while j < height
        invariant
            j <= height,
            canvas_size(canvas) == (width as int, height as int),
            forall|x: int, y: int|
                0 <= x < width && 0 <= y < j ==> #[trigger] canvas_pixels(canvas)[(x, y)]
                    == rendered_pixel(scene@, lights@, x, y, width, height),
        decreases height - j,
    {
        let mut i: u32 = 0;
        while i < width
            invariant
                i <= width,
                j < height,
                canvas_size(canvas) == (width as int, height as int),
                forall|x: int, y: int|
                    0 <= x < width && 0 <= y < j ==> #[trigger] canvas_pixels(canvas)[(x, y)]
                        == rendered_pixel(scene@, lights@, x, y, width, height),
                forall|x: int|
                    0 <= x < i ==> #[trigger] canvas_pixels(canvas)[(x, j as int)]
                        == rendered_pixel(scene@, lights@, x, j as int, width, height),
            decreases width - i,
        {
            let ray = camera_ray(i, j, width, height);
            let reflected_material = reflective_ray_cast(ray, scene, lights, 0);
            put_pixel(&mut canvas, i, j, reflected_material.pixel);
            i += 1;
        }
        j += 1;
    }
    canvas
}

/// The picture of the scene at the size [`CANVAS_WIDTH_HEIGHT`].
pub fn render<T: RayCollision>(scene: &[T], lights: &[LightSource]) -> (canvas: Canvas)
    ensures
        canvas_size(canvas) == (CANVAS_WIDTH_HEIGHT.0 as int, CANVAS_WIDTH_HEIGHT.1 as int),
        forall|x: int, y: int|
            0 <= x < CANVAS_WIDTH_HEIGHT.0 && 0 <= y < CANVAS_WIDTH_HEIGHT.1
                ==> #[trigger] canvas_pixels(canvas)[(x, y)] == rendered_pixel(
                scene@,
                lights@,
                x,
                y,
                CANVAS_WIDTH_HEIGHT.0,
                CANVAS_WIDTH_HEIGHT.1,
            ),
{
    let (imgx, imgy) = CANVAS_WIDTH_HEIGHT;
    render_canvas(scene, lights, imgx, imgy)
}

} // verus!
