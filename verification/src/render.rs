//! The integrator: the colour that arrives along a ray, and the pixels that
//! samples of it make.

use vstd::prelude::*;
use crate::number::Real;
use crate::vec3::{Color, Vec3, origin};
use crate::ray::Ray;
use crate::hittable::Hittable;
use crate::camera::Camera;
use crate::ppm::{PPM, RGB, sampled_pixel_of, image_text, quantize_samples};
use crate::utils::{RandomSource, random_double, draw_unit};

verus! {

/// Black.
pub open spec fn black() -> Color {
    origin()
}

/// The nearest parameter at which a hit counts: `0.001`, so that a ray which
/// leaves a surface does not hit it again at once.
pub open spec fn shadow_bias() -> Real {
    Real::of_ratio(1, 1000)
}

/// Positive infinity.
pub open spec fn unbounded() -> Real {
    Real { bits: crate::binary64::format::INFINITY_BITS }
}

/// The colour of the sky along a ray: white blended into blue by the height
/// of its direction, `(1 - t) * (1, 1, 1) + t * (0.5, 0.7, 1)` with
/// `t = 0.5 * (unit(direction).y + 1)`.
pub open spec fn background_spec(ray: Ray) -> Color {
    let one = Real::of_int(1);
    let t = Real::of_ratio(1, 2).times(ray.dir.unit_vector_spec().1.plus(one));
    Vec3::splat(one.minus(t)).times(Vec3::splat(one)).plus(
        Vec3::splat(t).times(Vec3(Real::of_ratio(1, 2), Real::of_ratio(7, 10), one)),
    )
}

/// The colour that arrives along `ray` after at most `depth` bounces, and
/// the source after it.
///
/// Black at depth zero. Else the sky where the ray hits nothing beyond the
/// shadow bias. Else what the material at the nearest hit makes of the ray:
/// black where it absorbs it, and where it sends it on, its attenuation
/// times the colour that arrives along the ray sent on at one depth less.
pub open spec fn shade<W: Hittable>(world: &W, ray: Ray, depth: nat, source: RandomSource) -> (
    Color,
    RandomSource,
)
    decreases depth,
{
    if depth == 0 {
        (black(), source)
    } else {
        match world.hit_spec(ray, shadow_bias(), unbounded()) {
            None => (background_spec(ray), source),
            Some(rec) => {
                let (out, after) = rec.material.scatter_spec(ray, rec, source);
                match out {
                    None => (black(), after),
                    Some((attenuation, scattered)) => {
                        let (beyond, last) = shade(world, scattered, (depth - 1) as nat, after);
                        (attenuation.times(beyond), last)
                    },
                }
            },
        }
    }
}

/// Where on the screen, as a share of its extent, a sample of pixel `index`
/// lies that is moved by `jitter` within the pixel: `(index + jitter) /
/// (extent - 1)`.
pub open spec fn screen_share(index: u32, jitter: Real, extent: u32) -> Real {
    Real::of_int(index as int).plus(jitter).over(
        Real::of_int(extent as int).minus(Real::of_int(1)),
    )
}

/// One sample of the pixel in column `i` and row `j`, counted from the
/// bottom, and the source after it: two numbers are drawn that move the
/// sample within the pixel, first across, then upwards; the camera gives the
/// ray there; the sample is the colour that arrives along it.
pub open spec fn sample_spec<W: Hittable>(
    camera: &Camera,
    world: &W,
    i: u32,
    j: u32,
    width: u32,
    height: u32,
    depth: u32,
    source: RandomSource,
) -> (Color, RandomSource) {
    let (du, first) = draw_unit(source);
    let (dv, second) = draw_unit(first);
    let (ray, third) = camera.get_ray_spec(
        screen_share(i, du, width),
        screen_share(j, dv, height),
        second,
    );
    shade(world, ray, depth as nat, third)
}

/// The sum of `n` samples of a pixel, added one by one to black, and the
/// source after them.
pub open spec fn sum_spec<W: Hittable>(
    camera: &Camera,
    world: &W,
    i: u32,
    j: u32,
    width: u32,
    height: u32,
    depth: u32,
    n: nat,
    source: RandomSource,
) -> (Color, RandomSource)
    decreases n,
{
    if n == 0 {
        (black(), source)
    } else {
        let (before, after) = sum_spec(
            camera,
            world,
            i,
            j,
            width,
            height,
            depth,
            (n - 1) as nat,
            source,
        );
        let (sample, last) = sample_spec(camera, world, i, j, width, height, depth, after);
        (before.plus(sample), last)
    }
}

/// The pixel in column `i` and row `j`, counted from the bottom, and the
/// source after it: the pixel of the sum of `samples` samples.
pub open spec fn pixel_spec<W: Hittable>(
    camera: &Camera,
    world: &W,
    i: u32,
    j: u32,
    width: u32,
    height: u32,
    samples: u32,
    depth: u32,
    source: RandomSource,
) -> (RGB, RandomSource) {
    let (sum, after) = sum_spec(camera, world, i, j, width, height, depth, samples as nat, source);
    (sampled_pixel_of(sum, samples), after)
}

/// The first `n` pixels of row `j`, counted from the bottom, from left to
/// right, and the source after them.
pub open spec fn row_spec<W: Hittable>(
    camera: &Camera,
    world: &W,
    j: u32,
    width: u32,
    height: u32,
    samples: u32,
    depth: u32,
    n: nat,
    source: RandomSource,
) -> (Seq<RGB>, RandomSource)
    decreases n,
{
    if n == 0 {
        (Seq::empty(), source)
    } else {
        let (before, after) = row_spec(
            camera,
            world,
            j,
            width,
            height,
            samples,
            depth,
            (n - 1) as nat,
            source,
        );
        let (pixel, last) = pixel_spec(
            camera,
            world,
            (n - 1) as u32,
            j,
            width,
            height,
            samples,
            depth,
            after,
        );
        (before.push(pixel), last)
    }
}

/// The first `n` rows of the image from the top, and the source after them;
/// the first row is row `height - 1` counted from the bottom.
pub open spec fn image_spec<W: Hittable>(
    camera: &Camera,
    world: &W,
    width: u32,
    height: u32,
    samples: u32,
    depth: u32,
    n: nat,
    source: RandomSource,
) -> (Seq<Seq<RGB>>, RandomSource)
    decreases n,
{
    if n == 0 {
        (Seq::empty(), source)
    } else {
        let (before, after) = image_spec(
            camera,
            world,
            width,
            height,
            samples,
            depth,
            (n - 1) as nat,
            source,
        );
        let (row, last) = row_spec(
            camera,
            world,
            (height - n) as u32,
            width,
            height,
            samples,
            depth,
            width as nat,
            after,
        );
        (before.push(row), last)
    }
}

/// The text of the image of `world` through `camera` that the source of
/// seed `seed` gives.
pub open spec fn picture_text<W: Hittable>(
    camera: &Camera,
    world: &W,
    width: u32,
    height: u32,
    samples: u32,
    depth: u32,
    seed: u64,
) -> Seq<u8> {
    image_text(
        width,
        height,
        image_spec(
            camera,
            world,
            width,
            height,
            samples,
            depth,
            height as nat,
            RandomSource::of_seed(seed),
        ).0,
    )
}

/// The colour of the sky along a ray.
pub fn background(ray: &Ray) -> (c: Color)
    ensures
        c == background_spec(*ray),
{
    let one = Real::from_i64(1);
    let unit_direction = ray.direction().unit_vector();
    let t = Real::from_ratio(1, 2) * (unit_direction.y() + one);
    (one - t) * Vec3(one, one, one) + t * Vec3(Real::from_ratio(1, 2), Real::from_ratio(7, 10), one)
}

/// The colour that arrives along `ray` after at most `depth` bounces.
pub fn ray_color<W: Hittable>(ray: &Ray, world: &W, depth: u32, source: &mut RandomSource) -> (c:
    Color)
    ensures
        (c, *final(source)) == shade(world, *ray, depth as nat, *old(source)),
        depth == 0 ==> c == black(),
    decreases depth,
{
    let zero = Real::from_bits(0);
    if depth == 0 {
        return Vec3(zero, zero, zero);
    }
    match world.hit(ray, Real::from_ratio(1, 1000), Real::infinity()) {
        Some(rec) => {
            match rec.material.scatter(ray, &rec, source) {
                Some((attenuation, scattered)) => {
                    attenuation * ray_color(&scattered, world, depth - 1, source)
                },
                None => Vec3(zero, zero, zero),
            }
        },
        None => background(ray),
    }
}

/// One sample of the pixel in column `i` and row `j`, counted from the bottom.
pub fn sample_pixel<W: Hittable>(
    camera: &Camera,
    world: &W,
    i: u32,
    j: u32,
    width: u32,
    height: u32,
    depth: u32,
    source: &mut RandomSource,
) -> (c: Color)
    ensures
        (c, *final(source)) == sample_spec(
            camera,
            world,
            i,
            j,
            width,
            height,
            depth,
            *old(source),
        ),
{
    let one = Real::from_i64(1);
    let du = random_double(source);
    let dv = random_double(source);
    let u = (Real::from_i64(i as i64) + du) / (Real::from_i64(width as i64) - one);
    let v = (Real::from_i64(j as i64) + dv) / (Real::from_i64(height as i64) - one);
    let r = camera.get_ray(u, v, source);
    ray_color(&r, world, depth, source)
}

/// The pixel in column `i` and row `j`: `samples` samples, summed, averaged,
/// corrected for gamma 2 and cut to a byte a channel.
pub fn render_pixel<W: Hittable>(
    camera: &Camera,
    world: &W,
    i: u32,
    j: u32,
    width: u32,
    height: u32,
    samples: u32,
    depth: u32,
    source: &mut RandomSource,
) -> (pixel: RGB)
    ensures
        (pixel, *final(source)) == pixel_spec(
            camera,
            world,
            i,
            j,
            width,
            height,
            samples,
            depth,
            *old(source),
        ),
{
    let zero = Real::from_bits(0);
    let mut color = Vec3(zero, zero, zero);
    let mut n: u32 = 0;
    while n < samples
        invariant
            n <= samples,
            (color, *source) == sum_spec(
                camera,
                world,
                i,
                j,
                width,
                height,
                depth,
                n as nat,
                *old(source),
            ),
        decreases samples - n,
    {
        let sample = sample_pixel(camera, world, i, j, width, height, depth, source);
        color = color + sample;
        n = n + 1;
    }
    RGB(
        quantize_samples(color.0, samples),
        quantize_samples(color.1, samples),
        quantize_samples(color.2, samples),
    )
}

/// The pixels of row `j`, counted from the bottom, from left to right.
pub fn render_row<W: Hittable>(
    camera: &Camera,
    world: &W,
    j: u32,
    width: u32,
    height: u32,
    samples: u32,
    depth: u32,
    source: &mut RandomSource,
) -> (row: Vec<RGB>)
    ensures
        row@.len() == width,
        (row@, *final(source)) == row_spec(
            camera,
            world,
            j,
            width,
            height,
            samples,
            depth,
            width as nat,
            *old(source),
        ),
{
    let mut row: Vec<RGB> = Vec::new();
    let mut i: u32 = 0;
    while i < width
        invariant
            i <= width,
            row@.len() == i,
            (row@, *source) == row_spec(
                camera,
                world,
                j,
                width,
                height,
                samples,
                depth,
                i as nat,
                *old(source),
            ),
        decreases width - i,
    {
        let pixel = render_pixel(camera, world, i, j, width, height, samples, depth, source);
        row.push(pixel);
        i = i + 1;
    }
    row
}

/// The image of `world` through `camera`, its rows from top to bottom.
pub fn render<W: Hittable>(
    camera: &Camera,
    world: &W,
    width: u32,
    height: u32,
    samples: u32,
    depth: u32,
    source: &mut RandomSource,
) -> (image: PPM)
    ensures
        image.wf(),
        image.width == width,
        image.height == height,
        (image.rows(), *final(source)) == image_spec(
            camera,
            world,
            width,
            height,
            samples,
            depth,
            height as nat,
            *old(source),
        ),
{
    let mut pixels: Vec<Vec<RGB>> = Vec::new();
    let mut done: u32 = 0;
    let ghost mut rows: Seq<Seq<RGB>> = Seq::empty();
    while done < height
        invariant
            done <= height,
            pixels@.len() == done,
            rows.len() == done,
            forall|r: int| 0 <= r < done ==> (#[trigger] pixels@[r])@.len() == width,
            forall|r: int| 0 <= r < done ==> (#[trigger] pixels@[r])@ == rows[r],
            (rows, *source) == image_spec(
                camera,
                world,
                width,
                height,
                samples,
                depth,
                done as nat,
                *old(source),
            ),
        decreases height - done,
    {
        let j: u32 = height - 1 - done;
        let row = render_row(camera, world, j, width, height, samples, depth, source);
        proof {
            rows = rows.push(row@);
        }
        pixels.push(row);
        done = done + 1;
    }
    let image = PPM { width, height, pixels };
    assert(image.rows() =~= rows);
    image
}

/// The whole of the work: the image of `world` through `camera` as text,
/// with the random numbers of the source of seed `seed`. The text depends on
/// nothing else: the same scene, camera, measures and seed give the same
/// text, byte for byte.
pub fn render_text<W: Hittable>(
    camera: &Camera,
    world: &W,
    width: u32,
    height: u32,
    samples: u32,
    depth: u32,
    seed: u64,
) -> (text: Vec<u8>)
    ensures
        text@ == picture_text(camera, world, width, height, samples, depth, seed),
{
    let mut source = RandomSource::seeded(seed);
    let image = render(camera, world, width, height, samples, depth, &mut source);
    image.encode()
}

} // verus!
