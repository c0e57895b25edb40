//! Sampling pixels, rendering a band of work, and merging bands into the
//! framebuffer.

use crate::camera::Camera;
use crate::fixed::{fadd, fdiv, fx_add, fx_div, SCALE};
use crate::hittables::Hittables;
use crate::hittable::Hittable;
use crate::random::{in_unit_disk, random};
use crate::scheduler::{band_height, band_rows, create_work_list, lemma_work_list_partition, pixel_slot, Work};
use crate::tracer::{colour_spec, ray_color, valid_samples};
use crate::vec3::{channel_byte, Vec3};
use vstd::arithmetic::div_mod::{lemma_fundamental_div_mod, lemma_fundamental_div_mod_converse};
use vstd::prelude::*;

verus! {

/// Horizontal image-plane coordinate of column `x` jittered by `ru`.
pub open spec fn pixel_u(x: int, ru: int, width: int) -> int {
    fdiv(fadd(x * SCALE, ru), (width - 1) * SCALE)
}

/// Vertical image-plane coordinate of row `y` (counted from the top)
/// jittered by `rv`.
pub open spec fn pixel_v(y: int, rv: int, height: int) -> int {
    fdiv(fadd((height - (y + 1)) * SCALE, rv), (height - 1) * SCALE)
}

/// `c` is one estimate of pixel `(x, y)`: the colour of a camera ray
/// through the pixel jittered within it, from some point of the lens, with
/// some random bounces.
pub open spec fn is_sample(world: Hittables, camera: Camera, x: int, y: int, width: int, height: int, depth: int, c: Vec3) -> bool {
    exists|ru: int, rv: int, disk: Vec3, samples: Seq<(Vec3, int)>|
        0 <= ru < SCALE && 0 <= rv < SCALE && in_unit_disk(disk) && valid_samples(samples) && c
            == #[trigger] colour_spec(
            world,
            camera.ray_for(pixel_u(x, ru, width), pixel_v(y, rv, height), disk),
            depth,
            samples,
        )
}

/// Sum of the colours, added in order.
pub open spec fn sum_spec(cs: Seq<Vec3>) -> Vec3
    decreases cs.len(),
{
    if cs.len() == 0 {
        Vec3 { x: 0, y: 0, z: 0 }
    } else {
        sum_spec(cs.drop_last()).spec_add(cs.last())
    }
}

/// `c` is the sum of `n` estimates of pixel `(x, y)`.
pub open spec fn is_pixel_sum(world: Hittables, camera: Camera, x: int, y: int, width: int, height: int, depth: int, n: int, c: Vec3) -> bool {
    exists|cs: Seq<Vec3>|
        cs.len() == n && c == #[trigger] sum_spec(cs) && forall|i: int|
            0 <= i < n ==> is_sample(world, camera, x, y, width, height, depth, #[trigger] cs[i])
}

/// The bytes of a summed colour averaged over `n` samples.
pub open spec fn rgb_spec(c: Vec3, n: int) -> Seq<u8> {
    seq![channel_byte(c.x as int, n) as u8, channel_byte(c.y as int, n) as u8, channel_byte(c.z as int, n) as u8]
}

/// The sum of `samples_per_pixel` estimates of pixel `(x, y)`.
pub fn sample_pixel(
    samples_per_pixel: usize,
    x: i32,
    y: i32,
    image_width: i32,
    image_height: i32,
    max_depth: i32,
    camera: &Camera,
    world: &Hittables,
) -> (r: Vec3)
    requires
        world.well_formed(),
    ensures
        is_pixel_sum(*world, *camera, x as int, y as int, image_width as int, image_height as int, max_depth as int, samples_per_pixel as int, r),
{
    let mut pixel_color = Vec3::new(0, 0, 0);
    let ghost mut cs: Seq<Vec3> = Seq::empty();
    let mut k: usize = 0;
    while k < samples_per_pixel
        invariant
            k <= samples_per_pixel,
            world.well_formed(),
            cs.len() == k,
            pixel_color == sum_spec(cs),
            forall|i: int|
                0 <= i < k ==> is_sample(*world, *camera, x as int, y as int, image_width as int, image_height as int, max_depth as int, #[trigger] cs[i]),
        decreases samples_per_pixel - k,
    {
        let ru = random();
        let rv = random();
        let u = fx_div(fx_add(x as i64 * SCALE, ru), (image_width as i64 - 1) * SCALE);
        let v = fx_div(
            fx_add((image_height as i64 - (y as i64 + 1)) * SCALE, rv),
            (image_height as i64 - 1) * SCALE,
        );
        let r = camera.get_ray(u, v);
        let c = ray_color(r, world, max_depth);
        proof {
            let disk = choose|disk: Vec3| in_unit_disk(disk) && r == #[trigger] camera.ray_for(u as int, v as int, disk);
            let samples = choose|samples: Seq<(Vec3, int)>|
                valid_samples(samples) && c == #[trigger] colour_spec(*world, r, max_depth as int, samples);
            assert(c == colour_spec(
                *world,
                camera.ray_for(pixel_u(x as int, ru as int, image_width as int), pixel_v(y as int, rv as int, image_height as int), disk),
                max_depth as int,
                samples,
            ));
            assert(is_sample(*world, *camera, x as int, y as int, image_width as int, image_height as int, max_depth as int, c));
            let next = cs.push(c);
            assert(next.drop_last() =~= cs);
            assert forall|i: int|
                0 <= i < k + 1 implies is_sample(*world, *camera, x as int, y as int, image_width as int, image_height as int, max_depth as int, #[trigger] next[i]) by {
                if i < k {
                    assert(next[i] == cs[i]);
                }
            }
            cs = next;
        }
        pixel_color = pixel_color.add(c);
        k = k + 1;
    }
    pixel_color
}

/// `work` carries the bytes of some sum of `n` estimates of its pixel.
pub open spec fn is_rendered(world: Hittables, camera: Camera, width: int, height: int, depth: int, n: int, work: Work) -> bool {
    &&& work.colour is Some
    &&& exists|c: Vec3|
        is_pixel_sum(world, camera, work.x as int, work.y as int, width, height, depth, n, c)
            && work.colour.unwrap()@ == #[trigger] rgb_spec(c, n)
}

/// Position of a pixel in a row-major framebuffer.
pub open spec fn pixel_index(work: Work, width: int) -> int {
    pixel_slot(work.x as int, work.y as int, width)
}

/// Renders every pixel of `band`, in order, with `samples_per_pixel`
/// samples each.
pub fn render_band(
    band: &Vec<Work>,
    samples_per_pixel: usize,
    image_width: i32,
    image_height: i32,
    max_depth: i32,
    camera: &Camera,
    world: &Hittables,
) -> (r: Vec<Work>)
    requires
        world.well_formed(),
        samples_per_pixel > 0,
        forall|k: int| 0 <= k < band@.len() ==> (#[trigger] band@[k]).x < image_width && band@[k].y < image_height,
    ensures
        r@.len() == band@.len(),
        forall|k: int|
            0 <= k < band@.len() ==> (#[trigger] r@[k]).x == band@[k].x && r@[k].y == band@[k].y && is_rendered(
                *world,
                *camera,
                image_width as int,
                image_height as int,
                max_depth as int,
                samples_per_pixel as int,
                r@[k],
            ),
{
    let mut done: Vec<Work> = Vec::new();
    let mut k: usize = 0;
    while k < band.len()
        invariant
            k <= band@.len(),
            world.well_formed(),
            samples_per_pixel > 0,
            forall|k: int| 0 <= k < band@.len() ==> (#[trigger] band@[k]).x < image_width && band@[k].y < image_height,
            done@.len() == k,
            forall|j: int|
                0 <= j < k ==> (#[trigger] done@[j]).x == band@[j].x && done@[j].y == band@[j].y && is_rendered(
                    *world,
                    *camera,
                    image_width as int,
                    image_height as int,
                    max_depth as int,
                    samples_per_pixel as int,
                    done@[j],
                ),
        decreases band@.len() - k,
    {
        let work = &band[k];
        let c = sample_pixel(
            samples_per_pixel,
            work.x as i32,
            work.y as i32,
            image_width,
            image_height,
            max_depth,
            camera,
            world,
        );
        let bytes = c.to_rgb(samples_per_pixel);
        let rendered = Work { x: work.x, y: work.y, colour: Some(bytes) };
        proof {
            assert(bytes@ == rgb_spec(c, samples_per_pixel as int));
        }
        let ghost before = done@;
        done.push(rendered);
        proof {
            assert forall|j: int| 0 <= j < k + 1 implies (#[trigger] done@[j]).x == band@[j].x && done@[j].y
                == band@[j].y && is_rendered(
                *world,
                *camera,
                image_width as int,
                image_height as int,
                max_depth as int,
                samples_per_pixel as int,
                done@[j],
            ) by {
                if j < k {
                    assert(done@[j] == before[j]);
                }
            }
        }
        k = k + 1;
    }
    done
}

/// Writes each rendered pixel of `band` into its place in `image`.
pub fn merge_band(image: &mut Vec<Vec<u8>>, image_width: usize, band: &Vec<Work>)
    requires
        forall|k: int|
            0 <= k < band@.len() ==> 0 <= pixel_index(#[trigger] band@[k], image_width as int) < old(image)@.len()
                && band@[k].colour is Some,
        forall|k: int, l: int|
            0 <= k < band@.len() && 0 <= l < band@.len() && k != l ==> pixel_index(#[trigger] band@[k], image_width as int)
                != pixel_index(#[trigger] band@[l], image_width as int),
    ensures
        final(image)@.len() == old(image)@.len(),
        forall|k: int|
            0 <= k < band@.len() ==> final(image)@[pixel_index(#[trigger] band@[k], image_width as int)]@
                == band@[k].colour.unwrap()@,
        forall|p: int|
            0 <= p < old(image)@.len() && (forall|k: int| 0 <= k < band@.len() ==> pixel_index(#[trigger] band@[k], image_width as int) != p)
                ==> #[trigger] final(image)@[p] == old(image)@[p],
{
    let ghost initial = image@;
    let mut k: usize = 0;
    while k < band.len()
        invariant
            k <= band@.len(),
            image@.len() == initial.len(),
            forall|k: int|
                0 <= k < band@.len() ==> 0 <= pixel_index(#[trigger] band@[k], image_width as int) < initial.len()
                    && band@[k].colour is Some,
            forall|k: int, l: int|
                0 <= k < band@.len() && 0 <= l < band@.len() && k != l ==> pixel_index(#[trigger] band@[k], image_width as int)
                    != pixel_index(#[trigger] band@[l], image_width as int),
            forall|j: int| 0 <= j < k ==> image@[pixel_index(#[trigger] band@[j], image_width as int)]@ == band@[j].colour.unwrap()@,
            forall|p: int|
                0 <= p < initial.len() && (forall|j: int| 0 <= j < k ==> pixel_index(#[trigger] band@[j], image_width as int) != p)
                    ==> #[trigger] image@[p] == initial[p],
        decreases band@.len() - k,
    {
        let work = &band[k];
        let len = image.len();
        proof {
            assert(0 <= pixel_index(band@[k as int], image_width as int) < initial.len());
            assert(work.y * image_width >= 0) by (nonlinear_arith)
                requires
                    work.y >= 0,
                    image_width >= 0,
            ;
        }
        let index = work.x + work.y * image_width;
        let colour = match &work.colour {
            Some(c) => c.clone(),
            None => Vec::new(),
        };
        image.set(index, colour);
        k = k + 1;
    }
}

/// Bytes `3i .. 3i + 3` of `bytes` are those of a sum of `n` estimates of
/// pixel `(x, y)`, where `i = x + y * width`.
pub open spec fn pixel_done(bytes: Seq<u8>, world: Hittables, camera: Camera, width: int, height: int, depth: int, n: int, x: int, y: int) -> bool {
    exists|c: Vec3|
        is_pixel_sum(world, camera, x, y, width, height, depth, n, c) && bytes.subrange(
            3 * (x + y * width),
            3 * (x + y * width) + 3,
        ) == #[trigger] rgb_spec(c, n)
}

/// Lays the pixels' bytes out one after another.
fn flatten(image: &Vec<Vec<u8>>) -> (r: Vec<u8>)
    requires
        forall|i: int| 0 <= i < image@.len() ==> (#[trigger] image@[i])@.len() == 3,
        3 * image@.len() <= usize::MAX,
    ensures
        r@.len() == 3 * image@.len(),
        forall|i: int| 0 <= i < image@.len() ==> r@.subrange(3 * i, 3 * i + 3) == (#[trigger] image@[i])@,
{
    let mut out: Vec<u8> = Vec::new();
    let mut i: usize = 0;
    while i < image.len()
        invariant
            i <= image@.len(),
            forall|i: int| 0 <= i < image@.len() ==> (#[trigger] image@[i])@.len() == 3,
            out@.len() == 3 * i,
            forall|j: int| 0 <= j < i ==> out@.subrange(3 * j, 3 * j + 3) == (#[trigger] image@[j])@,
        decreases image@.len() - i,
    {
        let ghost before = out@;
        out.push(image[i][0]);
        out.push(image[i][1]);
        out.push(image[i][2]);
        proof {
            assert forall|j: int| 0 <= j < i + 1 implies out@.subrange(3 * j, 3 * j + 3) == (#[trigger] image@[j])@ by {
                if j < i {
                    assert(out@.subrange(3 * j, 3 * j + 3) =~= before.subrange(3 * j, 3 * j + 3));
                } else {
                    assert(out@.subrange(3 * j, 3 * j + 3) =~= image@[j]@);
                }
            }
        }
        i = i + 1;
    }
    out
}

/// Renders the whole image on the calling thread, as row-major RGB bytes.
pub fn render(
    world: &Hittables,
    camera: &Camera,
    image_width: i32,
    image_height: i32,
    samples_per_pixel: usize,
    max_depth: i32,
) -> (r: Vec<u8>)
    requires
        world.well_formed(),
        image_width >= 0,
        image_height >= 0,
        samples_per_pixel > 0,
        3 * image_width * image_height <= usize::MAX,
    ensures
        r@.len() == 3 * image_width * image_height,
        forall|x: int, y: int|
            0 <= x < image_width && 0 <= y < image_height ==> #[trigger] pixel_done(
                r@,
                *world,
                *camera,
                image_width as int,
                image_height as int,
                max_depth as int,
                samples_per_pixel as int,
                x,
                y,
            ),
{
    let ghost (w, h) = (image_width as int, image_height as int);
    let list = create_work_list(image_width, image_height, 1);
    proof {
        assert(band_height(h, 1) == h);
        assert(band_rows(h, 1, 0) == h);
        assert(w * h == h * w) by (nonlinear_arith);
        assert forall|k: int| 0 <= k < list@[0]@.len() implies (#[trigger] list@[0]@[k]).x < image_width
            && list@[0]@[k].y < image_height by {
            lemma_work_list_partition(list@, w, h, 1);
        }
    }
    let band = &list[0];
    let done = render_band(band, samples_per_pixel, image_width, image_height, max_depth, camera, world);
    proof {
        assert(3 * w * h == 3 * (w * h)) by (nonlinear_arith);
        assert(w * h <= 3 * (w * h)) by (nonlinear_arith)
            requires
                w >= 0,
                h >= 0,
        ;
    }
    let count = image_width as usize * image_height as usize;
    let mut image: Vec<Vec<u8>> = Vec::new();
    let mut i: usize = 0;
    while i < count
        invariant
            i <= count,
            image@.len() == i,
            forall|j: int| 0 <= j < i ==> (#[trigger] image@[j])@.len() == 3,
        decreases count - i,
    {
        image.push(vec![0u8, 0u8, 0u8]);
        i = i + 1;
    }
    proof {
        assert forall|k: int| 0 <= k < done@.len() implies pixel_index(#[trigger] done@[k], w) == k by {
            lemma_fundamental_div_mod(k, w);
            assert((k / w) * w == w * (k / w)) by (nonlinear_arith);
        }
    }
    let ghost before = image@;
    merge_band(&mut image, image_width as usize, &done);
    proof {
        assert forall|j: int| 0 <= j < image@.len() implies (#[trigger] image@[j])@.len() == 3 by {
            assert(pixel_index(done@[j], w) == j);
        }
    }
    let r = flatten(&image);
    proof {
        assert forall|x: int, y: int| 0 <= x < image_width && 0 <= y < image_height implies #[trigger] pixel_done(
            r@,
            *world,
            *camera,
            w,
            h,
            max_depth as int,
            samples_per_pixel as int,
            x,
            y,
        ) by {
            let k = x + y * w;
            assert(0 <= k < w * h) by (nonlinear_arith)
                requires
                    k == x + y * w,
                    0 <= x < w,
                    0 <= y < h,
            ;
            assert(k == y * w + x);
            lemma_fundamental_div_mod_converse(k, w, y, x);
            assert(pixel_index(done@[k], w) == k);
            let c = choose|c: Vec3|
                is_pixel_sum(*world, *camera, x, y, w, h, max_depth as int, samples_per_pixel as int, c)
                    && done@[k].colour.unwrap()@ == #[trigger] rgb_spec(c, samples_per_pixel as int);
            assert(image@[k]@ == rgb_spec(c, samples_per_pixel as int));
        }
    }
    r
}

} // verus!
