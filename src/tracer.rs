//! The recursive colour estimator: intersect, scatter, test the lights for
//! shadow, recurse.

use crate::camera::HALF;
use crate::fixed::{fadd, fmul, fsub, fx_add, fx_mul, fx_sub, LIMIT, SCALE};
use crate::hittable::{HitRecord, Hittable};
use crate::hittables::Hittables;
use crate::material::{scatter, scatter_spec, scatter_with, white};
use crate::random::in_unit_ball;
use crate::ray::Ray;
use crate::vec3::Vec3;
use vstd::prelude::*;

verus! {

/// Nearest accepted distance for primary and scattered rays (0.001).
pub const HIT_T_MIN: i64 = 66;

/// Nearest accepted distance for shadow rays (0.01).
pub const SHADOW_T_MIN: i64 = 655;

/// How far a shadow ray starts from the surface, toward the light (0.01).
pub const SHADOW_BIAS: i64 = 655;

/// The share of light an occluded light source lets through (0.3).
pub const SHADOW_FACTOR: i64 = 19661;

/// Green component of the sky's blue end (0.7).
pub const SKY_GREEN: i64 = 45875;

pub open spec fn black() -> Vec3 {
    Vec3 { x: 0, y: 0, z: 0 }
}

pub open spec fn shadow_grey() -> Vec3 {
    Vec3 { x: SHADOW_FACTOR, y: SHADOW_FACTOR, z: SHADOW_FACTOR }
}

pub open spec fn sky_blue() -> Vec3 {
    Vec3 { x: HALF, y: SKY_GREEN, z: SCALE }
}

/// The background: white blended into sky blue by the height of the ray's
/// unit direction, with weight `0.5 * (y + 1)` on the blue.
pub open spec fn sky_spec(ray: Ray) -> Vec3 {
    let unit_dir = ray.direction.spec_unit();
    let t = fmul(HALF as int, fadd(unit_dir.y as int, SCALE as int));
    white().spec_scale(fsub(SCALE as int, t)).spec_add(sky_blue().spec_scale(t))
}

/// The ray from just off `p` toward `light`.
pub open spec fn shadow_ray(p: Vec3, light: Vec3) -> Ray {
    let dir = light.spec_sub(p).spec_unit();
    Ray { origin: p.spec_add(dir.spec_scale(SHADOW_BIAS as int)), direction: dir }
}

/// Half the distance from the shadow ray's origin to the light.
pub open spec fn shadow_reach(p: Vec3, light: Vec3) -> int {
    shadow_ray(p, light).origin.spec_sub(light).spec_length() / 2
}

/// Something lies between `p` and the nearer half of the way to `light`.
pub open spec fn occluded(world: Hittables, p: Vec3, light: Vec3) -> bool {
    world.hit_spec(shadow_ray(p, light), SHADOW_T_MIN as int, shadow_reach(p, light)) is Some
}

/// The shadow multiplier at `p` from the first `k` lights: grey once per
/// occluded light.
pub open spec fn shadow_spec(world: Hittables, p: Vec3, k: int) -> Vec3
    decreases k,
{
    if k <= 0 {
        white()
    } else {
        let prev = shadow_spec(world, p, k - 1);
        if occluded(world, p, world.lights@[k - 1]) {
            prev.spec_mul(shadow_grey())
        } else {
            prev
        }
    }
}

/// Random inputs for scattering: a point of the unit ball and a draw from
/// `[0, 1)`, one pair per bounce.
pub open spec fn valid_samples(samples: Seq<(Vec3, int)>) -> bool {
    forall|i: int| 0 <= i < samples.len() ==> in_unit_ball(#[trigger] samples[i].0) && 0 <= samples[i].1 < SCALE
}

/// The inputs left after the first bounce.
pub open spec fn rest_of(samples: Seq<(Vec3, int)>) -> Seq<(Vec3, int)> {
    if samples.len() > 0 {
        samples.drop_first()
    } else {
        samples
    }
}

/// Random inputs as integers.
pub open spec fn samples_view(samples: Seq<(Vec3, i64)>) -> Seq<(Vec3, int)> {
    samples.map_values(|p: (Vec3, i64)| (p.0, p.1 as int))
}

/// The colour estimated for `ray` with `depth` bounces left, when the
/// bounces use the random inputs `samples` in order: black once the budget is
/// spent; the sky on a miss; on a hit, black if the material absorbs, else
/// the attenuation times the colour of the scattered ray, times the shadow
/// multiplier at the hit point.
pub open spec fn colour_spec(world: Hittables, ray: Ray, depth: int, samples: Seq<(Vec3, int)>) -> Vec3
    decreases depth,
{
    if depth <= 0 {
        black()
    } else {
        match world.hit_spec(ray, HIT_T_MIN as int, LIMIT as int) {
            None => sky_spec(ray),
            Some(h) => {
                let (jitter, u) = if samples.len() > 0 {
                    samples[0]
                } else {
                    (black(), 0)
                };
                let (att, out) = scatter_spec(ray, h.p.unwrap(), h.normal.unwrap(), h.front_face.unwrap(), h.material.unwrap(), jitter, u);
                match out {
                    None => black(),
                    Some(next) => att.spec_mul(colour_spec(world, next, depth - 1, rest_of(samples))).spec_mul(
                        shadow_spec(world, h.p.unwrap(), world.lights@.len() as int),
                    ),
                }
            },
        }
    }
}

/// With no bounces left the estimate is black, whatever the scene.
pub proof fn lemma_exhausted_depth(world: Hittables, ray: Ray, depth: int, samples: Seq<(Vec3, int)>)
    requires
        depth <= 0,
    ensures
        colour_spec(world, ray, depth, samples) == black(),
{
}

/// A ray that meets nothing takes the sky's colour.
pub proof fn lemma_miss_is_sky(world: Hittables, ray: Ray, depth: int, samples: Seq<(Vec3, int)>)
    requires
        depth > 0,
        world.hit_spec(ray, HIT_T_MIN as int, LIMIT as int) is None,
    ensures
        colour_spec(world, ray, depth, samples) == sky_spec(ray),
{
}

/// With a single bounce left, a ray that meets a surface is black: the
/// scattered ray has no budget to gather light.
pub proof fn lemma_last_bounce_is_black(world: Hittables, ray: Ray, samples: Seq<(Vec3, int)>)
    requires
        world.hit_spec(ray, HIT_T_MIN as int, LIMIT as int) is Some,
    ensures
        colour_spec(world, ray, 1, samples) == black(),
{
    reveal(fmul);
    let h = world.hit_spec(ray, HIT_T_MIN as int, LIMIT as int).unwrap();
    let (jitter, u) = if samples.len() > 0 {
        samples[0]
    } else {
        (black(), 0)
    };
    let (att, out) = scatter_spec(ray, h.p.unwrap(), h.normal.unwrap(), h.front_face.unwrap(), h.material.unwrap(), jitter, u);
    if out is Some {
        let shadow = shadow_spec(world, h.p.unwrap(), world.lights@.len() as int);
        assert(colour_spec(world, out.unwrap(), 0, rest_of(samples)) == black());
        assert(att.spec_mul(black()) == black());
        assert(black().spec_mul(shadow) == black());
    }
}

fn sky(ray: Ray) -> (r: Vec3)
    ensures
        r == sky_spec(ray),
{
    let unit_dir = ray.direction.unit_vector();
    let t = fx_mul(HALF, fx_add(unit_dir.y, SCALE));
    let one = Vec3::new(SCALE, SCALE, SCALE).scale(fx_sub(SCALE, t));
    let two = Vec3::new(HALF, SKY_GREEN, SCALE).scale(t);
    one.add(two)
}

/// The shadow multiplier at `p` over all the scene's lights.
fn shadow_at(world: &Hittables, p: Vec3) -> (r: Vec3)
    requires
        world.well_formed(),
    ensures
        r == shadow_spec(*world, p, world.lights@.len() as int),
{
    let mut in_shadow = Vec3::new(SCALE, SCALE, SCALE);
    let mut i: usize = 0;
    while i < world.lights.len()
        invariant
            i <= world.lights@.len(),
            world.well_formed(),
            in_shadow == shadow_spec(*world, p, i as int),
        decreases world.lights@.len() - i,
    {
        let light = world.lights[i];
        let light_direction = light.sub(p).unit_vector();
        let origin = p.add(light_direction.scale(SHADOW_BIAS));
        let max_dist = origin.sub(light).length();
        let mut scratch = HitRecord::new();
        if world.hit(Ray::new(origin, light_direction), SHADOW_T_MIN, max_dist / 2, &mut scratch) {
            in_shadow = in_shadow.mul(Vec3::new(SHADOW_FACTOR, SHADOW_FACTOR, SHADOW_FACTOR));
        }
        i = i + 1;
    }
    in_shadow
}

/// One random estimate of the light arriving along `ray`, following at
/// most `depth` bounces.
pub fn ray_color(ray: Ray, world: &Hittables, depth: i32) -> (r: Vec3)
    requires
        world.well_formed(),
    ensures
        exists|samples: Seq<(Vec3, int)>|
            valid_samples(samples) && r == #[trigger] colour_spec(*world, ray, depth as int, samples),
        depth <= 0 ==> r == black(),
    decreases depth,
{
    let mut hit_rec = HitRecord::new();
    if depth <= 0 {
        let r = Vec3::new(0, 0, 0);
        proof {
            assert(valid_samples(Seq::empty()));
            assert(r == colour_spec(*world, ray, depth as int, Seq::empty()));
        }
        return r;
    }
    if world.hit(ray, HIT_T_MIN, LIMIT, &mut hit_rec) {
        let mut color = Vec3::new(0, 0, 0);
        let res = scatter(ray, hit_rec, &mut color, hit_rec.material.unwrap());
        let ghost (jitter, u) = choose|jitter: Vec3, u: int|
            in_unit_ball(jitter) && 0 <= u < SCALE && (color, res) == #[trigger] scatter_spec(
                ray,
                hit_rec.p.unwrap(),
                hit_rec.normal.unwrap(),
                hit_rec.front_face.unwrap(),
                hit_rec.material.unwrap(),
                jitter,
                u,
            );
        match res {
            Some(result) => {
                let in_shadow = shadow_at(world, hit_rec.p.unwrap());
                let rest = ray_color(result, world, depth - 1);
                let r = color.mul(rest).mul(in_shadow);
                proof {
                    let tail = choose|samples: Seq<(Vec3, int)>|
                        valid_samples(samples) && rest == #[trigger] colour_spec(*world, result, depth - 1, samples);
                    let samples = seq![(jitter, u)] + tail;
                    assert(samples.drop_first() =~= tail);
                    assert(valid_samples(samples));
                    assert(r == colour_spec(*world, ray, depth as int, samples));
                }
                r
            },
            None => {
                let r = Vec3::new(0, 0, 0);
                proof {
                    let samples = seq![(jitter, u)];
                    assert(valid_samples(samples));
                    assert(r == colour_spec(*world, ray, depth as int, samples));
                }
                r
            },
        }
    } else {
        let r = sky(ray);
        proof {
            assert(valid_samples(Seq::empty()));
            assert(r == colour_spec(*world, ray, depth as int, Seq::empty()));
        }
        r
    }
}

fn colour_from(ray: Ray, world: &Hittables, depth: i32, samples: &Vec<(Vec3, i64)>, next: usize) -> (r: Vec3)
    requires
        world.well_formed(),
        next <= samples@.len(),
    ensures
        r == colour_spec(*world, ray, depth as int, samples_view(samples@).skip(next as int)),
    decreases depth,
{
    let ghost view = samples_view(samples@).skip(next as int);
    let mut hit_rec = HitRecord::new();
    if depth <= 0 {
        return Vec3::new(0, 0, 0);
    }
    if world.hit(ray, HIT_T_MIN, LIMIT, &mut hit_rec) {
        let mut color = Vec3::new(0, 0, 0);
        let (jitter, u, after) = if next < samples.len() {
            (samples[next].0, samples[next].1, next + 1)
        } else {
            (Vec3::new(0, 0, 0), 0, next)
        };
        proof {
            if next < samples@.len() {
                assert(view[0] == (jitter, u as int));
                assert(rest_of(view) =~= samples_view(samples@).skip(after as int));
            } else {
                assert(rest_of(view) =~= samples_view(samples@).skip(after as int));
            }
        }
        let res = scatter_with(ray, hit_rec, &mut color, hit_rec.material.unwrap(), jitter, u);
        match res {
            Some(result) => {
                let in_shadow = shadow_at(world, hit_rec.p.unwrap());
                let rest = colour_from(result, world, depth - 1, samples, after);
                color.mul(rest).mul(in_shadow)
            },
            None => Vec3::new(0, 0, 0),
        }
    } else {
        sky(ray)
    }
}

/// The estimate for `ray` when the bounces take their random inputs from
/// `samples` in order: a point of the unit ball and a draw from `[0, 1)`
/// each; missing inputs count as zero.
pub fn ray_color_with(ray: Ray, world: &Hittables, depth: i32, samples: &Vec<(Vec3, i64)>) -> (r: Vec3)
    requires
        world.well_formed(),
    ensures
        r == colour_spec(*world, ray, depth as int, samples_view(samples@)),
{
    proof {
        assert(samples_view(samples@).skip(0) =~= samples_view(samples@));
    }
    colour_from(ray, world, depth, samples, 0)
}

} // verus!
