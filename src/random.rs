//! Random sampling. Each thread draws from its own generator.

use crate::fixed::{fadd, fmul, fsqrt, fsub, fx_add, fx_mul, fx_sqrt, fx_sub, in_range, SCALE};
use crate::vec3::{lemma_dot_neg, lemma_neg_length_squared, lemma_ops_wf, Vec3};
use rand::Rng;
use vstd::prelude::*;

verus! {

/// Draws made by a rejection sampler before it settles for the centre.
pub const MAX_TRIES: u32 = 1000;

/// Relies on `rand::thread_rng` and `Rng::gen_range`: a uniform draw from
/// `0..bound` made with the calling thread's own generator; `gen_range`
/// panics only on an empty range.
#[verifier::external_body]
fn random_below(bound: i64) -> (r: i64)
    requires
        bound > 0,
    ensures
        0 <= r < bound,
{
    rand::thread_rng().gen_range(0..bound)
}

/// A real drawn from `[0, 1)`.
pub fn random() -> (r: i64)
    ensures
        0 <= r < SCALE,
{
    random_below(SCALE)
}

/// `v` is `min + (max - min) * u` for some `u` in `[0, 1)`.
pub open spec fn drawn_between(v: int, min: int, max: int) -> bool {
    exists|u: int| 0 <= u < SCALE && v == #[trigger] fadd(min, fmul(fsub(max, min), u))
}

/// A real drawn from `[min, max)`.
pub fn random_between(min: i64, max: i64) -> (r: i64)
    ensures
        drawn_between(r as int, min as int, max as int),
        in_range(r as int),
{
    let u = random();
    fx_add(min, fx_mul(fx_sub(max, min), u))
}

/// A vector whose components are drawn from `[min, max)`.
pub fn random_vec3(min: i64, max: i64) -> (r: Vec3)
    ensures
        r.wf(),
        drawn_between(r.x as int, min as int, max as int),
        drawn_between(r.y as int, min as int, max as int),
        drawn_between(r.z as int, min as int, max as int),
{
    let x = random_between(min, max);
    let y = random_between(min, max);
    let z = random_between(min, max);
    Vec3::new(x, y, z)
}

/// Strictly inside the unit ball.
pub open spec fn in_unit_ball(v: Vec3) -> bool {
    v.wf() && v.spec_length_squared() < SCALE
}

/// Strictly inside the unit disk of the `z = 0` plane.
pub open spec fn in_unit_disk(v: Vec3) -> bool {
    in_unit_ball(v) && v.z == 0
}

/// A point drawn from the unit ball by rejection from the enclosing cube.
pub fn random_unit_vec3() -> (r: Vec3)
    ensures
        in_unit_ball(r),
{
    let mut tries: u32 = 0;
    while tries < MAX_TRIES
        decreases MAX_TRIES - tries,
    {
        let p = random_vec3(-SCALE, SCALE);
        if p.length_squared() < SCALE {
            return p;
        }
        tries = tries + 1;
    }
    let zero = Vec3::new(0, 0, 0);
    proof {
        reveal(crate::fixed::fmul);
    }
    zero
}

/// A point drawn from the unit ball, turned into the half-space that
/// `normal` points to.
pub fn random_in_hemisphere(normal: Vec3) -> (r: Vec3)
    requires
        normal.wf(),
    ensures
        in_unit_ball(r),
        r.spec_dot(normal) >= 0,
{
    let in_unit_sphere = random_unit_vec3();
    if in_unit_sphere.dot(normal) > 0 {
        in_unit_sphere
    } else {
        proof {
            lemma_dot_neg(normal, in_unit_sphere);
            lemma_dot_comm(normal, in_unit_sphere);
            lemma_dot_comm(in_unit_sphere.spec_neg(), normal);
            lemma_neg_length_squared(in_unit_sphere);
            lemma_ops_wf(in_unit_sphere, in_unit_sphere, 0);
        }
        in_unit_sphere.neg()
    }
}

/// A point drawn from the unit disk by rejection from the enclosing square.
pub fn random_in_unit_disk() -> (r: Vec3)
    ensures
        in_unit_disk(r),
{
    let mut tries: u32 = 0;
    while tries < MAX_TRIES
        decreases MAX_TRIES - tries,
    {
        let x = random_between(-SCALE, SCALE);
        let y = random_between(-SCALE, SCALE);
        let p = Vec3::new(x, y, 0);
        if p.length_squared() < SCALE {
            return p;
        }
        tries = tries + 1;
    }
    proof {
        reveal(crate::fixed::fmul);
    }
    Vec3::new(0, 0, 0)
}

/// The point of the unit sphere at height `z` whose azimuth is that of
/// `disk`: `(r·cos a, r·sin a, z)` with `r = √(1 - z²)`.
pub open spec fn lambert_point(z: int, disk: Vec3) -> Vec3 {
    let r = fsqrt(fsub(SCALE as int, fmul(z, z)));
    let dir = disk.spec_unit();
    Vec3 { x: fmul(r, dir.x as int) as i64, y: fmul(r, dir.y as int) as i64, z: z as i64 }
}

/// A point drawn uniformly from the unit sphere: a height drawn from
/// `[-1, 1)` and an azimuth taken from a point of the unit disk, which is
/// uniform in angle.
pub fn lamber_unit_vec3() -> (r: Vec3)
    ensures
        exists|z: int, disk: Vec3|
            drawn_between(z, -SCALE as int, SCALE as int) && in_unit_disk(disk) && r == #[trigger] lambert_point(z, disk),
{
    let z = random_between(-SCALE, SCALE);
    let disk = random_in_unit_disk();
    let dir = disk.unit_vector();
    let radius = fx_sqrt(fx_sub(SCALE, fx_mul(z, z)));
    let r = Vec3::new(fx_mul(radius, dir.x), fx_mul(radius, dir.y), z);
    proof {
        assert(drawn_between(z as int, -SCALE as int, SCALE as int));
        assert(r == lambert_point(z as int, disk));
    }
    r
}

/// The dot product is symmetric.
pub proof fn lemma_dot_comm(u: Vec3, v: Vec3)
    ensures
        u.spec_dot(v) == v.spec_dot(u),
{
    crate::fixed::lemma_fmul_comm(u.x as int, v.x as int);
    crate::fixed::lemma_fmul_comm(u.y as int, v.y as int);
    crate::fixed::lemma_fmul_comm(u.z as int, v.z as int);
}

} // verus!
