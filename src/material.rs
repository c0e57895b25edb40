//! Surface materials and how they scatter light.

use crate::fixed::{fadd, fdiv, fmul, fneg, fsqrt, fsub, fx_add, fx_div, fx_mul, fx_neg, fx_sqrt, fx_sub, SCALE};
use crate::hittable::HitRecord;
use crate::random::{in_unit_ball, random, random_unit_vec3};
use crate::ray::Ray;
use crate::vec3::Vec3;
use vstd::prelude::*;

verus! {

/// The closed set of surface kinds. Reals are raw fixed-point values.
#[derive(Debug, Clone, Copy, PartialEq, Eq, Structural)]
pub enum Material {
    /// Diffuse surface with the given albedo.
    Lambertian(Vec3),
    /// Reflective surface with an albedo and a fuzz factor.
    Metal(Vec3, i64),
    /// Transparent surface with the given refractive index.
    Dielectric(i64),
    /// Perfect reflector with no tint.
    Mirror,
}

/// The colour white, which leaves light untinted.
pub open spec fn white() -> Vec3 {
    Vec3 { x: SCALE, y: SCALE, z: SCALE }
}

/// `v` mirrored about the plane with normal `n`: `v - 2·(v·n)·n`.
pub open spec fn reflect_spec(v: Vec3, n: Vec3) -> Vec3 {
    let d = v.spec_dot(n);
    v.spec_sub(n.spec_scale(fadd(d, d)))
}

/// The discriminant of Snell's law for a unit direction `u`.
pub open spec fn refract_discriminant(u: Vec3, n: Vec3, ratio: int) -> int {
    let dt = u.spec_dot(n);
    fsub(SCALE as int, fmul(fmul(ratio, ratio), fsub(SCALE as int, fmul(dt, dt))))
}

/// The refracted direction, or `None` on total internal reflection.
pub open spec fn refract_spec(uv: Vec3, n: Vec3, ratio: int) -> Option<Vec3> {
    let u = uv.spec_unit();
    let dt = u.spec_dot(n);
    let disc = refract_discriminant(u, n, ratio);
    if disc > 0 {
        Some(u.spec_sub(n.spec_scale(dt)).spec_scale(ratio).spec_sub(n.spec_scale(fsqrt(disc))))
    } else {
        None
    }
}

/// Schlick's approximation of the reflectance:
/// `r0 + (1 - r0)(1 - cosine)^5` with `r0 = ((1 - index) / (1 + index))²`.
pub open spec fn schlick_spec(cosine: int, ref_idx: int) -> int {
    let a = fdiv(fsub(SCALE as int, ref_idx), fadd(SCALE as int, ref_idx));
    let r0 = fmul(a, a);
    let m = fsub(SCALE as int, cosine);
    let m5 = fmul(fmul(fmul(fmul(m, m), m), m), m);
    fadd(r0, fmul(fsub(SCALE as int, r0), m5))
}

/// Refraction ratio and cosine of the incidence angle at a dielectric hit
/// with normal `n` facing the ray: a ray meeting the front face enters the
/// medium (ratio `1 / index`), one meeting the back face leaves it (ratio
/// `index`).
pub open spec fn dielectric_setup(d: Vec3, n: Vec3, front: bool, index: int) -> (int, int) {
    let cosine = fdiv(fneg(d.spec_dot(n)), d.spec_length());
    if front {
        (fdiv(SCALE as int, index), cosine)
    } else {
        (index, cosine)
    }
}

/// The direction a dielectric sends a ray in, for a draw `u` from `[0, 1)`:
/// refraction when it is possible and `u` exceeds the reflectance, else
/// reflection.
pub open spec fn dielectric_direction(d: Vec3, n: Vec3, front: bool, index: int, u: int) -> Vec3 {
    let (ratio, cosine) = dielectric_setup(d, n, front, index);
    match refract_spec(d, n, ratio) {
        Some(refracted) => if u > schlick_spec(cosine, index) {
            refracted
        } else {
            reflect_spec(d.spec_unit(), n)
        },
        None => reflect_spec(d.spec_unit(), n),
    }
}

/// The attenuation and scattered ray for a hit at `p` with normal `n`, given
/// a point `jitter` of the unit ball and a draw `u` from `[0, 1)`.
pub open spec fn scatter_spec(ray: Ray, p: Vec3, n: Vec3, front: bool, m: Material, jitter: Vec3, u: int) -> (Vec3, Option<Ray>) {
    match m {
        Material::Lambertian(albedo) => (albedo, Some(Ray { origin: p, direction: n.spec_add(jitter) })),
        Material::Metal(albedo, fuzz) => {
            let out = reflect_spec(ray.direction.spec_unit(), n).spec_add(jitter.spec_scale(fuzz as int));
            (albedo, if out.spec_dot(n) > 0 {
                Some(Ray { origin: p, direction: out })
            } else {
                None
            })
        },
        Material::Mirror => (white(), Some(Ray { origin: p, direction: reflect_spec(ray.direction.spec_unit(), n) })),
        Material::Dielectric(index) => (white(), Some(
            Ray { origin: p, direction: dielectric_direction(ray.direction, n, front, index as int, u) },
        )),
    }
}

/// A record that carries the point, normal and face scattering needs.
pub open spec fn has_surface(rec: HitRecord) -> bool {
    rec.p is Some && rec.normal is Some && rec.front_face is Some
}

pub fn reflect(v: Vec3, n: Vec3) -> (r: Vec3)
    ensures
        r == reflect_spec(v, n),
{
    let d = v.dot(n);
    v.sub(n.scale(fx_add(d, d)))
}

pub fn refract(uv: Vec3, n: Vec3, etai_over_etat: i64) -> (r: Option<Vec3>)
    ensures
        r == refract_spec(uv, n, etai_over_etat as int),
{
    let u = uv.unit_vector();
    let dt = u.dot(n);
    let discriminant = fx_sub(SCALE, fx_mul(fx_mul(etai_over_etat, etai_over_etat), fx_sub(SCALE, fx_mul(dt, dt))));
    if discriminant > 0 {
        Some(u.sub(n.scale(dt)).scale(etai_over_etat).sub(n.scale(fx_sqrt(discriminant))))
    } else {
        None
    }
}

pub fn schlick(cosine: i64, ref_idx: i64) -> (r: i64)
    ensures
        r == schlick_spec(cosine as int, ref_idx as int),
{
    let a = fx_div(fx_sub(SCALE, ref_idx), fx_add(SCALE, ref_idx));
    let r0 = fx_mul(a, a);
    let m = fx_sub(SCALE, cosine);
    let m5 = fx_mul(fx_mul(fx_mul(fx_mul(m, m), m), m), m);
    fx_add(r0, fx_mul(fx_sub(SCALE, r0), m5))
}

/// Diffuse scattering about the normal, offset by `jitter`.
pub fn lambertian_scatter(ray: Ray, rec: HitRecord, color: &mut Vec3, material_color: Vec3, jitter: Vec3) -> (r: Option<Ray>)
    requires
        has_surface(rec),
    ensures
        (*final(color), r) == scatter_spec(ray, rec.p.unwrap(), rec.normal.unwrap(), rec.front_face.unwrap(), Material::Lambertian(material_color), jitter, 0),
{
    let scatter_direction = rec.normal.unwrap().add(jitter);
    *color = material_color;
    Some(Ray::new(rec.p.unwrap(), scatter_direction))
}

/// Reflection fuzzed by `jitter`; absorbed when it points into the surface.
pub fn metal_scatter(ray: Ray, rec: HitRecord, color: &mut Vec3, material_color: Vec3, fuzz: i64, jitter: Vec3) -> (r: Option<Ray>)
    requires
        has_surface(rec),
    ensures
        (*final(color), r) == scatter_spec(ray, rec.p.unwrap(), rec.normal.unwrap(), rec.front_face.unwrap(), Material::Metal(material_color, fuzz), jitter, 0),
{
    let normal = rec.normal.unwrap();
    let reflected = reflect(ray.direction.unit_vector(), normal);
    let scattered = Ray::new(rec.p.unwrap(), reflected.add(jitter.scale(fuzz)));
    *color = material_color;
    if scattered.direction.dot(normal) > 0 {
        Some(scattered)
    } else {
        None
    }
}

/// Exact reflection, untinted.
pub fn mirror_scatter(ray: Ray, rec: HitRecord, color: &mut Vec3) -> (r: Option<Ray>)
    requires
        has_surface(rec),
    ensures
        (*final(color), r) == scatter_spec(ray, rec.p.unwrap(), rec.normal.unwrap(), rec.front_face.unwrap(), Material::Mirror, Vec3 { x: 0, y: 0, z: 0 }, 0),
{
    *color = Vec3::new(SCALE, SCALE, SCALE);
    Some(Ray::new(rec.p.unwrap(), reflect(ray.direction.unit_vector(), rec.normal.unwrap())))
}

/// Refraction or reflection, chosen by comparing the draw `u` with the
/// reflectance; untinted.
pub fn dielectric_scatter(ray: Ray, rec: HitRecord, color: &mut Vec3, refractive_index: i64, u: i64) -> (r: Option<Ray>)
    requires
        has_surface(rec),
    ensures
        (*final(color), r) == scatter_spec(ray, rec.p.unwrap(), rec.normal.unwrap(), rec.front_face.unwrap(), Material::Dielectric(refractive_index), Vec3 { x: 0, y: 0, z: 0 }, u as int),
{
    *color = Vec3::new(SCALE, SCALE, SCALE);
    let d = ray.direction;
    let normal = rec.normal.unwrap();
    let reflected = reflect(d.unit_vector(), normal);
    let cosine = fx_div(fx_neg(d.dot(normal)), d.length());
    let ni_over_nt = if rec.front_face.unwrap() {
        fx_div(SCALE, refractive_index)
    } else {
        refractive_index
    };
    match refract(d, normal, ni_over_nt) {
        Some(refracted) => {
            if u > schlick(cosine, refractive_index) {
                return Some(Ray::new(rec.p.unwrap(), refracted));
            }
        },
        None => {},
    }
    Some(Ray::new(rec.p.unwrap(), reflected))
}

/// Scattering with the random inputs given: a point `jitter` of the unit
/// ball and a draw `u` from `[0, 1)`. Writes the attenuation to `color`;
/// `None` means the ray is absorbed.
pub fn scatter_with(ray: Ray, rec: HitRecord, color: &mut Vec3, material: Material, jitter: Vec3, u: i64) -> (r: Option<Ray>)
    requires
        has_surface(rec),
    ensures
        (*final(color), r) == scatter_spec(ray, rec.p.unwrap(), rec.normal.unwrap(), rec.front_face.unwrap(), material, jitter, u as int),
{
    match material {
        Material::Lambertian(col) => lambertian_scatter(ray, rec, color, col, jitter),
        Material::Metal(col, fuzz) => metal_scatter(ray, rec, color, col, fuzz, jitter),
        Material::Dielectric(refractive_index) => dielectric_scatter(ray, rec, color, refractive_index, u),
        Material::Mirror => mirror_scatter(ray, rec, color),
    }
}

/// Scattering with a fresh point of the unit ball and a fresh draw from
/// `[0, 1)`.
pub fn scatter(ray: Ray, rec: HitRecord, color: &mut Vec3, material: Material) -> (r: Option<Ray>)
    requires
        has_surface(rec),
    ensures
        exists|jitter: Vec3, u: int|
            in_unit_ball(jitter) && 0 <= u < SCALE && (*final(color), r) == #[trigger] scatter_spec(
                ray,
                rec.p.unwrap(),
                rec.normal.unwrap(),
                rec.front_face.unwrap(),
                material,
                jitter,
                u,
            ),
{
    let jitter = random_unit_vec3();
    let u = random();
    scatter_with(ray, rec, color, material, jitter, u)
}

} // verus!
