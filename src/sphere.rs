//! Spheres.

use crate::fixed::{
    fadd, fdiv, fmul, fneg, fsqrt, fsub, fx_add, fx_div, fx_mul, fx_neg, fx_sqrt, fx_sub,
    in_range, lemma_fdiv_in_range, lemma_fdiv_monotone, lemma_fmul_square, lemma_fsqrt_in_range,
};
use crate::hittable::{face_record, lemma_face_record_faces, within, HitRecord, Hittable};
use crate::material::Material;
use crate::ray::Ray;
use crate::vec3::{lemma_ops_wf, Vec3};
use vstd::prelude::*;

verus! {

#[derive(Debug, Clone, Copy, PartialEq, Eq, Structural)]
pub struct Sphere {
    pub center: Vec3,
    pub radius: i64,
    pub material: Material,
}

impl Sphere {
    pub fn new(cen: Vec3, rad: i64, mat: Material) -> (r: Sphere)
        ensures
            r == (Sphere { center: cen, radius: rad, material: mat }),
    {
        Sphere { center: cen, radius: rad, material: mat }
    }

    /// Half the linear coefficient of `|O + tD - C|² = r²`.
    pub open spec fn half_b(self, ray: Ray) -> int {
        ray.origin.spec_sub(self.center).spec_dot(ray.direction)
    }

    /// The quadratic's discriminant, divided by four.
    pub open spec fn discriminant(self, ray: Ray) -> int {
        let oc = ray.origin.spec_sub(self.center);
        let a = ray.direction.spec_length_squared();
        let c = fsub(oc.spec_length_squared(), fmul(self.radius as int, self.radius as int));
        fsub(fmul(self.half_b(ray), self.half_b(ray)), fmul(a, c))
    }

    /// The smaller root.
    pub open spec fn near_root(self, ray: Ray) -> int {
        fdiv(
            fsub(fneg(self.half_b(ray)), fsqrt(self.discriminant(ray))),
            ray.direction.spec_length_squared(),
        )
    }

    /// The larger root.
    pub open spec fn far_root(self, ray: Ray) -> int {
        fdiv(
            fadd(fneg(self.half_b(ray)), fsqrt(self.discriminant(ray))),
            ray.direction.spec_length_squared(),
        )
    }

    /// The record of a hit at `t`: the normal is the radial direction.
    pub open spec fn record_at(self, ray: Ray, t: int) -> HitRecord {
        let p = ray.spec_at(t);
        face_record(ray, t as i64, p, p.spec_sub(self.center).spec_div_by(self.radius as int), self.material)
    }

    pub proof fn lemma_roots_in_range(self, ray: Ray)
        ensures
            in_range(self.near_root(ray)),
            in_range(self.far_root(ray)),
    {
        lemma_fdiv_in_range(
            fsub(fneg(self.half_b(ray)), fsqrt(self.discriminant(ray))),
            ray.direction.spec_length_squared(),
        );
        lemma_fdiv_in_range(
            fadd(fneg(self.half_b(ray)), fsqrt(self.discriminant(ray))),
            ray.direction.spec_length_squared(),
        );
    }

    /// The smaller root is no greater than the larger one.
    pub proof fn lemma_roots_ordered(self, ray: Ray)
        ensures
            self.near_root(ray) <= self.far_root(ray),
    {
        let d = ray.direction;
        lemma_fmul_square(d.x as int);
        lemma_fmul_square(d.y as int);
        lemma_fmul_square(d.z as int);
        lemma_fsqrt_in_range(self.discriminant(ray));
        lemma_fdiv_monotone(
            fsub(fneg(self.half_b(ray)), fsqrt(self.discriminant(ray))),
            fadd(fneg(self.half_b(ray)), fsqrt(self.discriminant(ray))),
            d.spec_length_squared(),
        );
    }

    /// A reported hit lies at the smaller root when that root is in range,
    /// and at the larger root otherwise; the smaller root never exceeds the
    /// larger.
    pub proof fn lemma_reports_near_root(self, ray: Ray, t_min: int, t_max: int)
        requires
            self.hit_spec(ray, t_min, t_max) is Some,
        ensures
            self.discriminant(ray) > 0,
            self.near_root(ray) <= self.far_root(ray),
            within(self.near_root(ray), t_min, t_max) ==> self.hit_spec(ray, t_min, t_max).unwrap().t
                == Some(self.near_root(ray) as i64),
            !within(self.near_root(ray), t_min, t_max) ==> self.hit_spec(ray, t_min, t_max).unwrap().t
                == Some(self.far_root(ray) as i64) && within(self.far_root(ray), t_min, t_max),
    {
        self.lemma_roots_ordered(ray);
    }

    fn record(&self, ray: Ray, t: i64) -> (r: HitRecord)
        ensures
            r == self.record_at(ray, t as int),
            r.reports_hit(ray, t - 1, t + 1),
    {
        let p = ray.at(t);
        let outward = p.sub(self.center).div_by(self.radius);
        let mut rec = HitRecord { p: Some(p), normal: None, t: Some(t), front_face: None, material: Some(self.material) };
        rec.set_face_normal(ray, outward);
        proof {
            lemma_face_record_faces(ray, t, p, outward, self.material);
        }
        rec
    }
}

impl Hittable for Sphere {
    /// The smaller root if it lies in range, else the larger one if it does;
    /// no hit when the discriminant is not positive.
    open spec fn hit_spec(&self, ray: Ray, t_min: int, t_max: int) -> Option<HitRecord> {
        if self.discriminant(ray) > 0 {
            if within(self.near_root(ray), t_min, t_max) {
                Some(self.record_at(ray, self.near_root(ray)))
            } else if within(self.far_root(ray), t_min, t_max) {
                Some(self.record_at(ray, self.far_root(ray)))
            } else {
                None
            }
        } else {
            None
        }
    }

    open spec fn well_formed(&self) -> bool {
        true
    }

    proof fn lemma_hit_in_range(&self, ray: Ray, t_min: int, t_max: int) {
        let t = if within(self.near_root(ray), t_min, t_max) {
            self.near_root(ray)
        } else {
            self.far_root(ray)
        };
        self.lemma_roots_in_range(ray);
        let p = ray.spec_at(t);
        let outward = p.spec_sub(self.center).spec_div_by(self.radius as int);
        lemma_ops_wf(p.spec_sub(self.center), p, self.radius as int);
        lemma_face_record_faces(ray, t as i64, p, outward, self.material);
    }

    proof fn lemma_narrow(&self, ray: Ray, t_min: int, t_max: int, bound: int) {
        self.lemma_roots_in_range(ray);
    }

    proof fn lemma_widen(&self, ray: Ray, t_min: int, bound: int, t_max: int) {
        self.lemma_roots_ordered(ray);
        self.lemma_roots_in_range(ray);
    }

    fn is_well_formed(&self) -> (b: bool) {
        true
    }

    fn hit(&self, r: Ray, t_min: i64, t_max: i64, rec: &mut HitRecord) -> (b: bool) {
        let oc = r.origin.sub(self.center);
        let a = r.direction.length_squared();
        let half_b = oc.dot(r.direction);
        let c = fx_sub(oc.length_squared(), fx_mul(self.radius, self.radius));
        let discriminant = fx_sub(fx_mul(half_b, half_b), fx_mul(a, c));
        if discriminant > 0 {
            let root = fx_sqrt(discriminant);
            let near = fx_div(fx_sub(fx_neg(half_b), root), a);
            let far = fx_div(fx_add(fx_neg(half_b), root), a);
            if t_min < near && near < t_max {
                *rec = self.record(r, near);
                true
            } else if t_min < far && far < t_max {
                *rec = self.record(r, far);
                true
            } else {
                false
            }
        } else {
            false
        }
    }
}

} // verus!
