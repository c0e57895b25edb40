//! The intersection record and the intersection contract shared by every
//! primitive and by the scene.

use crate::material::Material;
use crate::ray::Ray;
use crate::vec3::Vec3;
use crate::fixed::{lemma_fadd_neg, lemma_fmul_neg};
use vstd::prelude::*;

verus! {

/// What an intersection test reports. A field is `None` until a hit fills it.
#[derive(Debug, Clone, Copy, PartialEq, Eq, Structural)]
pub struct HitRecord {
    pub p: Option<Vec3>,
    pub normal: Option<Vec3>,
    pub t: Option<i64>,
    pub front_face: Option<bool>,
    pub material: Option<Material>,
}

/// The record of a hit at `t` and point `p` on a surface whose outward normal
/// is `outward`: the stored normal is turned to face the incoming ray.
pub open spec fn face_record(ray: Ray, t: i64, p: Vec3, outward: Vec3, m: Material) -> HitRecord {
    HitRecord {
        p: Some(p),
        normal: Some(facing_normal(ray, outward)),
        t: Some(t),
        front_face: Some(is_front_face(ray, outward)),
        material: Some(m),
    }
}

/// The ray meets the front of a surface with this outward normal.
pub open spec fn is_front_face(ray: Ray, outward: Vec3) -> bool {
    ray.direction.spec_dot(outward) < 0
}

/// The outward normal, negated when the ray meets the back of the surface.
pub open spec fn facing_normal(ray: Ray, outward: Vec3) -> Vec3 {
    if is_front_face(ray, outward) {
        outward
    } else {
        outward.spec_neg()
    }
}

/// Whether `t` lies strictly between the bounds.
pub open spec fn within(t: int, t_min: int, t_max: int) -> bool {
    t_min < t && t < t_max
}

impl HitRecord {
    /// Every field is filled, the hit lies in `(t_min, t_max)` and the normal
    /// opposes the ray's direction.
    pub open spec fn reports_hit(self, ray: Ray, t_min: int, t_max: int) -> bool {
        &&& self.p is Some
        &&& self.normal is Some
        &&& self.t is Some
        &&& self.front_face is Some
        &&& self.material is Some
        &&& within(self.t.unwrap() as int, t_min, t_max)
        &&& ray.direction.spec_dot(self.normal.unwrap()) <= 0
    }

    pub fn new() -> (r: HitRecord)
        ensures
            r == (HitRecord { p: None, normal: None, t: None, front_face: None, material: None }),
    {
        HitRecord { p: None, normal: None, t: None, front_face: None, material: None }
    }

    pub fn get_p(&self) -> (r: Option<Vec3>)
        ensures
            r == self.p,
    {
        self.p
    }

    pub fn get_t(&self) -> (r: Option<i64>)
        ensures
            r == self.t,
    {
        self.t
    }

    pub fn get_normal(&self) -> (r: Option<Vec3>)
        ensures
            r == self.normal,
    {
        self.normal
    }

    pub fn get_front_face(&self) -> (r: Option<bool>)
        ensures
            r == self.front_face,
    {
        self.front_face
    }

    /// Stores `outward_normal` if the ray meets the front of the surface,
    /// its negation otherwise, and records which case applied.
    pub fn set_face_normal(&mut self, ray: Ray, outward_normal: Vec3)
        ensures
            final(self).front_face == Some(is_front_face(ray, outward_normal)),
            final(self).normal == Some(facing_normal(ray, outward_normal)),
            outward_normal.wf() ==> ray.direction.spec_dot(final(self).normal.unwrap()) <= 0,
            final(self).p == old(self).p,
            final(self).t == old(self).t,
            final(self).material == old(self).material,
    {
        let front = ray.direction.dot(outward_normal) < 0;
        proof {
            if outward_normal.wf() {
                lemma_face_record_faces(ray, 0, outward_normal, outward_normal, Material::Mirror);
            }
        }
        self.front_face = Some(front);
        if front {
            self.normal = Some(outward_normal);
        } else {
            self.normal = Some(outward_normal.neg());
        }
    }

    /// Copies every field of `r`.
    pub fn set_rec(&mut self, r: &HitRecord)
        ensures
            *final(self) == *r,
    {
        self.p = r.p;
        self.t = r.t;
        self.normal = r.normal;
        self.front_face = r.front_face;
        self.material = r.material;
    }
}

/// The normal stored by `face_record` never points along the ray.
pub proof fn lemma_face_record_faces(ray: Ray, t: i64, p: Vec3, outward: Vec3, m: Material)
    requires
        outward.wf(),
    ensures
        ray.direction.spec_dot(face_record(ray, t, p, outward, m).normal.unwrap()) <= 0,
{
    let d = ray.direction;
    if d.spec_dot(outward) >= 0 {
        let n = outward.spec_neg();
        lemma_fmul_neg(d.x as int, outward.x as int);
        lemma_fmul_neg(d.y as int, outward.y as int);
        lemma_fmul_neg(d.z as int, outward.z as int);
        let a = crate::fixed::fmul(d.x as int, outward.x as int);
        let b = crate::fixed::fmul(d.y as int, outward.y as int);
        let c = crate::fixed::fmul(d.z as int, outward.z as int);
        lemma_fadd_neg(a, b);
        lemma_fadd_neg(crate::fixed::fadd(a, b), c);
        assert(d.spec_dot(n) == -d.spec_dot(outward));
    }
}

/// The intersection contract: a test reports the hit that `hit_spec`
/// describes, and leaves the record untouched on a miss.
pub trait Hittable {
    /// The hit of `ray` within `(t_min, t_max)`, if any.
    spec fn hit_spec(&self, ray: Ray, t_min: int, t_max: int) -> Option<HitRecord>;

    /// The shape's internal invariant.
    spec fn well_formed(&self) -> bool;

    /// A reported hit is filled in, in range and facing the ray.
    proof fn lemma_hit_in_range(&self, ray: Ray, t_min: int, t_max: int)
        requires
            self.well_formed(),
            self.hit_spec(ray, t_min, t_max) is Some,
        ensures
            self.hit_spec(ray, t_min, t_max).unwrap().reports_hit(ray, t_min, t_max),
    ;

    /// Lowering `t_max` to any value above the reported hit keeps that hit.
    proof fn lemma_narrow(&self, ray: Ray, t_min: int, t_max: int, bound: int)
        requires
            self.well_formed(),
            self.hit_spec(ray, t_min, t_max) is Some,
            self.hit_spec(ray, t_min, t_max).unwrap().t.unwrap() < bound <= t_max,
        ensures
            self.hit_spec(ray, t_min, bound) == self.hit_spec(ray, t_min, t_max),
    ;

    /// Raising `t_max` keeps a hit, at the same distance or nearer.
    proof fn lemma_widen(&self, ray: Ray, t_min: int, bound: int, t_max: int)
        requires
            self.well_formed(),
            bound <= t_max,
            self.hit_spec(ray, t_min, bound) is Some,
        ensures
            self.hit_spec(ray, t_min, t_max) is Some,
            self.hit_spec(ray, t_min, t_max).unwrap().t.unwrap() <= self.hit_spec(
                ray,
                t_min,
                bound,
            ).unwrap().t.unwrap(),
    ;

    /// Tests the invariant at run time.
    fn is_well_formed(&self) -> (b: bool)
        ensures
            b == self.well_formed(),
    ;

    fn hit(&self, r: Ray, t_min: i64, t_max: i64, rec: &mut HitRecord) -> (b: bool)
        requires
            self.well_formed(),
        ensures
            b == self.hit_spec(r, t_min as int, t_max as int) is Some,
            b ==> *final(rec) == self.hit_spec(r, t_min as int, t_max as int).unwrap(),
            b ==> final(rec).reports_hit(r, t_min as int, t_max as int),
            !b ==> *final(rec) == *old(rec),
    ;
}

/// Every hit a shape reports has its normal turned against the ray.
pub proof fn lemma_front_face<T: Hittable>(shape: T, ray: Ray, t_min: int, t_max: int)
    requires
        shape.well_formed(),
        shape.hit_spec(ray, t_min, t_max) is Some,
    ensures
        ray.direction.spec_dot(shape.hit_spec(ray, t_min, t_max).unwrap().normal.unwrap()) <= 0,
{
    shape.lemma_hit_in_range(ray, t_min, t_max);
}

} // verus!
