//! The scene: an ordered list of primitives and a list of point lights.

use crate::axis_aligned_cube::Cube;
use crate::closest::{all_are_well_formed, all_well_formed, closest_hit, hit_closest, lemma_closest_hit, lemma_closest_narrow, lemma_closest_widen};
use crate::hittable::{HitRecord, Hittable};
use crate::ray::Ray;
use crate::rectangle::Rectangle;
use crate::sphere::Sphere;
use crate::triangle::Triangle;
use crate::vec3::Vec3;
use vstd::prelude::*;

verus! {

/// The closed set of shapes a scene holds.
pub enum Primitive {
    Sphere(Sphere),
    Triangle(Triangle),
    Rectangle(Rectangle),
    Cube(Cube),
}

impl Hittable for Primitive {
    open spec fn hit_spec(&self, ray: Ray, t_min: int, t_max: int) -> Option<HitRecord> {
        match self {
            Primitive::Sphere(s) => s.hit_spec(ray, t_min, t_max),
            Primitive::Triangle(t) => t.hit_spec(ray, t_min, t_max),
            Primitive::Rectangle(r) => r.hit_spec(ray, t_min, t_max),
            Primitive::Cube(c) => c.hit_spec(ray, t_min, t_max),
        }
    }

    open spec fn well_formed(&self) -> bool {
        match self {
            Primitive::Sphere(s) => s.well_formed(),
            Primitive::Triangle(t) => t.well_formed(),
            Primitive::Rectangle(r) => r.well_formed(),
            Primitive::Cube(c) => c.well_formed(),
        }
    }

    proof fn lemma_hit_in_range(&self, ray: Ray, t_min: int, t_max: int) {
        match self {
            Primitive::Sphere(s) => s.lemma_hit_in_range(ray, t_min, t_max),
            Primitive::Triangle(t) => t.lemma_hit_in_range(ray, t_min, t_max),
            Primitive::Rectangle(r) => r.lemma_hit_in_range(ray, t_min, t_max),
            Primitive::Cube(c) => c.lemma_hit_in_range(ray, t_min, t_max),
        }
    }

    proof fn lemma_narrow(&self, ray: Ray, t_min: int, t_max: int, bound: int) {
        match self {
            Primitive::Sphere(s) => s.lemma_narrow(ray, t_min, t_max, bound),
            Primitive::Triangle(t) => t.lemma_narrow(ray, t_min, t_max, bound),
            Primitive::Rectangle(r) => r.lemma_narrow(ray, t_min, t_max, bound),
            Primitive::Cube(c) => c.lemma_narrow(ray, t_min, t_max, bound),
        }
    }

    proof fn lemma_widen(&self, ray: Ray, t_min: int, bound: int, t_max: int) {
        match self {
            Primitive::Sphere(s) => s.lemma_widen(ray, t_min, bound, t_max),
            Primitive::Triangle(t) => t.lemma_widen(ray, t_min, bound, t_max),
            Primitive::Rectangle(r) => r.lemma_widen(ray, t_min, bound, t_max),
            Primitive::Cube(c) => c.lemma_widen(ray, t_min, bound, t_max),
        }
    }

    fn is_well_formed(&self) -> (b: bool) {
        match self {
            Primitive::Sphere(s) => s.is_well_formed(),
            Primitive::Triangle(t) => t.is_well_formed(),
            Primitive::Rectangle(r) => r.is_well_formed(),
            Primitive::Cube(c) => c.is_well_formed(),
        }
    }

    fn hit(&self, r: Ray, t_min: i64, t_max: i64, rec: &mut HitRecord) -> (b: bool) {
        match self {
            Primitive::Sphere(s) => s.hit(r, t_min, t_max, rec),
            Primitive::Triangle(t) => t.hit(r, t_min, t_max, rec),
            Primitive::Rectangle(x) => x.hit(r, t_min, t_max, rec),
            Primitive::Cube(c) => c.hit(r, t_min, t_max, rec),
        }
    }
}

pub struct Hittables {
    pub lights: Vec<Vec3>,
    pub hittables: Vec<Primitive>,
}

impl Hittables {
    /// An empty scene.
    pub fn new() -> (r: Hittables)
        ensures
            r.lights@.len() == 0,
            r.hittables@.len() == 0,
            r.well_formed(),
    {
        Hittables { lights: Vec::new(), hittables: Vec::new() }
    }

    pub fn push(&mut self, hittable: Primitive)
        ensures
            final(self).hittables@ == old(self).hittables@.push(hittable),
            final(self).lights@ == old(self).lights@,
            final(self).well_formed() == (old(self).well_formed() && hittable.well_formed()),
    {
        self.hittables.push(hittable);
        proof {
            let s = self.hittables@;
            if old(self).well_formed() && hittable.well_formed() {
                assert forall|i: int| 0 <= i < s.len() implies #[trigger] s[i].well_formed() by {
                    if i < s.len() - 1 {
                        assert(s[i] == old(self).hittables@[i]);
                    }
                }
            }
            if self.well_formed() {
                assert(s[s.len() - 1].well_formed());
                assert forall|i: int| 0 <= i < old(self).hittables@.len() implies #[trigger] old(self).hittables@[i].well_formed() by {
                    assert(s[i] == old(self).hittables@[i]);
                }
            }
        }
    }

    pub fn push_light(&mut self, light_position: Vec3)
        ensures
            final(self).lights@ == old(self).lights@.push(light_position),
            final(self).hittables@ == old(self).hittables@,
    {
        self.lights.push(light_position);
    }
}

impl Hittable for Hittables {
    /// The nearest of the primitives' hits.
    open spec fn hit_spec(&self, ray: Ray, t_min: int, t_max: int) -> Option<HitRecord> {
        closest_hit(self.hittables@, ray, t_min, t_max)
    }

    open spec fn well_formed(&self) -> bool {
        all_well_formed(self.hittables@)
    }

    proof fn lemma_hit_in_range(&self, ray: Ray, t_min: int, t_max: int) {
        lemma_closest_hit(self.hittables@, ray, t_min, t_max);
    }

    proof fn lemma_narrow(&self, ray: Ray, t_min: int, t_max: int, bound: int) {
        lemma_closest_narrow(self.hittables@, ray, t_min, t_max, bound);
    }

    proof fn lemma_widen(&self, ray: Ray, t_min: int, bound: int, t_max: int) {
        lemma_closest_widen(self.hittables@, ray, t_min, bound, t_max);
    }

    fn is_well_formed(&self) -> (b: bool) {
        all_are_well_formed(&self.hittables)
    }

    fn hit(&self, r: Ray, t_min: i64, t_max: i64, rec: &mut HitRecord) -> (b: bool) {
        hit_closest(&self.hittables, r, t_min, t_max, rec)
    }
}

} // verus!
