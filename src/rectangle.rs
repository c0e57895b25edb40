//! Rectangles, made of two triangles.

use crate::closest::{all_are_well_formed, all_well_formed, closest_hit, hit_closest, lemma_closest_hit, lemma_closest_narrow, lemma_closest_widen};
use crate::hittable::{HitRecord, Hittable};
use crate::material::Material;
use crate::ray::Ray;
use crate::triangle::Triangle;
use crate::vec3::Vec3;
use vstd::prelude::*;

verus! {

/// The two triangles of the rectangle with these corners, split along the
/// diagonal from top left to bottom right.
pub open spec fn rectangle_triangles(
    bottom_left: Vec3,
    bottom_right: Vec3,
    top_left: Vec3,
    top_right: Vec3,
    mat: Material,
    cull_back_face: bool,
) -> Seq<Triangle> {
    seq![
        Triangle::new_spec(bottom_left, top_left, bottom_right, mat, cull_back_face),
        Triangle::new_spec(top_right, bottom_right, top_left, mat, cull_back_face),
    ]
}

pub struct Rectangle {
    pub triangles: Vec<Triangle>,
}

impl Rectangle {
    /// The rectangle with the given corners, split along the diagonal from
    /// top left to bottom right.
    pub fn new(
        bottom_left: Vec3,
        bottom_right: Vec3,
        top_left: Vec3,
        top_right: Vec3,
        mat: Material,
        cull_back_face: bool,
    ) -> (r: Rectangle)
        ensures
            r.triangles@ == rectangle_triangles(bottom_left, bottom_right, top_left, top_right, mat, cull_back_face),
            r.well_formed(),
    {
        let triangle_1 = Triangle::new(bottom_left, top_left, bottom_right, mat, cull_back_face);
        let triangle_2 = Triangle::new(top_right, bottom_right, top_left, mat, cull_back_face);
        let r = Rectangle { triangles: vec![triangle_1, triangle_2] };
        proof {
            assert(r.triangles@ =~= rectangle_triangles(bottom_left, bottom_right, top_left, top_right, mat, cull_back_face));
        }
        r
    }
}

impl Hittable for Rectangle {
    /// The nearer of the two triangles' hits.
    open spec fn hit_spec(&self, ray: Ray, t_min: int, t_max: int) -> Option<HitRecord> {
        closest_hit(self.triangles@, ray, t_min, t_max)
    }

    open spec fn well_formed(&self) -> bool {
        all_well_formed(self.triangles@)
    }

    proof fn lemma_hit_in_range(&self, ray: Ray, t_min: int, t_max: int) {
        lemma_closest_hit(self.triangles@, ray, t_min, t_max);
    }

    proof fn lemma_narrow(&self, ray: Ray, t_min: int, t_max: int, bound: int) {
        lemma_closest_narrow(self.triangles@, ray, t_min, t_max, bound);
    }

    proof fn lemma_widen(&self, ray: Ray, t_min: int, bound: int, t_max: int) {
        lemma_closest_widen(self.triangles@, ray, t_min, bound, t_max);
    }

    fn is_well_formed(&self) -> (b: bool) {
        all_are_well_formed(&self.triangles)
    }

    fn hit(&self, r: Ray, t_min: i64, t_max: i64, rec: &mut HitRecord) -> (b: bool) {
        hit_closest(&self.triangles, r, t_min, t_max, rec)
    }
}

} // verus!
