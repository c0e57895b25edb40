//! Triangles, intersected by the Möller–Trumbore method with a flat normal.

use crate::fixed::{fadd, fdiv, fx_add, fx_div, lemma_fdiv_in_range, SCALE};
use crate::hittable::{face_record, lemma_face_record_faces, within, HitRecord, Hittable};
use crate::material::Material;
use crate::ray::Ray;
use crate::vec3::Vec3;
use vstd::prelude::*;

verus! {

#[derive(Debug, Clone, Copy, PartialEq, Eq, Structural)]
pub struct Triangle {
    pub v0: Vec3,
    pub v1: Vec3,
    pub v2: Vec3,
    /// Unit normal of the face, fixed at construction.
    pub normal: Vec3,
    pub material: Material,
    /// Reject rays that meet the back of the face.
    pub cull_back_face: bool,
}

/// The unit normal of the face `v0, v1, v2`, by the right-hand rule.
pub open spec fn face_normal(v0: Vec3, v1: Vec3, v2: Vec3) -> Vec3 {
    v1.spec_sub(v0).spec_cross(v2.spec_sub(v0)).spec_unit()
}

impl Triangle {
    /// The triangle with these vertices, in this order.
    pub open spec fn new_spec(point1: Vec3, point2: Vec3, point3: Vec3, mat: Material, cull_back_face: bool) -> Triangle {
        Triangle {
            v0: point1,
            v1: point2,
            v2: point3,
            normal: face_normal(point1, point2, point3),
            material: mat,
            cull_back_face,
        }
    }

    pub fn new(point1: Vec3, point2: Vec3, point3: Vec3, mat: Material, cull_back_face: bool) -> (r: Triangle)
        ensures
            r == Triangle::new_spec(point1, point2, point3, mat, cull_back_face),
            r.well_formed(),
    {
        let a = point2.sub(point1);
        let b = point3.sub(point1);
        let normal = a.cross(b).unit_vector();
        Triangle { v0: point1, v1: point2, v2: point3, normal, material: mat, cull_back_face }
    }

    pub open spec fn edge1(self) -> Vec3 {
        self.v1.spec_sub(self.v0)
    }

    pub open spec fn edge2(self) -> Vec3 {
        self.v2.spec_sub(self.v0)
    }

    /// The determinant of the Möller–Trumbore system.
    pub open spec fn det(self, ray: Ray) -> int {
        self.edge1().spec_dot(ray.direction.spec_cross(self.edge2()))
    }

    /// A ray the test rejects as parallel to the face, or as meeting its
    /// back when back faces are culled.
    pub open spec fn rejects_det(self, ray: Ray, t_min: int) -> bool {
        if self.cull_back_face {
            self.det(ray) < t_min
        } else {
            -t_min < self.det(ray) < t_min
        }
    }

    /// First barycentric coordinate of the ray's crossing with the plane.
    pub open spec fn bary_u(self, ray: Ray) -> int {
        fdiv(ray.origin.spec_sub(self.v0).spec_dot(ray.direction.spec_cross(self.edge2())), self.det(ray))
    }

    /// Second barycentric coordinate.
    pub open spec fn bary_v(self, ray: Ray) -> int {
        fdiv(ray.direction.spec_dot(ray.origin.spec_sub(self.v0).spec_cross(self.edge1())), self.det(ray))
    }

    /// Ray parameter of the crossing.
    pub open spec fn crossing(self, ray: Ray) -> int {
        fdiv(self.edge2().spec_dot(ray.origin.spec_sub(self.v0).spec_cross(self.edge1())), self.det(ray))
    }

    /// The crossing lies inside the triangle.
    pub open spec fn inside(self, ray: Ray) -> bool {
        0 <= self.bary_u(ray) && 0 <= self.bary_v(ray) && fadd(self.bary_u(ray), self.bary_v(ray))
            <= SCALE
    }
}

/// The barycentric coordinates of a reported hit are non-negative and sum
/// to at most one.
pub proof fn lemma_barycentric(tri: Triangle, ray: Ray, t_min: int, t_max: int)
    requires
        tri.hit_spec(ray, t_min, t_max) is Some,
    ensures
        0 <= tri.bary_u(ray),
        0 <= tri.bary_v(ray),
        tri.bary_u(ray) + tri.bary_v(ray) <= SCALE,
{
    lemma_fdiv_in_range(
        ray.origin.spec_sub(tri.v0).spec_dot(ray.direction.spec_cross(tri.edge2())),
        tri.det(ray),
    );
    lemma_fdiv_in_range(
        ray.direction.spec_dot(ray.origin.spec_sub(tri.v0).spec_cross(tri.edge1())),
        tri.det(ray),
    );
}

impl Hittable for Triangle {
    open spec fn hit_spec(&self, ray: Ray, t_min: int, t_max: int) -> Option<HitRecord> {
        if !self.rejects_det(ray, t_min) && self.inside(ray) && within(self.crossing(ray), t_min, t_max) {
            let t = self.crossing(ray);
            Some(face_record(ray, t as i64, ray.spec_at(t), self.normal, self.material))
        } else {
            None
        }
    }

    open spec fn well_formed(&self) -> bool {
        self.normal.wf()
    }

    proof fn lemma_hit_in_range(&self, ray: Ray, t_min: int, t_max: int) {
        let t = self.crossing(ray);
        lemma_fdiv_in_range(
            self.edge2().spec_dot(ray.origin.spec_sub(self.v0).spec_cross(self.edge1())),
            self.det(ray),
        );
        lemma_face_record_faces(ray, t as i64, ray.spec_at(t), self.normal, self.material);
    }

    proof fn lemma_narrow(&self, ray: Ray, t_min: int, t_max: int, bound: int) {
        lemma_fdiv_in_range(
            self.edge2().spec_dot(ray.origin.spec_sub(self.v0).spec_cross(self.edge1())),
            self.det(ray),
        );
    }

    proof fn lemma_widen(&self, ray: Ray, t_min: int, bound: int, t_max: int) {
        self.lemma_hit_in_range(ray, t_min, bound);
    }

    fn is_well_formed(&self) -> (b: bool) {
        self.normal.in_range()
    }

    fn hit(&self, r: Ray, t_min: i64, t_max: i64, rec: &mut HitRecord) -> (b: bool) {
        let edge1 = self.v1.sub(self.v0);
        let edge2 = self.v2.sub(self.v0);
        let h = r.direction.cross(edge2);
        let a = edge1.dot(h);
        if self.cull_back_face {
            if a < t_min {
                return false;
            }
        } else if -(t_min as i128) < a as i128 && a < t_min {
            return false;
        }
        let s = r.origin.sub(self.v0);
        let u = fx_div(s.dot(h), a);
        if u < 0 || u > SCALE {
            return false;
        }
        let q = s.cross(edge1);
        let v = fx_div(r.direction.dot(q), a);
        if v < 0 || fx_add(u, v) > SCALE {
            return false;
        }
        let t = fx_div(edge2.dot(q), a);
        if t >= t_max || t <= t_min {
            return false;
        }
        let p = r.at(t);
        let mut hit = HitRecord { p: Some(p), normal: None, t: Some(t), front_face: None, material: Some(self.material) };
        hit.set_face_normal(r, self.normal);
        proof {
            lemma_face_record_faces(r, t, p, self.normal, self.material);
        }
        *rec = hit;
        true
    }
}

} // verus!
