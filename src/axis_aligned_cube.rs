//! Axis-aligned boxes, made of six rectangles.

use crate::closest::{all_are_well_formed, all_well_formed, closest_hit, hit_closest, lemma_closest_hit, lemma_closest_narrow, lemma_closest_widen};
use crate::hittable::{HitRecord, Hittable};
use crate::material::Material;
use crate::ray::Ray;
use crate::rectangle::{rectangle_triangles, Rectangle};
use crate::triangle::Triangle;
use crate::vec3::Vec3;
use vstd::prelude::*;

verus! {

/// The corner of the box spanned by `lo` and `hi` that takes each
/// coordinate from `hi` where the flag is set.
pub open spec fn corner(lo: Vec3, hi: Vec3, x_hi: bool, y_hi: bool, z_hi: bool) -> Vec3 {
    Vec3 {
        x: if x_hi { hi.x } else { lo.x },
        y: if y_hi { hi.y } else { lo.y },
        z: if z_hi { hi.z } else { lo.z },
    }
}

/// The triangles of the six faces of the box, in the order front, back,
/// top, bottom, left, right.
pub open spec fn cube_faces(lo: Vec3, hi: Vec3, mat: Material) -> Seq<Seq<Triangle>> {
    let c = |x: bool, y: bool, z: bool| corner(lo, hi, x, y, z);
    seq![
        rectangle_triangles(c(false, false, false), c(true, false, false), c(false, true, false), c(true, true, false), mat, false),
        rectangle_triangles(c(false, false, true), c(true, false, true), c(false, true, true), c(true, true, true), mat, false),
        rectangle_triangles(c(false, true, false), c(true, true, false), c(false, true, true), c(true, true, true), mat, false),
        rectangle_triangles(c(false, false, false), c(true, false, false), c(false, false, true), c(true, false, true), mat, false),
        rectangle_triangles(c(false, false, true), c(false, false, false), c(false, true, true), c(false, true, false), mat, false),
        rectangle_triangles(c(true, true, true), c(true, false, true), c(true, true, false), c(true, false, false), mat, false),
    ]
}

pub struct Cube {
    pub top_right: Vec3,
    pub bottom_left: Vec3,
    pub squares: Vec<Rectangle>,
    pub material: Material,
}

impl Cube {
    /// The box spanned by two opposite corners: front, back, top, bottom,
    /// left and right faces, in that order.
    pub fn new(bottom_front_left: Vec3, top_back_right: Vec3, mat: Material) -> (r: Cube)
        ensures
            r.squares@.len() == 6,
            forall|i: int| 0 <= i < 6 ==> (#[trigger] r.squares@[i]).triangles@ == cube_faces(bottom_front_left, top_back_right, mat)[i],
            r.top_right == top_back_right,
            r.bottom_left == bottom_front_left,
            r.material == mat,
            r.well_formed(),
    {
        let lo = bottom_front_left;
        let hi = top_back_right;
        let bottom_front_right = Vec3::new(hi.x, lo.y, lo.z);
        let top_front_left = Vec3::new(lo.x, hi.y, lo.z);
        let top_front_right = Vec3::new(hi.x, hi.y, lo.z);
        let bottom_back_left = Vec3::new(lo.x, lo.y, hi.z);
        let bottom_back_right = Vec3::new(hi.x, lo.y, hi.z);
        let top_back_left = Vec3::new(lo.x, hi.y, hi.z);

        let front = Rectangle::new(lo, bottom_front_right, top_front_left, top_front_right, mat, false);
        let back = Rectangle::new(bottom_back_left, bottom_back_right, top_back_left, hi, mat, false);
        let top = Rectangle::new(top_front_left, top_front_right, top_back_left, hi, mat, false);
        let bottom = Rectangle::new(lo, bottom_front_right, bottom_back_left, bottom_back_right, mat, false);
        let left = Rectangle::new(bottom_back_left, lo, top_back_left, top_front_left, mat, false);
        let right = Rectangle::new(hi, bottom_back_right, top_front_right, bottom_front_right, mat, false);
        let squares = vec![front, back, top, bottom, left, right];
        proof {
            assert(all_well_formed(squares@)) by {
                assert forall|i: int| 0 <= i < squares@.len() implies #[trigger] squares@[i].well_formed() by {
                    if i == 0 {
                    } else if i == 1 {
                    } else if i == 2 {
                    } else if i == 3 {
                    } else if i == 4 {
                    } else {
                    }
                }
            }
        }
        proof {
            let faces = cube_faces(lo, hi, mat);
            assert forall|i: int| 0 <= i < 6 implies (#[trigger] squares@[i]).triangles@ == faces[i] by {
                if i == 0 {
                    assert(lo == corner(lo, hi, false, false, false));
                } else if i == 1 {
                    assert(hi == corner(lo, hi, true, true, true));
                } else if i == 2 {
                    assert(hi == corner(lo, hi, true, true, true));
                } else if i == 3 {
                    assert(lo == corner(lo, hi, false, false, false));
                } else if i == 4 {
                    assert(lo == corner(lo, hi, false, false, false));
                } else {
                    assert(hi == corner(lo, hi, true, true, true));
                }
            }
        }
        Cube { top_right: top_back_right, bottom_left: bottom_front_left, squares, material: mat }
    }
}

impl Hittable for Cube {
    /// The nearest of the faces' hits.
    open spec fn hit_spec(&self, ray: Ray, t_min: int, t_max: int) -> Option<HitRecord> {
        closest_hit(self.squares@, ray, t_min, t_max)
    }

    open spec fn well_formed(&self) -> bool {
        all_well_formed(self.squares@)
    }

    proof fn lemma_hit_in_range(&self, ray: Ray, t_min: int, t_max: int) {
        lemma_closest_hit(self.squares@, ray, t_min, t_max);
    }

    proof fn lemma_narrow(&self, ray: Ray, t_min: int, t_max: int, bound: int) {
        lemma_closest_narrow(self.squares@, ray, t_min, t_max, bound);
    }

    proof fn lemma_widen(&self, ray: Ray, t_min: int, bound: int, t_max: int) {
        lemma_closest_widen(self.squares@, ray, t_min, bound, t_max);
    }

    fn is_well_formed(&self) -> (b: bool) {
        all_are_well_formed(&self.squares)
    }

    fn hit(&self, r: Ray, t_min: i64, t_max: i64, rec: &mut HitRecord) -> (b: bool) {
        hit_closest(&self.squares, r, t_min, t_max, rec)
    }
}

} // verus!
