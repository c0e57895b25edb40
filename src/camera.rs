//! A thin-lens camera mapping image-plane coordinates to world rays.

use crate::fixed::{fadd, fmul, fx_add, fx_mul};
use crate::random::{in_unit_disk, random_in_unit_disk};
use crate::ray::Ray;
use crate::vec3::Vec3;
use vstd::prelude::*;

verus! {

/// One half, as a raw value.
pub const HALF: i64 = 32768;

pub struct Camera {
    pub origin: Vec3,
    pub horizontal: Vec3,
    pub vertical: Vec3,
    pub lower_left_corner: Vec3,
    pub w: Vec3,
    pub u: Vec3,
    pub v: Vec3,
    pub lens_radius: i64,
}

/// The camera at `look_from` facing `look_at`, with `v_up` giving the up
/// side, `half_view_tan` the tangent of half the vertical field of view,
/// and the focus plane at `focus_dist`.
pub open spec fn camera_spec(
    look_from: Vec3,
    look_at: Vec3,
    v_up: Vec3,
    half_view_tan: int,
    aspect_ratio: int,
    aperture: int,
    focus_dist: int,
) -> Camera {
    let viewport_height = fadd(half_view_tan, half_view_tan);
    let viewport_width = fmul(aspect_ratio, viewport_height);
    let w = look_from.spec_sub(look_at).spec_unit();
    let u = v_up.spec_cross(w).spec_unit();
    let v = w.spec_cross(u);
    let horizontal = u.spec_scale(focus_dist).spec_scale(viewport_width);
    let vertical = v.spec_scale(focus_dist).spec_scale(viewport_height);
    let lower_left_corner = look_from.spec_sub(horizontal.spec_scale(HALF as int)).spec_sub(
        vertical.spec_scale(HALF as int),
    ).spec_sub(w.spec_scale(focus_dist));
    Camera {
        origin: look_from,
        horizontal,
        vertical,
        lower_left_corner,
        w,
        u,
        v,
        lens_radius: fmul(aperture, HALF as int) as i64,
    }
}

/// The view direction and the up hint span a plane: neither the camera's
/// backward axis nor its right axis comes out zero.
pub open spec fn has_basis_spec(look_from: Vec3, look_at: Vec3, v_up: Vec3) -> bool {
    let w = look_from.spec_sub(look_at).spec_unit();
    let u = v_up.spec_cross(w).spec_unit();
    w != (Vec3 { x: 0, y: 0, z: 0 }) && u != (Vec3 { x: 0, y: 0, z: 0 })
}

/// Tests whether a camera at `look_from` facing `look_at` with `v_up` up has a
/// usable basis; a camera without one must be rejected before rendering.
pub fn has_basis(look_from: Vec3, look_at: Vec3, v_up: Vec3) -> (r: bool)
    ensures
        r == has_basis_spec(look_from, look_at, v_up),
{
    let zero = Vec3::new(0, 0, 0);
    let w = look_from.sub(look_at).unit_vector();
    let u = v_up.cross(w).unit_vector();
    w != zero && u != zero
}

impl Camera {
    pub fn new(
        look_from: Vec3,
        look_at: Vec3,
        v_up: Vec3,
        half_view_tan: i64,
        aspect_ratio: i64,
        aperture: i64,
        focus_dist: i64,
    ) -> (r: Camera)
        ensures
            r == camera_spec(
                look_from,
                look_at,
                v_up,
                half_view_tan as int,
                aspect_ratio as int,
                aperture as int,
                focus_dist as int,
            ),
    {
        let viewport_height = fx_add(half_view_tan, half_view_tan);
        let viewport_width = fx_mul(aspect_ratio, viewport_height);
        let w = look_from.sub(look_at).unit_vector();
        let u = v_up.cross(w).unit_vector();
        let v = w.cross(u);
        let horizontal = u.scale(focus_dist).scale(viewport_width);
        let vertical = v.scale(focus_dist).scale(viewport_height);
        let lower_left_corner = look_from.sub(horizontal.scale(HALF)).sub(vertical.scale(HALF)).sub(
            w.scale(focus_dist),
        );
        Camera {
            origin: look_from,
            horizontal,
            vertical,
            lower_left_corner,
            w,
            u,
            v,
            lens_radius: fx_mul(aperture, HALF),
        }
    }

    /// The ray through image-plane point `(s, t)` from the lens point
    /// `disk`, a point of the unit disk scaled by the lens radius.
    pub open spec fn ray_for(self, s: int, t: int, disk: Vec3) -> Ray {
        let rd = disk.spec_scale(self.lens_radius as int);
        let offset = self.u.spec_scale(rd.x as int).spec_add(self.v.spec_scale(rd.y as int));
        Ray {
            origin: self.origin.spec_add(offset),
            direction: self.lower_left_corner.spec_add(self.horizontal.spec_scale(s)).spec_add(
                self.vertical.spec_scale(t),
            ).spec_sub(self.origin).spec_sub(offset),
        }
    }

    /// The ray through `(s, t)` from the given lens point.
    pub fn get_ray_with(&self, s: i64, t: i64, disk: Vec3) -> (r: Ray)
        ensures
            r == self.ray_for(s as int, t as int, disk),
    {
        let rd = disk.scale(self.lens_radius);
        let offset = self.u.scale(rd.x).add(self.v.scale(rd.y));
        Ray::new(
            self.origin.add(offset),
            self.lower_left_corner.add(self.horizontal.scale(s)).add(self.vertical.scale(t)).sub(
                self.origin,
            ).sub(offset),
        )
    }

    /// The ray through `(s, t)` from a random point of the lens.
    pub fn get_ray(&self, s: i64, t: i64) -> (r: Ray)
        ensures
            exists|disk: Vec3| in_unit_disk(disk) && r == #[trigger] self.ray_for(s as int, t as int, disk),
    {
        let disk = random_in_unit_disk();
        self.get_ray_with(s, t, disk)
    }
}

} // verus!
