//! Rays: an origin and a direction, not necessarily of unit length.

use crate::vec3::Vec3;
use vstd::prelude::*;

verus! {

#[derive(Debug, Clone, Copy, PartialEq, Eq, Structural)]
pub struct Ray {
    pub origin: Vec3,
    pub direction: Vec3,
}

impl Ray {
    /// The point at parameter `t` along the ray.
    pub open spec fn spec_at(self, t: int) -> Vec3 {
        self.origin.spec_add(self.direction.spec_scale(t))
    }

    pub fn new(orig: Vec3, dir: Vec3) -> (r: Ray)
        ensures
            r == (Ray { origin: orig, direction: dir }),
    {
        Ray { origin: orig, direction: dir }
    }

    pub fn origin(&self) -> (r: &Vec3)
        ensures
            *r == self.origin,
    {
        &self.origin
    }

    pub fn direction(&self) -> (r: &Vec3)
        ensures
            *r == self.direction,
    {
        &self.direction
    }

    pub fn at(&self, t: i64) -> (r: Vec3)
        ensures
            r == self.spec_at(t as int),
            r.wf(),
    {
        self.origin.add(self.direction.scale(t))
    }
}

} // verus!
