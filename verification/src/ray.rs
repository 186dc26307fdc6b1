//! Rays: a starting point and a direction.

use crate::fixed::Fixed;
use crate::vec3::{Point3, Vec3};
use vstd::prelude::*;

verus! {

/// The half-line of the points `origin + t * direction`. The direction need
/// not have unit length.
#[derive(Clone, Copy, Debug, PartialEq, Eq, Structural)]
pub struct Ray {
    pub origin: Point3,
    pub direction: Vec3,
}

impl Ray {
    /// The point reached after travelling `t` times the direction.
    pub open spec fn spec_at(self, t: Fixed) -> Point3 {
        self.origin.spec_add(self.direction.spec_scale(t))
    }

    pub fn new(origin: Point3, direction: Vec3) -> (r: Ray)
        ensures
            r == (Ray { origin, direction }),
    {
        Ray { origin, direction }
    }

    pub fn at(&self, t: Fixed) -> (p: Point3)
        ensures
            p == self.spec_at(t),
    {
        self.origin.plus(self.direction.scale(t))
    }

    pub fn origin(&self) -> (p: Vec3)
        ensures
            p == self.origin,
    {
        self.origin
    }

    pub fn direction(&self) -> (d: Vec3)
        ensures
            d == self.direction,
    {
        self.direction
    }
}

impl Default for Ray {
    /// The ray from the origin with the zero direction.
    fn default() -> (r: Ray)
        ensures
            r == (Ray { origin: Vec3::spec_zero(), direction: Vec3::spec_zero() }),
    {
        Ray { origin: Vec3::default(), direction: Vec3::default() }
    }
}

} // verus!
