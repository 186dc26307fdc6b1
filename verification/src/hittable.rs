//! What a ray can hit, and what is recorded of a hit.

use crate::fixed::Fixed;
use crate::interval::Interval;
use crate::material::{Material, Surface};
use crate::ray::Ray;
use crate::vec3::{lemma_dot_neg, Point3, Vec3};
use vstd::prelude::*;

verus! {

/// Where and how a ray meets a surface.
#[derive(Clone, Copy, Debug, PartialEq, Eq, Structural)]
pub struct HitRecord {
    /// The point of the hit.
    pub p: Point3,
    /// The surface normal at the point, turned against the ray.
    pub normal: Vec3,
    /// The material of the surface.
    pub mat: Surface,
    /// The ray parameter of the point.
    pub t: Fixed,
    /// Whether the ray came from outside the surface.
    pub front_face: bool,
}

impl HitRecord {
    /// The record with its normal and face set for a ray `r` that meets a
    /// surface whose outward normal is `outward_normal`: the ray comes from
    /// outside where it runs against the outward normal, and the recorded
    /// normal is the outward one turned against the ray.
    pub open spec fn spec_face_normal(self, r: Ray, outward_normal: Vec3) -> HitRecord {
        let front_face = r.direction.spec_dot(outward_normal)@ < 0;
        HitRecord {
            front_face,
            normal: if front_face {
                outward_normal
            } else {
                outward_normal.spec_neg()
            },
            ..self
        }
    }

    pub fn new(p: Point3, normal: Vec3, mat: Surface, t: Fixed, front_face: bool) -> (rec: HitRecord)
        ensures
            rec == (HitRecord { p, normal, mat, t, front_face }),
    {
        HitRecord { p, normal, mat, t, front_face }
    }

    /// Sets the face and the normal for a ray `r` that meets a surface whose
    /// outward normal is `outward_normal`. The recorded normal never points
    /// along the ray.
    pub fn set_face_normal(&mut self, r: &Ray, outward_normal: &Vec3)
        ensures
            *final(self) == old(self).spec_face_normal(*r, *outward_normal),
            r.direction.spec_dot(final(self).normal)@ <= 0,
    {
        proof {
            lemma_dot_neg(r.direction, *outward_normal);
        }
        self.front_face = r.direction().dot(outward_normal).lt(Fixed::zero());
        self.normal = if self.front_face {
            *outward_normal
        } else {
            outward_normal.negate()
        };
    }
}

/// Something a ray can hit.
pub trait Hittable: Send + Sync {
    /// Whether every material in it gives back no more light than it gets.
    spec fn is_non_emissive(&self) -> bool;

    /// The hit of `r` whose ray parameter lies strictly inside `ray_t`, if
    /// there is one; the nearest, if there are several.
    spec fn spec_hit(&self, r: Ray, ray_t: Interval) -> Option<HitRecord>;

    /// The hit of `r` whose ray parameter lies strictly inside `ray_t`.
    fn hit(&self, r: &Ray, ray_t: Interval) -> (res: Option<HitRecord>)
        ensures
            res == self.spec_hit(*r, ray_t),
    ;

    /// The ray parameter of a hit lies strictly inside the interval it was
    /// asked for, and its material is one of this object's.
    proof fn lemma_hit_inside(&self, r: Ray, ray_t: Interval)
        ensures
            self.spec_hit(r, ray_t) matches Some(rec) ==> ray_t.spec_surrounds(rec.t) && (
            self.is_non_emissive() ==> rec.mat.is_non_emissive()),
    ;

    /// Lowering the upper end of the interval keeps the hit where it is still
    /// inside, and finds none where it is not: nothing farther takes its
    /// place.
    proof fn lemma_hit_narrowed(&self, r: Ray, ray_t: Interval, closest: Fixed)
        requires
            closest@ <= ray_t.max@,
        ensures
            self.spec_hit(r, Interval { min: ray_t.min, max: closest }) == (match self.spec_hit(
                r,
                ray_t,
            ) {
                Some(rec) => if rec.t@ < closest@ {
                    Some(rec)
                } else {
                    None
                },
                None => None,
            }),
    ;
}

} // verus!
