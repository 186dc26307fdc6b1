//! Three-component vectors, used as directions, points and colours.

use crate::fixed::{
    int_sqrt, isqrt, lemma_div_at_most_one, lemma_int_sqrt_monotone, lemma_int_sqrt_square,
    lemma_add_exact, lemma_double, lemma_mul_axis, lemma_mul_by_unit, lemma_mul_neg,
    lemma_mul_unit_magnitude, lemma_square_of_large_share,
    lemma_sub_exact, lemma_trunc_div_bounds,
    magnitude, trunc_div, Fixed, RAW_MAX, SCALE,
};
use crate::{
    is_unit_draw, lemma_range_point_bounds, random_double, random_double_range, range_point,
    spec_range_point,
};
use vstd::prelude::*;

verus! {

/// A point in space.
pub type Point3 = Vec3;

/// A colour: red, green and blue in `x`, `y` and `z`.
pub type Color = Vec3;

/// A vector of three fixed-point components.
#[derive(Clone, Copy, Debug, PartialEq, Eq, Structural)]
pub struct Vec3 {
    pub x: Fixed,
    pub y: Fixed,
    pub z: Fixed,
}

/// Below this magnitude, in raw units, a component counts as zero: a
/// hundred-millionth.
pub const NEAR_ZERO_RAW: i64 = 10;

/// How many candidates a rejection sampler draws before it settles for a
/// fixed vector.
pub const SAMPLE_TRIES: u32 = 64;

impl Vec3 {
    pub open spec fn spec_zero() -> Vec3 {
        Vec3 { x: Fixed::spec_zero(), y: Fixed::spec_zero(), z: Fixed::spec_zero() }
    }

    pub open spec fn spec_neg(self) -> Vec3 {
        Vec3 { x: self.x.spec_neg(), y: self.y.spec_neg(), z: self.z.spec_neg() }
    }

    pub open spec fn spec_add(self, rhs: Vec3) -> Vec3 {
        Vec3 {
            x: self.x.spec_add(rhs.x),
            y: self.y.spec_add(rhs.y),
            z: self.z.spec_add(rhs.z),
        }
    }

    pub open spec fn spec_sub(self, rhs: Vec3) -> Vec3 {
        Vec3 {
            x: self.x.spec_sub(rhs.x),
            y: self.y.spec_sub(rhs.y),
            z: self.z.spec_sub(rhs.z),
        }
    }

    /// The componentwise product.
    pub open spec fn spec_mul(self, rhs: Vec3) -> Vec3 {
        Vec3 {
            x: self.x.spec_mul(rhs.x),
            y: self.y.spec_mul(rhs.y),
            z: self.z.spec_mul(rhs.z),
        }
    }

    /// The vector with each component multiplied by `t`.
    pub open spec fn spec_scale(self, t: Fixed) -> Vec3 {
        Vec3 { x: self.x.spec_mul(t), y: self.y.spec_mul(t), z: self.z.spec_mul(t) }
    }

    /// The vector with each component divided by `t`.
    pub open spec fn spec_div(self, t: Fixed) -> Vec3 {
        Vec3 { x: self.x.spec_div(t), y: self.y.spec_div(t), z: self.z.spec_div(t) }
    }

    pub open spec fn spec_dot(self, rhs: Vec3) -> Fixed {
        self.x.spec_mul(rhs.x).spec_add(self.y.spec_mul(rhs.y)).spec_add(self.z.spec_mul(rhs.z))
    }

    pub open spec fn spec_cross(self, rhs: Vec3) -> Vec3 {
        Vec3 {
            x: self.y.spec_mul(rhs.z).spec_sub(self.z.spec_mul(rhs.y)),
            y: self.z.spec_mul(rhs.x).spec_sub(self.x.spec_mul(rhs.z)),
            z: self.x.spec_mul(rhs.y).spec_sub(self.y.spec_mul(rhs.x)),
        }
    }

    pub open spec fn spec_length_squared(self) -> Fixed {
        self.spec_dot(self)
    }

    /// The exact sum of the squared components, in squared raw units.
    pub open spec fn raw_norm_squared(self) -> int {
        self.x@ * self.x@ + self.y@ * self.y@ + self.z@ * self.z@
    }

    /// The Euclidean length, rounded down to a billionth.
    pub open spec fn spec_length(self) -> Fixed {
        Fixed::of(int_sqrt(self.raw_norm_squared()))
    }

    /// The vector divided by its length; the zero vector for the zero vector.
    pub open spec fn spec_unit_vector(self) -> Vec3 {
        self.spec_div(self.spec_length())
    }

    pub open spec fn spec_near_zero(self) -> bool {
        &&& self.x.spec_abs()@ < NEAR_ZERO_RAW as int
        &&& self.y.spec_abs()@ < NEAR_ZERO_RAW as int
        &&& self.z.spec_abs()@ < NEAR_ZERO_RAW as int
    }

    /// `v` mirrored at the plane with normal `n`: `v - 2 (v . n) n`.
    pub open spec fn spec_reflect(v: Vec3, n: Vec3) -> Vec3 {
        v.spec_sub(n.spec_scale(Fixed::spec_from_int(2).spec_mul(v.spec_dot(n))))
    }

    /// The cosine that refraction works with: `-(uv . n)`, capped at one.
    pub open spec fn spec_cos_theta(uv: Vec3, n: Vec3) -> Fixed {
        uv.spec_dot(n).spec_neg().spec_min(Fixed::spec_one())
    }

    /// The part of the refracted direction perpendicular to the normal.
    pub open spec fn spec_refract_perp(uv: Vec3, n: Vec3, etai_over_etat: Fixed) -> Vec3 {
        uv.spec_add(n.spec_scale(Vec3::spec_cos_theta(uv, n))).spec_scale(etai_over_etat)
    }

    /// The part of the refracted direction parallel to the normal.
    pub open spec fn spec_refract_parallel(perp: Vec3, n: Vec3) -> Vec3 {
        n.spec_scale(
            Fixed::spec_one().spec_sub(perp.spec_length_squared()).spec_abs().spec_sqrt().spec_neg(),
        )
    }

    /// `uv` bent by Snell's law at a surface with normal `n`.
    pub open spec fn spec_refract(uv: Vec3, n: Vec3, etai_over_etat: Fixed) -> Vec3 {
        let perp = Vec3::spec_refract_perp(uv, n, etai_over_etat);
        perp.spec_add(Vec3::spec_refract_parallel(perp, n))
    }

    /// Component `index`: 0 for `x`, 1 for `y`, 2 for `z`.
    pub open spec fn spec_index(self, index: int) -> Fixed {
        if index == 0 {
            self.x
        } else if index == 1 {
            self.y
        } else {
            self.z
        }
    }

    /// The vector with component `index` replaced by `value`.
    pub open spec fn spec_with(self, index: int, value: Fixed) -> Vec3 {
        if index == 0 {
            Vec3 { x: value, ..self }
        } else if index == 1 {
            Vec3 { y: value, ..self }
        } else {
            Vec3 { z: value, ..self }
        }
    }

    /// Whether each component is at least zero and at most one.
    pub open spec fn in_unit_cube(self) -> bool {
        &&& 0 <= self.x@ <= SCALE as int
        &&& 0 <= self.y@ <= SCALE as int
        &&& 0 <= self.z@ <= SCALE as int
    }

    /// Whether each component is at least zero and less than one.
    pub open spec fn is_unit_cube_draw(self) -> bool {
        is_unit_draw(self.x) && is_unit_draw(self.y) && is_unit_draw(self.z)
    }

    /// Whether each component is at least `min` and less than `max`.
    pub open spec fn is_cube_draw(self, min: Fixed, max: Fixed) -> bool {
        &&& min@ <= self.x@ < max@
        &&& min@ <= self.y@ < max@
        &&& min@ <= self.z@ < max@
    }

    /// The point of the cube from `min` to `max` that `units` names.
    pub open spec fn spec_cube_point(min: Fixed, max: Fixed, units: Vec3) -> Vec3 {
        Vec3 {
            x: spec_range_point(min, max, units.x),
            y: spec_range_point(min, max, units.y),
            z: spec_range_point(min, max, units.z),
        }
    }

    /// The unit vector along `x`, which the unit sampler settles for.
    pub open spec fn spec_unit_x() -> Vec3 {
        Vec3 { x: Fixed::spec_one(), y: Fixed::spec_zero(), z: Fixed::spec_zero() }
    }

    /// The direction that a candidate `p` gives: `p` scaled to unit length
    /// where its squared length is positive and at most one, none otherwise.
    pub open spec fn spec_unit_from_sample(p: Vec3) -> Option<Vec3> {
        if 0 < p.spec_length_squared()@ <= SCALE as int {
            Some(p.spec_unit_vector())
        } else {
            None
        }
    }

    /// Whether `v` can come out of the unit sampler.
    pub open spec fn is_unit_sample(v: Vec3) -> bool {
        ||| v == Vec3::spec_unit_x()
        ||| exists|p: Vec3|
            p.is_cube_draw(Fixed::spec_one().spec_neg(), Fixed::spec_one())
                && #[trigger] Vec3::spec_unit_from_sample(p) == Some(v)
    }

    /// The point of the unit disk that a candidate `p` gives: `p` itself where
    /// its squared length is less than one, none otherwise.
    pub open spec fn spec_disk_from_sample(p: Vec3) -> Option<Vec3> {
        if p.spec_length_squared()@ < SCALE as int {
            Some(p)
        } else {
            None
        }
    }

    /// Whether `v` can come out of the unit disk sampler.
    pub open spec fn is_disk_sample(v: Vec3) -> bool {
        &&& v.z@ == 0
        &&& -(SCALE as int) <= v.x@ < SCALE as int
        &&& -(SCALE as int) <= v.y@ < SCALE as int
        &&& v.spec_length_squared()@ < SCALE as int
    }

    /// `v` where it points to the side of `normal`, and `v` negated where it
    /// does not.
    pub open spec fn spec_toward(v: Vec3, normal: Vec3) -> Vec3 {
        if v.spec_dot(normal)@ > 0 {
            v
        } else {
            v.spec_neg()
        }
    }

    pub fn new(e0: Fixed, e1: Fixed, e2: Fixed) -> (v: Vec3)
        ensures
            v == (Vec3 { x: e0, y: e1, z: e2 }),
    {
        Vec3 { x: e0, y: e1, z: e2 }
    }

    pub fn x(&self) -> (r: Fixed)
        ensures
            r == self.x,
    {
        self.x
    }

    pub fn y(&self) -> (r: Fixed)
        ensures
            r == self.y,
    {
        self.y
    }

    pub fn z(&self) -> (r: Fixed)
        ensures
            r == self.z,
    {
        self.z
    }

    pub fn negate(self) -> (r: Vec3)
        ensures
            r == self.spec_neg(),
    {
        Vec3::new(self.x.negate(), self.y.negate(), self.z.negate())
    }

    pub fn plus(self, rhs: Vec3) -> (r: Vec3)
        ensures
            r == self.spec_add(rhs),
    {
        Vec3::new(self.x.plus(rhs.x), self.y.plus(rhs.y), self.z.plus(rhs.z))
    }

    pub fn minus(self, rhs: Vec3) -> (r: Vec3)
        ensures
            r == self.spec_sub(rhs),
    {
        Vec3::new(self.x.minus(rhs.x), self.y.minus(rhs.y), self.z.minus(rhs.z))
    }

    /// The componentwise product.
    pub fn times(self, rhs: Vec3) -> (r: Vec3)
        ensures
            r == self.spec_mul(rhs),
    {
        Vec3::new(self.x.times(rhs.x), self.y.times(rhs.y), self.z.times(rhs.z))
    }

    /// The vector with each component multiplied by `t`.
    pub fn scale(self, t: Fixed) -> (r: Vec3)
        ensures
            r == self.spec_scale(t),
    {
        Vec3::new(self.x.times(t), self.y.times(t), self.z.times(t))
    }

    /// The vector with each component divided by `t`.
    pub fn over(self, t: Fixed) -> (r: Vec3)
        ensures
            r == self.spec_div(t),
    {
        Vec3::new(self.x.over(t), self.y.over(t), self.z.over(t))
    }

    pub fn dot(&self, rhs: &Vec3) -> (r: Fixed)
        ensures
            r == self.spec_dot(*rhs),
    {
        self.x.times(rhs.x).plus(self.y.times(rhs.y)).plus(self.z.times(rhs.z))
    }

    pub fn cross(&self, rhs: &Vec3) -> (r: Vec3)
        ensures
            r == self.spec_cross(*rhs),
    {
        Vec3::new(
            self.y.times(rhs.z).minus(self.z.times(rhs.y)),
            self.z.times(rhs.x).minus(self.x.times(rhs.z)),
            self.x.times(rhs.y).minus(self.y.times(rhs.x)),
        )
    }

    pub fn unit_vector(&self) -> (r: Vec3)
        ensures
            r == self.spec_unit_vector(),
    {
        self.over(self.length())
    }

    pub fn length_squared(&self) -> (r: Fixed)
        ensures
            r == self.spec_length_squared(),
    {
        self.dot(self)
    }

    /// Whether every component is less than a hundred-millionth in magnitude.
    pub fn near_zero(&self) -> (b: bool)
        ensures
            b == self.spec_near_zero(),
    {
        let s: Fixed = Fixed::from_raw(NEAR_ZERO_RAW);
        proof {
            broadcast use Fixed::lemma_view_of;

        }
        self.x.abs().lt(s) && self.y.abs().lt(s) && self.z.abs().lt(s)
    }

    /// A vector with each component drawn from zero up to, and not including,
    /// one.
    pub fn random_vec() -> (v: Vec3)
        ensures
            v.is_unit_cube_draw(),
    {
        Vec3::new(random_double(), random_double(), random_double())
    }

    /// A vector with each component drawn from `min` up to, and not
    /// including, `max`.
    pub fn random_vec_range(min: Fixed, max: Fixed) -> (v: Vec3)
        ensures
            exists|units: Vec3|
                units.is_unit_cube_draw() && v == #[trigger] Vec3::spec_cube_point(min, max, units),
            min@ < max@ ==> v.is_cube_draw(min, max),
    {
        let units: Vec3 = Vec3::random_vec();
        proof {
            if min@ < max@ {
                lemma_range_point_bounds(min, max, units.x);
                lemma_range_point_bounds(min, max, units.y);
                lemma_range_point_bounds(min, max, units.z);
            }
        }
        Vec3::cube_point(min, max, &units)
    }

    /// The point of the cube from `min` to `max` that `units` names, each
    /// component by the way from `min` to `max`.
    pub fn cube_point(min: Fixed, max: Fixed, units: &Vec3) -> (v: Vec3)
        ensures
            v == Vec3::spec_cube_point(min, max, *units),
    {
        Vec3::new(
            range_point(min, max, units.x),
            range_point(min, max, units.y),
            range_point(min, max, units.z),
        )
    }

    /// The direction that a candidate `p` gives, if it gives one.
    pub fn unit_from_sample(p: &Vec3) -> (r: Option<Vec3>)
        ensures
            r == Vec3::spec_unit_from_sample(*p),
    {
        let lensq: Fixed = p.length_squared();
        if Fixed::zero().lt(lensq) && lensq.le(Fixed::one()) {
            Some(p.unit_vector())
        } else {
            None
        }
    }

    /// A direction drawn from the unit sphere. Candidates are drawn from the
    /// cube around it until one lies in the ball and is not too short to be
    /// scaled; after `SAMPLE_TRIES` candidates the unit vector along `x` is
    /// returned.
    pub fn random_unit_vector() -> (v: Vec3)
        ensures
            Vec3::is_unit_sample(v),
            is_within(v, SCALE as int),
    {
        let mut tries: u32 = 0;
        while tries < SAMPLE_TRIES
            invariant
                tries <= SAMPLE_TRIES,
            decreases SAMPLE_TRIES - tries,
        {
            let p: Vec3 = Vec3::random_vec_range(Fixed::one().negate(), Fixed::one());
            proof {
                broadcast use Fixed::lemma_view_of;

            }
            match Vec3::unit_from_sample(&p) {
                Some(v) => {
                    proof {
                        lemma_unit_sample_bounds(v);
                    }
                    return v;
                },
                None => {},
            }
            tries += 1;
        }
        let v: Vec3 = Vec3::new(Fixed::one(), Fixed::zero(), Fixed::zero());
        proof {
            lemma_unit_sample_bounds(v);
        }
        v
    }

    /// The point of the unit disk that a candidate `p` gives, if it gives one.
    pub fn disk_from_sample(p: &Vec3) -> (r: Option<Vec3>)
        ensures
            r == Vec3::spec_disk_from_sample(*p),
    {
        if p.length_squared().lt(Fixed::one()) {
            Some(*p)
        } else {
            None
        }
    }

    /// A point drawn from the unit disk in the plane `z = 0`. Candidates are
    /// drawn from the square around it until one lies in the disk; after
    /// `SAMPLE_TRIES` candidates the centre is returned.
    pub fn random_in_unit_disk() -> (v: Vec3)
        ensures
            Vec3::is_disk_sample(v),
    {
        proof {
            broadcast use Fixed::lemma_view_of;

        }
        let mut tries: u32 = 0;
        while tries < SAMPLE_TRIES
            invariant
                tries <= SAMPLE_TRIES,
            decreases SAMPLE_TRIES - tries,
        {
            let p: Vec3 = Vec3::new(
                random_double_range(Fixed::one().negate(), Fixed::one()),
                random_double_range(Fixed::one().negate(), Fixed::one()),
                Fixed::zero(),
            );
            proof {
                broadcast use Fixed::lemma_view_of;

            }
            match Vec3::disk_from_sample(&p) {
                Some(v) => {
                    return v;
                },
                None => {},
            }
            tries += 1;
        }
        proof {
            lemma_zero_length_squared();
        }
        Vec3::default()
    }

    /// `v` turned to the side of `normal`.
    pub fn toward(v: &Vec3, normal: &Vec3) -> (r: Vec3)
        ensures
            r == Vec3::spec_toward(*v, *normal),
    {
        if v.dot(normal).gt(Fixed::zero()) {
            *v
        } else {
            v.negate()
        }
    }

    /// A direction drawn from the half of the unit sphere on the side of
    /// `normal`.
    pub fn random_on_hemisphere(normal: &Vec3) -> (v: Vec3)
        ensures
            exists|u: Vec3| Vec3::is_unit_sample(u) && v == Vec3::spec_toward(u, *normal),
            v.spec_dot(*normal)@ >= 0,
    {
        let on_unit_sphere: Vec3 = Vec3::random_unit_vector();
        proof {
            lemma_toward_side(on_unit_sphere, *normal);
        }
        Vec3::toward(&on_unit_sphere, normal)
    }

    pub fn reflect(v: &Vec3, n: &Vec3) -> (r: Vec3)
        ensures
            r == Vec3::spec_reflect(*v, *n),
    {
        v.minus(n.scale(Fixed::from_int(2).times(v.dot(n))))
    }

    pub fn refract(uv: &Vec3, n: &Vec3, etai_over_etat: Fixed) -> (r: Vec3)
        ensures
            r == Vec3::spec_refract(*uv, *n, etai_over_etat),
    {
        let cos_theta: Fixed = uv.dot(n).negate().min(Fixed::one());
        let r_out_perp: Vec3 = uv.plus(n.scale(cos_theta)).scale(etai_over_etat);
        let r_out_parallel: Vec3 = n.scale(
            Fixed::one().minus(r_out_perp.length_squared()).abs().sqrt().negate(),
        );
        r_out_perp.plus(r_out_parallel)
    }

    pub fn length(&self) -> (r: Fixed)
        ensures
            r == self.spec_length(),
    {
        proof {
            broadcast use Fixed::lemma_view_range;

        }
        let a: u128 = square_raw(self.x.raw());
        let b: u128 = square_raw(self.y.raw());
        let c: u128 = square_raw(self.z.raw());
        let root: u128 = isqrt(a + b + c);
        proof {
            Fixed::lemma_of_saturate(root as int);
        }
        if root > RAW_MAX as u128 {
            Fixed::max_value()
        } else {
            Fixed::from_raw(root as i64)
        }
    }

    pub fn add_assign(&mut self, rhs: Vec3)
        ensures
            *final(self) == old(self).spec_add(rhs),
    {
        *self = self.plus(rhs);
    }

    pub fn mul_assign(&mut self, rhs: Fixed)
        ensures
            *final(self) == old(self).spec_scale(rhs),
    {
        *self = self.scale(rhs);
    }

    pub fn div_assign(&mut self, rhs: Fixed)
        ensures
            *final(self) == old(self).spec_div(rhs),
    {
        *self = self.over(rhs);
    }

    /// Component `index`: 0 for `x`, 1 for `y`, 2 for `z`.
    pub fn index(&self, index: usize) -> (r: Fixed)
        requires
            index < 3,
        ensures
            r == self.spec_index(index as int),
    {
        if index == 0 {
            self.x
        } else if index == 1 {
            self.y
        } else {
            self.z
        }
    }

    /// A mutable borrow of component `index`.
    pub fn index_mut(&mut self, index: usize) -> (r: &mut Fixed)
        requires
            index < 3,
        ensures
            *r == old(self).spec_index(index as int),
            *final(self) == old(self).spec_with(index as int, *final(r)),
    {
        if index == 0 {
            &mut self.x
        } else if index == 1 {
            &mut self.y
        } else {
            &mut self.z
        }
    }
}

/// The square of a raw value.
fn square_raw(v: i64) -> (r: u128)
    requires
        v as int >= -(RAW_MAX as int),
    ensures
        r as int == v * v,
        r <= 0x7fff_ffff_ffff_ffff * 0x7fff_ffff_ffff_ffff,
{
    let m: u128 = if v < 0 {
        (-v) as u128
    } else {
        v as u128
    };
    assert(m * m == v * v && m * m <= 0x7fff_ffff_ffff_ffff * 0x7fff_ffff_ffff_ffff)
        by (nonlinear_arith)
        requires
            m == v || m == -v,
            0 <= m <= 0x7fff_ffff_ffff_ffff,
    ;
    m * m
}

impl Default for Vec3 {
    fn default() -> (v: Vec3)
        ensures
            v == Vec3::spec_zero(),
    {
        Vec3::new(Fixed::zero(), Fixed::zero(), Fixed::zero())
    }
}

impl core::ops::Neg for Vec3 {
    type Output = Vec3;

    fn neg(self) -> (r: Vec3)
        ensures
            r == self.spec_neg(),
    {
        self.negate()
    }
}

impl vstd::std_specs::ops::NegSpecImpl for Vec3 {
    open spec fn obeys_neg_spec() -> bool {
        true
    }

    open spec fn neg_req(self) -> bool {
        true
    }

    open spec fn neg_spec(self) -> Vec3 {
        self.spec_neg()
    }
}

impl core::ops::Add for Vec3 {
    type Output = Vec3;

    fn add(self, rhs: Vec3) -> (r: Vec3)
        ensures
            r == self.spec_add(rhs),
    {
        self.plus(rhs)
    }
}

impl vstd::std_specs::ops::AddSpecImpl for Vec3 {
    open spec fn obeys_add_spec() -> bool {
        true
    }

    open spec fn add_req(self, rhs: Vec3) -> bool {
        true
    }

    open spec fn add_spec(self, rhs: Vec3) -> Vec3 {
        self.spec_add(rhs)
    }
}

impl core::ops::Sub for Vec3 {
    type Output = Vec3;

    fn sub(self, rhs: Vec3) -> (r: Vec3)
        ensures
            r == self.spec_sub(rhs),
    {
        self.minus(rhs)
    }
}

impl vstd::std_specs::ops::SubSpecImpl for Vec3 {
    open spec fn obeys_sub_spec() -> bool {
        true
    }

    open spec fn sub_req(self, rhs: Vec3) -> bool {
        true
    }

    open spec fn sub_spec(self, rhs: Vec3) -> Vec3 {
        self.spec_sub(rhs)
    }
}

impl core::ops::Mul for Vec3 {
    type Output = Vec3;

    fn mul(self, rhs: Vec3) -> (r: Vec3)
        ensures
            r == self.spec_mul(rhs),
    {
        self.times(rhs)
    }
}

impl vstd::std_specs::ops::MulSpecImpl for Vec3 {
    open spec fn obeys_mul_spec() -> bool {
        true
    }

    open spec fn mul_req(self, rhs: Vec3) -> bool {
        true
    }

    open spec fn mul_spec(self, rhs: Vec3) -> Vec3 {
        self.spec_mul(rhs)
    }
}

impl core::ops::Mul<Fixed> for Vec3 {
    type Output = Vec3;

    fn mul(self, rhs: Fixed) -> (r: Vec3)
        ensures
            r == self.spec_scale(rhs),
    {
        self.scale(rhs)
    }
}

impl vstd::std_specs::ops::MulSpecImpl<Fixed> for Vec3 {
    open spec fn obeys_mul_spec() -> bool {
        true
    }

    open spec fn mul_req(self, rhs: Fixed) -> bool {
        true
    }

    open spec fn mul_spec(self, rhs: Fixed) -> Vec3 {
        self.spec_scale(rhs)
    }
}

impl core::ops::Mul<Vec3> for Fixed {
    type Output = Vec3;

    fn mul(self, rhs: Vec3) -> (r: Vec3)
        ensures
            r == rhs.spec_scale(self),
    {
        rhs.scale(self)
    }
}

impl vstd::std_specs::ops::MulSpecImpl<Vec3> for Fixed {
    open spec fn obeys_mul_spec() -> bool {
        true
    }

    open spec fn mul_req(self, rhs: Vec3) -> bool {
        true
    }

    open spec fn mul_spec(self, rhs: Vec3) -> Vec3 {
        rhs.spec_scale(self)
    }
}

impl core::ops::Div<Fixed> for Vec3 {
    type Output = Vec3;

    fn div(self, rhs: Fixed) -> (r: Vec3)
        ensures
            r == self.spec_div(rhs),
    {
        self.over(rhs)
    }
}

impl vstd::std_specs::ops::DivSpecImpl<Fixed> for Vec3 {
    open spec fn obeys_div_spec() -> bool {
        true
    }

    open spec fn div_req(self, rhs: Fixed) -> bool {
        true
    }

    open spec fn div_spec(self, rhs: Fixed) -> Vec3 {
        self.spec_div(rhs)
    }
}

/// The squared length of the zero vector is zero.
pub proof fn lemma_zero_length_squared()
    ensures
        Vec3::spec_zero().spec_length_squared()@ == 0,
{
    broadcast use Fixed::lemma_view_of;

    assert(trunc_div(0int * 0int, SCALE as int) == 0) by (nonlinear_arith)
        requires
            SCALE as int == 1_000_000_000,
    ;
}

/// A vector with a length has a unit vector with a squared length: however
/// short the vector, scaling it to unit length leaves a squared length of at
/// least a quarter and at most three.
pub proof fn lemma_unit_length_squared_positive(v: Vec3)
    requires
        v.spec_length()@ != 0,
    ensures
        v.spec_length()@ > 0,
        SCALE as int / 4 <= v.spec_unit_vector().spec_length_squared()@ <= 3 * SCALE as int,
{
    broadcast use {Fixed::lemma_view_of, Fixed::lemma_view_range};

    let s = SCALE as int;
    let (x, y, z) = (magnitude(v.x@), magnitude(v.y@), magnitude(v.z@));
    let n = v.raw_norm_squared();
    let len = v.spec_length();
    let u = v.spec_unit_vector();
    lemma_unit_vector_bounds(v);
    assert(n == x * x + y * y + z * z && n >= 0) by (nonlinear_arith)
        requires
            n == v.x@ * v.x@ + v.y@ * v.y@ + v.z@ * v.z@,
            x == magnitude(v.x@),
            y == magnitude(v.y@),
            z == magnitude(v.z@),
    ;
    crate::fixed::lemma_int_sqrt_exists(n);
    let root = int_sqrt(n);
    assert(0 < len@ <= root);
    // The largest component is at least half the length.
    let m = if x >= y && x >= z {
        x
    } else if y >= z {
        y
    } else {
        z
    };
    assert(root <= 2 * m) by (nonlinear_arith)
        requires
            root >= 0,
            root * root <= n,
            n == x * x + y * y + z * z,
            0 <= x <= m,
            0 <= y <= m,
            0 <= z <= m,
    ;
    lemma_mul_unit_magnitude(u.x, u.x);
    lemma_mul_unit_magnitude(u.y, u.y);
    lemma_mul_unit_magnitude(u.z, u.z);
    assert(u.x@ * u.x@ >= 0 && u.y@ * u.y@ >= 0 && u.z@ * u.z@ >= 0) by (nonlinear_arith);
    lemma_trunc_div_bounds(u.x@ * u.x@, s);
    lemma_trunc_div_bounds(u.y@ * u.y@, s);
    lemma_trunc_div_bounds(u.z@ * u.z@, s);
    if x == m {
        lemma_square_of_large_share(v.x, len);
    } else if y == m {
        lemma_square_of_large_share(v.y, len);
    } else {
        lemma_square_of_large_share(v.z, len);
    }
}

/// Negating one vector of a dot product negates the product exactly.
pub proof fn lemma_dot_neg(a: Vec3, b: Vec3)
    ensures
        a.spec_dot(b.spec_neg())@ == -a.spec_dot(b)@,
        a.spec_neg().spec_dot(b)@ == -a.spec_dot(b)@,
{
    broadcast use {Fixed::lemma_view_of, Fixed::lemma_view_range};

    lemma_mul_neg(a.x, b.x);
    lemma_mul_neg(a.y, b.y);
    lemma_mul_neg(a.z, b.z);
}

/// No component of a vector that the unit sampler gives exceeds one in
/// magnitude.
pub proof fn lemma_unit_sample_bounds(v: Vec3)
    requires
        Vec3::is_unit_sample(v),
    ensures
        is_within(v, SCALE as int),
{
    broadcast use Fixed::lemma_view_of;

    if v != Vec3::spec_unit_x() {
        let p = choose|p: Vec3|
            p.is_cube_draw(Fixed::spec_one().spec_neg(), Fixed::spec_one())
                && #[trigger] Vec3::spec_unit_from_sample(p) == Some(v);
        lemma_unit_vector_bounds(p);
    }
}

/// The largest magnitude, in raw units, of the components of a vector whose
/// reflection is computed without saturation: four hundred million.
pub const REFLECT_RAW_MAX: i64 = 400_000_000_000_000_000;

/// Whether no component of `v` exceeds `bound` raw units in magnitude.
pub open spec fn is_within(v: Vec3, bound: int) -> bool {
    magnitude(v.x@) <= bound && magnitude(v.y@) <= bound && magnitude(v.z@) <= bound
}

/// The arithmetic of a reflection, on whole numbers. With `s` raw units per
/// whole, `d` is the dot product of `v` and `n` summed from the rounded
/// products `dx`, `dy`, `dz`; `m` is `n` scaled by twice `d`, rounded; and
/// `e` is the dot product of `v - m` and `n`, summed from the rounded
/// products `ex`, `ey`, `ez`. Every rounding is off by less than one unit.
proof fn lemma_reflect_rounding(
    s: int,
    slack: int,
    v: (int, int, int),
    n: (int, int, int),
    d: (int, int, int),
    m: (int, int, int),
    e: (int, int, int),
)
    requires
        s > 0,
        slack >= 0,
        magnitude(n.0) <= s && magnitude(n.1) <= s && magnitude(n.2) <= s,
        magnitude(n.0 * n.0 + n.1 * n.1 + n.2 * n.2 - s * s) <= slack * s,
        -s < v.0 * n.0 - s * d.0 < s,
        -s < v.1 * n.1 - s * d.1 < s,
        -s < v.2 * n.2 - s * d.2 < s,
        -s < n.0 * (2 * (d.0 + d.1 + d.2)) - s * m.0 < s,
        -s < n.1 * (2 * (d.0 + d.1 + d.2)) - s * m.1 < s,
        -s < n.2 * (2 * (d.0 + d.1 + d.2)) - s * m.2 < s,
        -s < (v.0 - m.0) * n.0 - s * e.0 < s,
        -s < (v.1 - m.1) * n.1 - s * e.1 < s,
        -s < (v.2 - m.2) * n.2 - s * e.2 < s,
    ensures
        s * magnitude((e.0 + e.1 + e.2) + (d.0 + d.1 + d.2)) <= 2 * slack * magnitude(
            d.0 + d.1 + d.2,
        ) + 9 * s,
{
    let dd = d.0 + d.1 + d.2;
    let ee = e.0 + e.1 + e.2;
    let q = n.0 * n.0 + n.1 * n.1 + n.2 * n.2;
    // What the roundings of the three stages leave over.
    let a = (v.0 * n.0 - s * d.0) + (v.1 * n.1 - s * d.1) + (v.2 * n.2 - s * d.2);
    let b0 = n.0 * (2 * dd) - s * m.0;
    let b1 = n.1 * (2 * dd) - s * m.1;
    let b2 = n.2 * (2 * dd) - s * m.2;
    let c = ((v.0 - m.0) * n.0 - s * e.0) + ((v.1 - m.1) * n.1 - s * e.1) + ((v.2 - m.2) * n.2 - s
        * e.2);
    let b = b0 * n.0 + b1 * n.1 + b2 * n.2;
    let turn = 2 * dd * (s * s - q);
    lemma_reflect_component(s, 2 * dd, v.0, n.0, d.0, m.0, e.0);
    lemma_reflect_component(s, 2 * dd, v.1, n.1, d.1, m.1, e.1);
    lemma_reflect_component(s, 2 * dd, v.2, n.2, d.2, m.2, e.2);
    assert(s * (s * (ee + dd)) == s * (s * e.0) + s * (s * e.1) + s * (s * e.2) + s * (s * d.0) + s
        * (s * d.1) + s * (s * d.2)) by (nonlinear_arith)
        requires
            ee == e.0 + e.1 + e.2,
            dd == d.0 + d.1 + d.2,
    ;
    assert(turn == 2 * (s * (s * d.0)) + 2 * (s * (s * d.1)) + 2 * (s * (s * d.2)) - (2 * dd) * (
    n.0 * n.0) - (2 * dd) * (n.1 * n.1) - (2 * dd) * (n.2 * n.2)) by (nonlinear_arith)
        requires
            turn == 2 * dd * (s * s - q),
            q == n.0 * n.0 + n.1 * n.1 + n.2 * n.2,
            dd == d.0 + d.1 + d.2,
    ;
    assert(s * a == s * (v.0 * n.0 - s * d.0) + s * (v.1 * n.1 - s * d.1) + s * (v.2 * n.2 - s
        * d.2) && s * c == s * ((v.0 - m.0) * n.0 - s * e.0) + s * ((v.1 - m.1) * n.1 - s * e.1)
        + s * ((v.2 - m.2) * n.2 - s * e.2)) by (nonlinear_arith)
        requires
            a == (v.0 * n.0 - s * d.0) + (v.1 * n.1 - s * d.1) + (v.2 * n.2 - s * d.2),
            c == ((v.0 - m.0) * n.0 - s * e.0) + ((v.1 - m.1) * n.1 - s * e.1) + ((v.2 - m.2) * n.2
                - s * e.2),
    ;
    assert(s * (s * (ee + dd)) == turn + s * a + b - s * c);
    assert(magnitude(b0 * n.0) <= s * s && magnitude(b1 * n.1) <= s * s && magnitude(b2 * n.2) <= s
        * s) by (nonlinear_arith)
        requires
            -s < b0 < s,
            -s < b1 < s,
            -s < b2 < s,
            magnitude(n.0) <= s && magnitude(n.1) <= s && magnitude(n.2) <= s,
    ;
    assert(magnitude(s * a) <= 3 * (s * s) && magnitude(s * c) <= 3 * (s * s)) by (nonlinear_arith)
        requires
            s > 0,
            -3 * s < a < 3 * s,
            -3 * s < c < 3 * s,
    ;
    assert(magnitude(turn) <= 2 * slack * magnitude(dd) * s) by (nonlinear_arith)
        requires
            turn == 2 * dd * (s * s - q),
            magnitude(q - s * s) <= slack * s,
            slack >= 0,
            s > 0,
    ;
    let whole = s * (ee + dd);
    let room = 2 * slack * magnitude(dd) + 9 * s;
    assert(magnitude(s * whole) <= room * s) by (nonlinear_arith)
        requires
            s * whole == turn + s * a + b - s * c,
            b == b0 * n.0 + b1 * n.1 + b2 * n.2,
            magnitude(b0 * n.0) <= s * s && magnitude(b1 * n.1) <= s * s && magnitude(b2 * n.2)
                <= s * s,
            magnitude(s * a) <= 3 * (s * s) && magnitude(s * c) <= 3 * (s * s),
            magnitude(turn) <= 2 * slack * magnitude(dd) * s,
            room == 2 * slack * magnitude(dd) + 9 * s,
    ;
    assert(magnitude(whole) <= room) by (nonlinear_arith)
        requires
            magnitude(s * whole) <= room * s,
            s > 0,
    ;
    assert(magnitude(whole) == s * magnitude(ee + dd)) by (nonlinear_arith)
        requires
            whole == s * (ee + dd),
            s > 0,
    ;
}

/// One component of the arithmetic of a reflection: what the rounded product
/// `e` holds, counted in squares of `s`.
proof fn lemma_reflect_component(s: int, t: int, v: int, n: int, d: int, m: int, e: int)
    by (nonlinear_arith)
    ensures
        s * (s * e) == s * (s * d) + s * (v * n - s * d) - t * (n * n) + (n * t - s * m) * n - s
            * ((v - m) * n - s * e),
{
}

/// Whether the reflection of `v` at a plane with normal `n`, and the dot
/// product of the reflected vector with `n`, are computed without leaving the
/// range of numbers: no sum, no doubling and no difference on the way is
/// saturated. The products are not, where no component of `n` exceeds one.
pub open spec fn reflects_in_range(v: Vec3, n: Vec3) -> bool {
    let d = (v.x.spec_mul(n.x), v.y.spec_mul(n.y), v.z.spec_mul(n.z));
    let m = n.spec_scale(Fixed::spec_from_int(2).spec_mul(v.spec_dot(n)));
    let r = Vec3::spec_reflect(v, n);
    let e = (r.x.spec_mul(n.x), r.y.spec_mul(n.y), r.z.spec_mul(n.z));
    &&& magnitude(d.0@ + d.1@) <= RAW_MAX as int
    &&& 2 * magnitude(d.0@ + d.1@ + d.2@) <= RAW_MAX as int
    &&& magnitude(v.x@ - m.x@) <= RAW_MAX as int
    &&& magnitude(v.y@ - m.y@) <= RAW_MAX as int
    &&& magnitude(v.z@ - m.z@) <= RAW_MAX as int
    &&& magnitude(e.0@ + e.1@) <= RAW_MAX as int
    &&& magnitude(e.0@ + e.1@ + e.2@) <= RAW_MAX as int
}

/// A vector whose components are at most `REFLECT_RAW_MAX` is reflected
/// without leaving the range of numbers.
pub proof fn lemma_bounded_reflects_in_range(v: Vec3, n: Vec3)
    requires
        is_within(v, REFLECT_RAW_MAX as int),
        is_within(n, SCALE as int),
    ensures
        reflects_in_range(v, n),
{
    let bound = REFLECT_RAW_MAX as int;
    lemma_mul_by_unit(v.x, n.x);
    lemma_mul_by_unit(v.y, n.y);
    lemma_mul_by_unit(v.z, n.z);
    let d = (v.x.spec_mul(n.x), v.y.spec_mul(n.y), v.z.spec_mul(n.z));
    lemma_add_exact(d.0, d.1);
    lemma_add_exact(d.0.spec_add(d.1), d.2);
    let dot = v.spec_dot(n);
    assert(dot@ == d.0@ + d.1@ + d.2@ && magnitude(dot@) <= 3 * bound);
    lemma_double(dot);
    let twice = Fixed::spec_from_int(2).spec_mul(dot);
    lemma_mul_by_unit(twice, n.x);
    lemma_mul_by_unit(twice, n.y);
    lemma_mul_by_unit(twice, n.z);
    let m = n.spec_scale(twice);
    assert(magnitude(m.x@) <= 6 * bound && magnitude(m.y@) <= 6 * bound && magnitude(m.z@) <= 6
        * bound);
    let r = Vec3::spec_reflect(v, n);
    assert(r == v.spec_sub(m));
    lemma_sub_exact(v.x, m.x);
    lemma_sub_exact(v.y, m.y);
    lemma_sub_exact(v.z, m.z);
    lemma_mul_by_unit(r.x, n.x);
    lemma_mul_by_unit(r.y, n.y);
    lemma_mul_by_unit(r.z, n.z);
    let e = (r.x.spec_mul(n.x), r.y.spec_mul(n.y), r.z.spec_mul(n.z));
    assert(magnitude(e.0@) <= 7 * bound && magnitude(e.1@) <= 7 * bound && magnitude(e.2@) <= 7
        * bound);
}

/// Reflection flips the part of a vector along the normal, within rounding.
/// For a normal `n` whose components are at most one in magnitude and whose
/// squared length misses one by at most `slack` billionths, and for every
/// vector `v` that is reflected without leaving the range of numbers, the
/// dot product of the reflected vector with `n` misses the negated dot
/// product of `v` with `n` by at most nine billionths, and `2 slack`
/// billionths of that dot product.
pub proof fn lemma_reflect_flips_normal_part(v: Vec3, n: Vec3, slack: int)
    requires
        slack >= 0,
        is_within(n, SCALE as int),
        reflects_in_range(v, n),
        magnitude(n.raw_norm_squared() - SCALE as int * SCALE as int) <= slack * SCALE as int,
    ensures
        SCALE as int * magnitude(Vec3::spec_reflect(v, n).spec_dot(n)@ + v.spec_dot(n)@) <= 2
            * slack * magnitude(v.spec_dot(n)@) + 9 * SCALE as int,
{
    let s = SCALE as int;
    // The dot product of `v` and `n`.
    lemma_mul_by_unit(v.x, n.x);
    lemma_mul_by_unit(v.y, n.y);
    lemma_mul_by_unit(v.z, n.z);
    let d = (v.x.spec_mul(n.x), v.y.spec_mul(n.y), v.z.spec_mul(n.z));
    lemma_add_exact(d.0, d.1);
    lemma_add_exact(d.0.spec_add(d.1), d.2);
    let dot = v.spec_dot(n);
    assert(dot@ == d.0@ + d.1@ + d.2@);
    // `n` scaled by twice the dot product.
    lemma_double(dot);
    let twice = Fixed::spec_from_int(2).spec_mul(dot);
    lemma_mul_by_unit(twice, n.x);
    lemma_mul_by_unit(twice, n.y);
    lemma_mul_by_unit(twice, n.z);
    let m = n.spec_scale(twice);
    assert(twice@ * n.x@ == n.x@ * (2 * (d.0@ + d.1@ + d.2@)) && twice@ * n.y@ == n.y@ * (2 * (d.0@
        + d.1@ + d.2@)) && twice@ * n.z@ == n.z@ * (2 * (d.0@ + d.1@ + d.2@))) by (nonlinear_arith)
        requires
            twice@ == 2 * (d.0@ + d.1@ + d.2@),
    ;
    // The reflected vector and its dot product with `n`.
    let r = Vec3::spec_reflect(v, n);
    assert(r == v.spec_sub(m));
    lemma_sub_exact(v.x, m.x);
    lemma_sub_exact(v.y, m.y);
    lemma_sub_exact(v.z, m.z);
    assert(r.x@ == v.x@ - m.x@ && r.y@ == v.y@ - m.y@ && r.z@ == v.z@ - m.z@);
    lemma_mul_by_unit(r.x, n.x);
    lemma_mul_by_unit(r.y, n.y);
    lemma_mul_by_unit(r.z, n.z);
    assert(r.x@ * n.x@ == (v.x@ - m.x@) * n.x@ && r.y@ * n.y@ == (v.y@ - m.y@) * n.y@ && r.z@
        * n.z@ == (v.z@ - m.z@) * n.z@) by (nonlinear_arith)
        requires
            r.x@ == v.x@ - m.x@ && r.y@ == v.y@ - m.y@ && r.z@ == v.z@ - m.z@,
    ;
    let e = (r.x.spec_mul(n.x), r.y.spec_mul(n.y), r.z.spec_mul(n.z));
    lemma_add_exact(e.0, e.1);
    lemma_add_exact(e.0.spec_add(e.1), e.2);
    assert(r.spec_dot(n)@ == e.0@ + e.1@ + e.2@);
    lemma_reflect_rounding(
        s,
        slack,
        (v.x@, v.y@, v.z@),
        (n.x@, n.y@, n.z@),
        (d.0@, d.1@, d.2@),
        (m.x@, m.y@, m.z@),
        (e.0@, e.1@, e.2@),
    );
}

/// Reflection at a plane across an axis flips the part of a vector along
/// that axis exactly: for a normal `n` with one component of magnitude one
/// and the others zero, the dot product of the reflected vector with `n` is
/// the negated dot product of `v` with `n`, for every vector `v` whose part
/// along the axis can be doubled without leaving the range of numbers.
pub proof fn lemma_reflect_flips_axis_part(v: Vec3, n: Vec3)
    requires
        2 * magnitude(v.spec_dot(n)@) <= RAW_MAX as int,
        magnitude(n.x@) + magnitude(n.y@) + magnitude(n.z@) == SCALE as int,
        magnitude(n.x@) == SCALE as int || magnitude(n.y@) == SCALE as int || magnitude(n.z@)
            == SCALE as int,
    ensures
        Vec3::spec_reflect(v, n).spec_dot(n)@ == -v.spec_dot(n)@,
{
    broadcast use {Fixed::lemma_view_of, Fixed::lemma_view_range};

    let dot = v.spec_dot(n);
    let twice = Fixed::spec_from_int(2).spec_mul(dot);
    let mirror = n.spec_scale(twice);
    let r = Vec3::spec_reflect(v, n);
    lemma_mul_axis(v.x, n.x);
    lemma_mul_axis(v.y, n.y);
    lemma_mul_axis(v.z, n.z);
    lemma_double(dot);
    lemma_mul_axis(twice, n.x);
    lemma_mul_axis(twice, n.y);
    lemma_mul_axis(twice, n.z);
    assert(r == v.spec_sub(mirror));
    lemma_mul_axis(r.x, n.x);
    lemma_mul_axis(r.y, n.y);
    lemma_mul_axis(r.z, n.z);
}

/// A vector turned to the side of a normal has no negative dot product with
/// it.
pub proof fn lemma_toward_side(v: Vec3, normal: Vec3)
    ensures
        Vec3::spec_toward(v, normal).spec_dot(normal)@ >= 0,
{
    lemma_dot_neg(v, normal);
}

/// No component of a vector exceeds its length, and no component of a unit
/// vector exceeds one in magnitude.
pub proof fn lemma_unit_vector_bounds(v: Vec3)
    ensures
        magnitude(v.x@) <= v.spec_length()@,
        magnitude(v.y@) <= v.spec_length()@,
        magnitude(v.z@) <= v.spec_length()@,
        -(SCALE as int) <= v.spec_unit_vector().x@ <= SCALE as int,
        -(SCALE as int) <= v.spec_unit_vector().y@ <= SCALE as int,
        -(SCALE as int) <= v.spec_unit_vector().z@ <= SCALE as int,
{
    broadcast use {Fixed::lemma_view_of, Fixed::lemma_view_range};

    let n = v.raw_norm_squared();
    let (x, y, z) = (v.x@, v.y@, v.z@);
    assert(x * x >= 0 && y * y >= 0 && z * z >= 0 && magnitude(x) * magnitude(x) == x * x
        && magnitude(y) * magnitude(y) == y * y && magnitude(z) * magnitude(z) == z * z)
        by (nonlinear_arith);
    lemma_int_sqrt_square(magnitude(x));
    lemma_int_sqrt_square(magnitude(y));
    lemma_int_sqrt_square(magnitude(z));
    lemma_int_sqrt_monotone(x * x, n);
    lemma_int_sqrt_monotone(y * y, n);
    lemma_int_sqrt_monotone(z * z, n);
    let len = v.spec_length();
    lemma_div_at_most_one(v.x, len);
    lemma_div_at_most_one(v.y, len);
    lemma_div_at_most_one(v.z, len);
}

} // verus!
