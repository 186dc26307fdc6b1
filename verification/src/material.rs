//! Surface materials: how a ray that hits a surface goes on.

use crate::fixed::{Fixed, SCALE};
use crate::hittable::HitRecord;
use crate::ray::Ray;
use crate::vec3::{Color, Vec3};
use crate::{is_unit_draw, random_double};
use vstd::prelude::*;

verus! {

/// A material decides whether a ray that hits it is absorbed or scattered,
/// and which colour the scattered ray is filtered by.
pub trait Material: Send + Sync {
    /// Whether the material gives back no more light than it gets: no channel
    /// of its filter colour is below zero or above one.
    spec fn is_non_emissive(&self) -> bool;

    /// Whether `out` is a way for the ray `r_in`, which hit as `rec` records,
    /// to go on: `None` where it is absorbed, else the filter colour and the
    /// scattered ray.
    spec fn spec_scatters(&self, r_in: Ray, rec: HitRecord, out: Option<(Color, Ray)>) -> bool;

    /// Scatters or absorbs the ray `r_in`, which hit as `rec` records.
    fn scatter(&self, r_in: &Ray, rec: &HitRecord) -> (out: Option<(Color, Ray)>)
        ensures
            self.spec_scatters(*r_in, *rec, out),
    ;

    /// A material that is not emissive filters by a colour in the unit cube.
    proof fn lemma_filter_in_unit_cube(
        &self,
        r_in: Ray,
        rec: HitRecord,
        out: Option<(Color, Ray)>,
    )
        requires
            self.is_non_emissive(),
            self.spec_scatters(r_in, rec, out),
        ensures
            out matches Some(pair) ==> pair.0.in_unit_cube(),
    ;
}

/// A matte material: it scatters every ray, about the normal.
#[derive(Clone, Copy, Debug, PartialEq, Eq, Structural)]
pub struct Lambertian {
    /// The share of each colour channel that is given back.
    pub albedo: Color,
}

impl Lambertian {
    /// The filter colour and the scattered ray for the unit vector `sample`:
    /// the ray leaves the hit point along the normal plus `sample`, or along
    /// the normal alone where the two all but cancel.
    pub open spec fn spec_scatter_with(self, rec: HitRecord, sample: Vec3) -> (Color, Ray) {
        let candidate = rec.normal.spec_add(sample);
        let direction = if candidate.spec_near_zero() {
            rec.normal
        } else {
            candidate
        };
        (self.albedo, Ray { origin: rec.p, direction })
    }

    /// Whether no channel of the albedo is below zero or above one.
    pub open spec fn spec_non_emissive(self) -> bool {
        self.albedo.in_unit_cube()
    }

    /// Whether `out` is a way for a ray that hit as `rec` records to go on:
    /// it is always scattered, and filtered by the albedo, for some unit
    /// vector that the sampler can give.
    pub open spec fn spec_outcome(self, rec: HitRecord, out: Option<(Color, Ray)>) -> bool {
        exists|sample: Vec3|
            Vec3::is_unit_sample(sample) && out == Some(
                #[trigger] self.spec_scatter_with(rec, sample),
            )
    }

    pub fn new(albedo: Color) -> (m: Lambertian)
        ensures
            m == (Lambertian { albedo }),
    {
        Lambertian { albedo }
    }

    /// The filter colour and the scattered ray for the unit vector `sample`.
    pub fn scatter_with(&self, rec: &HitRecord, sample: &Vec3) -> (out: (Color, Ray))
        ensures
            out == self.spec_scatter_with(*rec, *sample),
    {
        let mut scatter_direction: Vec3 = rec.normal.plus(*sample);
        if scatter_direction.near_zero() {
            scatter_direction = rec.normal;
        }
        (self.albedo, Ray::new(rec.p, scatter_direction))
    }

    /// The filter colour and the scattered ray for a unit vector drawn by the
    /// sampler.
    pub fn scatter_at_random(&self, rec: &HitRecord) -> (out: (Color, Ray))
        ensures
            self.spec_outcome(*rec, Some(out)),
    {
        let sample: Vec3 = Vec3::random_unit_vector();
        self.scatter_with(rec, &sample)
    }
}

impl Material for Lambertian {
    open spec fn is_non_emissive(&self) -> bool {
        self.spec_non_emissive()
    }

    open spec fn spec_scatters(&self, r_in: Ray, rec: HitRecord, out: Option<(Color, Ray)>) -> bool {
        self.spec_outcome(rec, out)
    }

    fn scatter(&self, r_in: &Ray, rec: &HitRecord) -> (out: Option<(Color, Ray)>) {
        Some(self.scatter_at_random(rec))
    }

    proof fn lemma_filter_in_unit_cube(
        &self,
        r_in: Ray,
        rec: HitRecord,
        out: Option<(Color, Ray)>,
    ) {
    }
}

/// A mirror, polished or brushed.
#[derive(Clone, Copy, Debug, PartialEq, Eq, Structural)]
pub struct Metal {
    /// The share of each colour channel that is given back.
    pub albedo: Color,
    /// How far the reflection strays from the mirror direction, from zero to
    /// one.
    pub fuzz: Fixed,
}

impl Metal {
    /// `f` brought into the range from zero to one.
    pub open spec fn spec_fuzz(f: Fixed) -> Fixed {
        f.spec_max(Fixed::spec_zero()).spec_min(Fixed::spec_one())
    }

    /// The direction in which the ray leaves for the unit vector `sample`:
    /// the mirror image of the unit incoming direction, moved by `fuzz` times
    /// `sample`.
    pub open spec fn spec_direction(self, r_in: Ray, rec: HitRecord, sample: Vec3) -> Vec3 {
        Vec3::spec_reflect(r_in.direction.spec_unit_vector(), rec.normal).spec_add(
            sample.spec_scale(self.fuzz),
        )
    }

    /// The filter colour and the scattered ray for the unit vector `sample`,
    /// or none where the ray would leave into the surface.
    pub open spec fn spec_scatter_with(self, r_in: Ray, rec: HitRecord, sample: Vec3) -> Option<
        (Color, Ray),
    > {
        let direction = self.spec_direction(r_in, rec, sample);
        if direction.spec_dot(rec.normal)@ > 0 {
            Some((self.albedo, Ray { origin: rec.p, direction }))
        } else {
            None
        }
    }

    /// Whether no channel of the albedo is below zero or above one.
    pub open spec fn spec_non_emissive(self) -> bool {
        self.albedo.in_unit_cube()
    }

    /// Whether `out` is a way for the ray `r_in`, which hit as `rec` records,
    /// to go on: it is scattered away from the surface and filtered by the
    /// albedo, or absorbed, for some unit vector that the sampler can give.
    pub open spec fn spec_outcome(self, r_in: Ray, rec: HitRecord, out: Option<(Color, Ray)>) -> bool {
        exists|sample: Vec3|
            Vec3::is_unit_sample(sample) && out == #[trigger] self.spec_scatter_with(
                r_in,
                rec,
                sample,
            )
    }

    /// A metal with the given albedo, and with the fuzz `f` brought into the
    /// range from zero to one.
    pub fn new(albedo: Color, f: Fixed) -> (m: Metal)
        ensures
            m == (Metal { albedo, fuzz: Metal::spec_fuzz(f) }),
            0 <= m.fuzz@ <= SCALE as int,
    {
        Metal { albedo, fuzz: f.max(Fixed::zero()).min(Fixed::one()) }
    }

    /// The filter colour and the scattered ray for the unit vector `sample`,
    /// or none where the ray is absorbed.
    pub fn scatter_with(&self, r_in: &Ray, rec: &HitRecord, sample: &Vec3) -> (out: Option<
        (Color, Ray),
    >)
        ensures
            out == self.spec_scatter_with(*r_in, *rec, *sample),
    {
        let reflected: Vec3 = Vec3::reflect(&r_in.direction().unit_vector(), &rec.normal);
        let scattered: Ray = Ray::new(rec.p, reflected.plus(sample.scale(self.fuzz)));
        if scattered.direction().dot(&rec.normal).gt(Fixed::zero()) {
            Some((self.albedo, scattered))
        } else {
            None
        }
    }

    /// The filter colour and the scattered ray, or none, for a unit vector
    /// drawn by the sampler.
    pub fn scatter_at_random(&self, r_in: &Ray, rec: &HitRecord) -> (out: Option<(Color, Ray)>)
        ensures
            self.spec_outcome(*r_in, *rec, out),
    {
        let sample: Vec3 = Vec3::random_unit_vector();
        self.scatter_with(r_in, rec, &sample)
    }
}

impl Material for Metal {
    open spec fn is_non_emissive(&self) -> bool {
        self.spec_non_emissive()
    }

    open spec fn spec_scatters(&self, r_in: Ray, rec: HitRecord, out: Option<(Color, Ray)>) -> bool {
        self.spec_outcome(r_in, rec, out)
    }

    fn scatter(&self, r_in: &Ray, rec: &HitRecord) -> (out: Option<(Color, Ray)>) {
        self.scatter_at_random(r_in, rec)
    }

    proof fn lemma_filter_in_unit_cube(
        &self,
        r_in: Ray,
        rec: HitRecord,
        out: Option<(Color, Ray)>,
    ) {
    }
}

/// A clear material such as glass: it reflects or refracts every ray.
#[derive(Clone, Copy, Debug, PartialEq, Eq, Structural)]
pub struct Dielectric {
    /// The refractive index of the material over that of its surroundings.
    pub refraction_index: Fixed,
}

impl Dielectric {
    /// The fifth power of `x`, by way of its square and fourth power.
    pub open spec fn spec_pow5(x: Fixed) -> Fixed {
        let x2 = x.spec_mul(x);
        x2.spec_mul(x2).spec_mul(x)
    }

    /// The share of light reflected at a right angle to the surface:
    /// `((1 - ri) / (1 + ri))` squared.
    pub open spec fn spec_r0(refraction_index: Fixed) -> Fixed {
        let r0 = Fixed::spec_one().spec_sub(refraction_index).spec_div(
            Fixed::spec_one().spec_add(refraction_index),
        );
        r0.spec_mul(r0)
    }

    /// Schlick's approximation of the share of light reflected:
    /// `r0 + (1 - r0) (1 - cosine)^5`.
    pub open spec fn spec_reflectance(cosine: Fixed, refraction_index: Fixed) -> Fixed {
        let r0 = Dielectric::spec_r0(refraction_index);
        r0.spec_add(
            Fixed::spec_one().spec_sub(r0).spec_mul(
                Dielectric::spec_pow5(Fixed::spec_one().spec_sub(cosine)),
            ),
        )
    }

    /// The ratio of refractive indices that a ray meets: the inverse of the
    /// index on the way in, the index on the way out.
    pub open spec fn spec_ratio(self, rec: HitRecord) -> Fixed {
        if rec.front_face {
            Fixed::spec_one().spec_div(self.refraction_index)
        } else {
            self.refraction_index
        }
    }

    /// The sine of the angle whose cosine is `cos_theta`.
    pub open spec fn spec_sin_theta(cos_theta: Fixed) -> Fixed {
        Fixed::spec_one().spec_sub(cos_theta.spec_mul(cos_theta)).spec_sqrt()
    }

    /// Whether the ray must be reflected because Snell's law has no
    /// solution.
    pub open spec fn spec_cannot_refract(ratio: Fixed, cos_theta: Fixed) -> bool {
        ratio.spec_mul(Dielectric::spec_sin_theta(cos_theta))@ > SCALE as int
    }

    /// Whether the ray is reflected for the draw `draw`: where it cannot be
    /// refracted, or where the reflectance exceeds the draw.
    pub open spec fn spec_reflects(self, r_in: Ray, rec: HitRecord, draw: Fixed) -> bool {
        let ratio = self.spec_ratio(rec);
        let cos_theta = Vec3::spec_cos_theta(r_in.direction.spec_unit_vector(), rec.normal);
        Dielectric::spec_cannot_refract(ratio, cos_theta) || Dielectric::spec_reflectance(
            cos_theta,
            ratio,
        )@ > draw@
    }

    /// The filter colour, which is white, and the scattered ray for the draw
    /// `draw`: the unit incoming direction either reflected or refracted.
    pub open spec fn spec_scatter_with(self, r_in: Ray, rec: HitRecord, draw: Fixed) -> (Color, Ray) {
        let unit_direction = r_in.direction.spec_unit_vector();
        let direction = if self.spec_reflects(r_in, rec, draw) {
            Vec3::spec_reflect(unit_direction, rec.normal)
        } else {
            Vec3::spec_refract(unit_direction, rec.normal, self.spec_ratio(rec))
        };
        (
            Vec3 { x: Fixed::spec_one(), y: Fixed::spec_one(), z: Fixed::spec_one() },
            Ray { origin: rec.p, direction },
        )
    }

    /// Whether `out` is a way for the ray `r_in`, which hit as `rec` records,
    /// to go on: it is always scattered and never filtered, for some draw.
    pub open spec fn spec_outcome(self, r_in: Ray, rec: HitRecord, out: Option<(Color, Ray)>) -> bool {
        exists|draw: Fixed|
            is_unit_draw(draw) && out == Some(#[trigger] self.spec_scatter_with(r_in, rec, draw))
    }

    pub fn new(refraction_index: Fixed) -> (m: Dielectric)
        ensures
            m == (Dielectric { refraction_index }),
    {
        Dielectric { refraction_index }
    }

    /// The fifth power of `x`.
    fn pow5(x: Fixed) -> (r: Fixed)
        ensures
            r == Dielectric::spec_pow5(x),
    {
        let x2: Fixed = x.times(x);
        x2.times(x2).times(x)
    }

    /// Schlick's approximation of the share of light reflected.
    pub fn reflectance(cosine: Fixed, refraction_index: Fixed) -> (r: Fixed)
        ensures
            r == Dielectric::spec_reflectance(cosine, refraction_index),
    {
        let mut r0: Fixed = Fixed::one().minus(refraction_index).over(
            Fixed::one().plus(refraction_index),
        );
        r0 = r0.times(r0);
        r0.plus(Fixed::one().minus(r0).times(Dielectric::pow5(Fixed::one().minus(cosine))))
    }

    /// The filter colour and the scattered ray for the draw `draw`.
    pub fn scatter_with(&self, r_in: &Ray, rec: &HitRecord, draw: Fixed) -> (out: (Color, Ray))
        ensures
            out == self.spec_scatter_with(*r_in, *rec, draw),
    {
        let attenuation: Color = Color::new(Fixed::one(), Fixed::one(), Fixed::one());
        let ri: Fixed = if rec.front_face {
            Fixed::one().over(self.refraction_index)
        } else {
            self.refraction_index
        };
        let unit_direction: Vec3 = r_in.direction().unit_vector();
        let cos_theta: Fixed = unit_direction.dot(&rec.normal).negate().min(Fixed::one());
        let sin_theta: Fixed = Fixed::one().minus(cos_theta.times(cos_theta)).sqrt();
        let cannot_refract: bool = ri.times(sin_theta).gt(Fixed::one());
        let direction: Vec3 = if cannot_refract || Dielectric::reflectance(cos_theta, ri).gt(draw) {
            Vec3::reflect(&unit_direction, &rec.normal)
        } else {
            Vec3::refract(&unit_direction, &rec.normal, ri)
        };
        (attenuation, Ray::new(rec.p, direction))
    }

    /// The filter colour and the scattered ray for a draw of
    /// [`random_double`].
    pub fn scatter_at_random(&self, r_in: &Ray, rec: &HitRecord) -> (out: (Color, Ray))
        ensures
            self.spec_outcome(*r_in, *rec, Some(out)),
    {
        let draw: Fixed = random_double();
        self.scatter_with(r_in, rec, draw)
    }
}

impl Material for Dielectric {
    open spec fn is_non_emissive(&self) -> bool {
        true
    }

    open spec fn spec_scatters(&self, r_in: Ray, rec: HitRecord, out: Option<(Color, Ray)>) -> bool {
        self.spec_outcome(r_in, rec, out)
    }

    fn scatter(&self, r_in: &Ray, rec: &HitRecord) -> (out: Option<(Color, Ray)>) {
        Some(self.scatter_at_random(r_in, rec))
    }

    proof fn lemma_filter_in_unit_cube(
        &self,
        r_in: Ray,
        rec: HitRecord,
        out: Option<(Color, Ray)>,
    ) {
        broadcast use Fixed::lemma_view_of;

    }
}

/// Any of the materials.
#[derive(Clone, Copy, Debug, PartialEq, Eq, Structural)]
pub enum Surface {
    Lambertian(Lambertian),
    Metal(Metal),
    Dielectric(Dielectric),
}

impl Material for Surface {
    open spec fn is_non_emissive(&self) -> bool {
        match *self {
            Surface::Lambertian(m) => m.spec_non_emissive(),
            Surface::Metal(m) => m.spec_non_emissive(),
            Surface::Dielectric(m) => true,
        }
    }

    open spec fn spec_scatters(&self, r_in: Ray, rec: HitRecord, out: Option<(Color, Ray)>) -> bool {
        match *self {
            Surface::Lambertian(m) => m.spec_outcome(rec, out),
            Surface::Metal(m) => m.spec_outcome(r_in, rec, out),
            Surface::Dielectric(m) => m.spec_outcome(r_in, rec, out),
        }
    }

    fn scatter(&self, r_in: &Ray, rec: &HitRecord) -> (out: Option<(Color, Ray)>) {
        match self {
            Surface::Lambertian(m) => Some(m.scatter_at_random(rec)),
            Surface::Metal(m) => m.scatter_at_random(r_in, rec),
            Surface::Dielectric(m) => Some(m.scatter_at_random(r_in, rec)),
        }
    }

    proof fn lemma_filter_in_unit_cube(
        &self,
        r_in: Ray,
        rec: HitRecord,
        out: Option<(Color, Ray)>,
    ) {
        broadcast use Fixed::lemma_view_of;

    }
}

/// Light that meets a surface head on is reflected in the share `r0`
/// exactly: the fifth-power term of the approximation vanishes.
pub proof fn lemma_reflectance_head_on(refraction_index: Fixed)
    ensures
        Dielectric::spec_reflectance(Fixed::spec_one(), refraction_index) == Dielectric::spec_r0(
            refraction_index,
        ),
{
    broadcast use {Fixed::lemma_view_of, Fixed::lemma_view_range};

    let r0 = Dielectric::spec_r0(refraction_index);
    let zero = Fixed::spec_one().spec_sub(Fixed::spec_one());
    assert(zero@ == 0);
    crate::fixed::lemma_mul_zero(zero, zero);
    let z2 = zero.spec_mul(zero);
    crate::fixed::lemma_mul_zero(z2, z2);
    crate::fixed::lemma_mul_zero(z2.spec_mul(z2), zero);
    let fifth = Dielectric::spec_pow5(zero);
    assert(fifth@ == 0);
    crate::fixed::lemma_mul_zero(Fixed::spec_one().spec_sub(r0), fifth);
    let r = Fixed::spec_one().spec_sub(refraction_index).spec_div(
        Fixed::spec_one().spec_add(refraction_index),
    );
    Fixed::lemma_of_saturate(crate::fixed::trunc_div(r@ * r@, SCALE as int));
}

/// A ray that meets a surface head on is never refused refraction, whatever
/// the ratio of refractive indices.
pub proof fn lemma_head_on_refracts(ratio: Fixed)
    ensures
        Dielectric::spec_sin_theta(Fixed::spec_one())@ == 0,
        !Dielectric::spec_cannot_refract(ratio, Fixed::spec_one()),
{
    broadcast use {Fixed::lemma_view_of, Fixed::lemma_view_range};

    let one = Fixed::spec_one();
    assert(crate::fixed::trunc_div(one@ * one@, SCALE as int) == SCALE as int) by (nonlinear_arith)
        requires
            one@ == SCALE as int,
            SCALE as int == 1_000_000_000,
    ;
    let sin = Dielectric::spec_sin_theta(one);
    assert(sin@ == 0);
    crate::fixed::lemma_mul_zero(ratio, sin);
}

} // verus!
