//! Spheres.

use crate::fixed::{
    lemma_div_monotone, lemma_int_sqrt_exists, lemma_trunc_div_bounds, magnitude, trunc_div, Fixed,
    SCALE,
};
use crate::hittable::{HitRecord, Hittable};
use crate::interval::Interval;
use crate::material::{Material, Metal, Surface};
use crate::ray::Ray;
use crate::vec3::{lemma_unit_length_squared_positive, Color, Point3, Vec3};
use vstd::prelude::*;

verus! {

/// A sphere of one material.
#[derive(Clone, Copy, Debug, PartialEq, Eq, Structural)]
pub struct Sphere {
    pub center: Point3,
    pub radius: Fixed,
    pub mat: Surface,
}

impl Sphere {
    /// The vector from the origin of `r` to the centre.
    pub open spec fn spec_oc(self, r: Ray) -> Vec3 {
        self.center.spec_sub(r.origin)
    }

    /// The direction of `r` scaled to unit length. The intersections are
    /// found along it, as distances, so that a short direction is not lost to
    /// rounding.
    pub open spec fn spec_unit(self, r: Ray) -> Vec3 {
        r.direction.spec_unit_vector()
    }

    /// The squared length of the unit direction: the leading coefficient of
    /// the quadratic whose roots are the distances of the two intersections.
    pub open spec fn spec_a(self, r: Ray) -> Fixed {
        self.spec_unit(r).spec_length_squared()
    }

    /// Half the linear coefficient of the quadratic, negated.
    pub open spec fn spec_h(self, r: Ray) -> Fixed {
        self.spec_unit(r).spec_dot(self.spec_oc(r))
    }

    /// The constant coefficient of the quadratic.
    pub open spec fn spec_c(self, r: Ray) -> Fixed {
        self.spec_oc(r).spec_length_squared().spec_sub(self.radius.spec_mul(self.radius))
    }

    /// A quarter of the discriminant of the quadratic: `h h - a c`.
    pub open spec fn spec_discriminant(self, r: Ray) -> Fixed {
        self.spec_h(r).spec_mul(self.spec_h(r)).spec_sub(self.spec_a(r).spec_mul(self.spec_c(r)))
    }

    /// The smaller root of the quadratic: the distance of the nearer
    /// intersection.
    pub open spec fn spec_near_distance(self, r: Ray) -> Fixed {
        self.spec_h(r).spec_sub(self.spec_discriminant(r).spec_sqrt()).spec_div(self.spec_a(r))
    }

    /// The larger root of the quadratic: the distance of the farther
    /// intersection.
    pub open spec fn spec_far_distance(self, r: Ray) -> Fixed {
        self.spec_h(r).spec_add(self.spec_discriminant(r).spec_sqrt()).spec_div(self.spec_a(r))
    }

    /// The ray parameter of the nearer intersection: its distance over the
    /// length of the direction.
    pub open spec fn spec_near_root(self, r: Ray) -> Fixed {
        self.spec_near_distance(r).spec_div(r.direction.spec_length())
    }

    /// The ray parameter of the farther intersection.
    pub open spec fn spec_far_root(self, r: Ray) -> Fixed {
        self.spec_far_distance(r).spec_div(r.direction.spec_length())
    }

    /// Whether the line of `r` meets the sphere: the ray has a direction,
    /// however short, and the discriminant is not negative.
    pub open spec fn spec_meets(self, r: Ray) -> bool {
        r.direction.spec_length()@ != 0 && self.spec_discriminant(r)@ >= 0
    }

    /// The ray parameter at which `r` hits: the smaller root where it lies
    /// strictly inside `ray_t`, else the larger root where that does.
    pub open spec fn spec_root(self, r: Ray, ray_t: Interval) -> Option<Fixed> {
        if !self.spec_meets(r) {
            None
        } else if ray_t.spec_surrounds(self.spec_near_root(r)) {
            Some(self.spec_near_root(r))
        } else if ray_t.spec_surrounds(self.spec_far_root(r)) {
            Some(self.spec_far_root(r))
        } else {
            None
        }
    }

    /// The outward normal at the point `p` of the sphere: the vector from the
    /// centre to `p` over the radius.
    pub open spec fn spec_outward_normal(self, p: Point3) -> Vec3 {
        p.spec_sub(self.center).spec_div(self.radius)
    }

    /// The record of a hit of `r` at the ray parameter `t`.
    pub open spec fn spec_record(self, r: Ray, t: Fixed) -> HitRecord {
        let p = r.spec_at(t);
        (HitRecord { t, p, normal: Vec3::spec_zero(), front_face: false, mat: self.mat })
            .spec_face_normal(r, self.spec_outward_normal(p))
    }

    /// A metal of light grey with the most fuzz: the material of the default
    /// sphere.
    pub open spec fn spec_default_mat() -> Surface {
        Surface::Metal(
            Metal {
                albedo: Vec3 {
                    x: Fixed::of(800_000_000),
                    y: Fixed::of(800_000_000),
                    z: Fixed::of(800_000_000),
                },
                fuzz: Fixed::spec_one(),
            },
        )
    }

    pub fn new(center: Point3, radius: Fixed, mat: Surface) -> (s: Sphere)
        ensures
            s == (Sphere { center, radius, mat }),
    {
        Sphere { center, radius, mat }
    }

    pub fn center(&self) -> (c: Vec3)
        ensures
            c == self.center,
    {
        self.center
    }

    pub fn radius(&self) -> (r: Fixed)
        ensures
            r == self.radius,
    {
        self.radius
    }

    /// The distances of the two intersections solve the quadratic within
    /// rounding, where its coefficients are not too large to be squared.
    pub proof fn lemma_distances_solve_quadratic(self, r: Ray)
        requires
            self.spec_meets(r),
            magnitude(self.spec_h(r)@) <= QUADRATIC_H_RAW_MAX as int,
            magnitude(self.spec_c(r)@) <= QUADRATIC_C_RAW_MAX as int,
        ensures
            magnitude(
                quadratic_residual(
                    self.spec_a(r),
                    self.spec_h(r),
                    self.spec_c(r),
                    self.spec_near_distance(r),
                ),
            ) <= quadratic_slack(self.spec_a(r), self.spec_discriminant(r).spec_sqrt()),
            magnitude(
                quadratic_residual(
                    self.spec_a(r),
                    self.spec_h(r),
                    self.spec_c(r),
                    self.spec_far_distance(r),
                ),
            ) <= quadratic_slack(self.spec_a(r), self.spec_discriminant(r).spec_sqrt()),
    {
        broadcast use {Fixed::lemma_view_of, Fixed::lemma_view_range};

        let s = SCALE as int;
        let (a, h, c) = (self.spec_a(r), self.spec_h(r), self.spec_c(r));
        lemma_unit_length_squared_positive(r.direction);
        // The discriminant.
        let hh = h.spec_mul(h);
        let ac = a.spec_mul(c);
        lemma_square_in_range(h);
        lemma_product_in_range(a, c);
        let disc = self.spec_discriminant(r);
        assert(disc@ == hh@ - ac@);
        // Its root.
        let w = disc.spec_sqrt();
        lemma_sqrt_in_range(disc);
        // The two distances.
        let near = h.spec_sub(w);
        let far = h.spec_add(w);
        lemma_quotient_in_range(near, a);
        lemma_quotient_in_range(far, a);
        lemma_root_rounding(
            s,
            a@,
            h@,
            c@,
            hh@,
            ac@,
            w@,
            near@,
            self.spec_near_distance(r)@,
        );
        lemma_root_rounding(s, a@, h@, c@, hh@, ac@, w@, far@, self.spec_far_distance(r)@);
    }

    /// The two roots never come in the wrong order.
    pub proof fn lemma_roots_ordered(self, r: Ray)
        requires
            self.spec_meets(r),
        ensures
            self.spec_near_root(r)@ <= self.spec_far_root(r)@,
    {
        broadcast use {Fixed::lemma_view_of, Fixed::lemma_view_range};

        let root = self.spec_discriminant(r).spec_sqrt();
        assert(root@ >= 0) by {
            if self.spec_discriminant(r)@ > 0 {
                lemma_int_sqrt_exists(self.spec_discriminant(r)@ * SCALE as int);
            }
        }
        lemma_unit_length_squared_positive(r.direction);
        lemma_div_monotone(
            self.spec_h(r).spec_sub(root),
            self.spec_h(r).spec_add(root),
            self.spec_a(r),
        );
        lemma_div_monotone(
            self.spec_near_distance(r),
            self.spec_far_distance(r),
            r.direction.spec_length(),
        );
    }
}

/// The largest magnitude, in raw units, of the coefficient `h` for which the
/// quadratic is solved without saturation: seventy thousand.
pub const QUADRATIC_H_RAW_MAX: i64 = 70_000_000_000_000;

/// The largest magnitude, in raw units, of the coefficient `c` for which the
/// quadratic is solved without saturation: a billion.
pub const QUADRATIC_C_RAW_MAX: i64 = 1_000_000_000_000_000_000;

/// What is left of the quadratic `a n n - 2 h n + c` at the distance `n`,
/// counted in squares of the raw unit.
pub open spec fn quadratic_residual(a: Fixed, h: Fixed, c: Fixed, n: Fixed) -> int {
    a@ * (n@ * n@) - 2 * ((h@ * n@) * SCALE as int) + c@ * (SCALE as int * SCALE as int)
}

/// How far from zero rounding can leave the quadratic at a root, counted in
/// squares of the raw unit: eight billionths, four billionths of `a`, and
/// ten billionths of the root `w` of the discriminant.
pub open spec fn quadratic_slack(a: Fixed, w: Fixed) -> int {
    10 * (w@ * SCALE as int) + 4 * a@ + 8 * (SCALE as int * SCALE as int)
}

/// The square of a coefficient `h` that is not too large is rounded by less
/// than a billionth and not saturated.
proof fn lemma_square_in_range(h: Fixed)
    requires
        magnitude(h@) <= QUADRATIC_H_RAW_MAX as int,
    ensures
        -(SCALE as int) < h@ * h@ - SCALE as int * h.spec_mul(h)@ < SCALE as int,
        0 <= h.spec_mul(h)@ <= 4_900_000_000_000_000_000,
{
    broadcast use Fixed::lemma_view_of;

    let s = SCALE as int;
    let p = h@ * h@;
    assert(0 <= p <= 4_900_000_000_000_000_000 * s) by (nonlinear_arith)
        requires
            p == h@ * h@,
            magnitude(h@) <= 70_000_000_000_000,
            s == 1_000_000_000,
    ;
    lemma_trunc_div_bounds(p, s);
    let q = trunc_div(p, s);
    assert(q <= 4_900_000_000_000_000_000) by (nonlinear_arith)
        requires
            q * s <= p,
            p <= 4_900_000_000_000_000_000 * s,
            s > 0,
    ;
    assert(q * s == s * q) by (nonlinear_arith);
}

/// The product of a leading coefficient `a` of at most three and a
/// coefficient `c` that is not too large is rounded by less than a billionth
/// and not saturated.
proof fn lemma_product_in_range(a: Fixed, c: Fixed)
    requires
        0 <= a@ <= 3 * SCALE as int,
        magnitude(c@) <= QUADRATIC_C_RAW_MAX as int,
    ensures
        -(SCALE as int) < a@ * c@ - SCALE as int * a.spec_mul(c)@ < SCALE as int,
        magnitude(a.spec_mul(c)@) <= 3_000_000_000_000_000_000,
{
    broadcast use Fixed::lemma_view_of;

    let s = SCALE as int;
    let p = a@ * c@;
    assert(magnitude(p) <= 3_000_000_000_000_000_000 * s) by (nonlinear_arith)
        requires
            p == a@ * c@,
            0 <= a@ <= 3 * s,
            magnitude(c@) <= 1_000_000_000_000_000_000,
            s == 1_000_000_000,
    ;
    lemma_trunc_div_bounds(p, s);
    let q = trunc_div(p, s);
    assert(magnitude(q) <= 3_000_000_000_000_000_000) by (nonlinear_arith)
        requires
            magnitude(q) * s <= magnitude(p),
            magnitude(p) <= 3_000_000_000_000_000_000 * s,
            s > 0,
    ;
    assert(q * s == s * q) by (nonlinear_arith);
}

/// The root of a discriminant that is not negative is its rounded-down
/// square root, and is not saturated.
proof fn lemma_sqrt_in_range(disc: Fixed)
    requires
        0 <= disc@ <= 8_000_000_000_000_000_000,
    ensures
        0 <= disc.spec_sqrt()@ <= 100_000_000_000_000,
        disc.spec_sqrt()@ * disc.spec_sqrt()@ <= disc@ * (SCALE as int),
        disc@ * (SCALE as int) < (disc.spec_sqrt()@ + 1) * (disc.spec_sqrt()@ + 1),
{
    broadcast use Fixed::lemma_view_of;

    let s = SCALE as int;
    let n = disc@ * s;
    assert(0 <= n <= 8_000_000_000_000_000_000 * 1_000_000_000) by (nonlinear_arith)
        requires
            n == disc@ * s,
            0 <= disc@ <= 8_000_000_000_000_000_000,
            s == 1_000_000_000,
    ;
    let root = disc.spec_sqrt()@;
    if disc@ > 0 {
        lemma_int_sqrt_exists(n);
        let w = crate::fixed::int_sqrt(n);
        assert(w >= 0 && w * w <= n && n < (w + 1) * (w + 1));
        assert(w <= 100_000_000_000_000) by (nonlinear_arith)
            requires
                w >= 0,
                w * w <= n,
                n <= 8_000_000_000_000_000_000 * 1_000_000_000,
        ;
        assert(root == w);
        assert(root * root == w * w && (root + 1) * (root + 1) == (w + 1) * (w + 1))
            by (nonlinear_arith)
            requires
                root == w,
        ;
    } else {
        assert(root == 0);
        assert(root * root == 0 && n == 0 && (root + 1) * (root + 1) == 1) by (nonlinear_arith)
            requires
                root == 0,
                n == disc@ * s,
                disc@ == 0,
        ;
    }
}

/// The quotient of a number that is not too large by a leading coefficient
/// `a` of at least a quarter is rounded by less than `a` over a billion and
/// not saturated.
proof fn lemma_quotient_in_range(x: Fixed, a: Fixed)
    requires
        magnitude(x@) <= 200_000_000_000_000,
        SCALE as int <= 4 * a@,
    ensures
        -a@ < x@ * SCALE as int - a@ * x.spec_div(a)@ < a@,
{
    broadcast use Fixed::lemma_view_of;

    let s = SCALE as int;
    let p = x@ * s;
    assert(magnitude(p) == magnitude(x@) * s) by (nonlinear_arith)
        requires
            p == x@ * s,
            s > 0,
    ;
    lemma_trunc_div_bounds(p, a@);
    let q = trunc_div(p, a@);
    let whole = magnitude(p) / a@;
    assert(whole <= 4 * magnitude(x@)) by (nonlinear_arith)
        requires
            whole == magnitude(p) / a@,
            magnitude(p) == magnitude(x@) * s,
            0 < s <= 4 * a@,
            magnitude(x@) >= 0,
    ;
    assert(magnitude(q) == whole);
    assert(q * a@ == a@ * q && (q + 1) * a@ == a@ * q + a@ && (q - 1) * a@ == a@ * q - a@)
        by (nonlinear_arith);
}

/// Completing the square of the quadratic `a n n - 2 h n + c`, with `s` raw
/// units per whole.
proof fn lemma_completed_square(s: int, a: int, h: int, c: int, n: int)
    ensures
        a * (a * (n * n) - 2 * ((h * n) * s) + c * (s * s)) == (a * n - h * s) * (a * n - h * s) - (h
            * h - a * c) * (s * s),
{
    let x = a * n;
    let y = h * s;
    assert(a * (a * (n * n)) == x * x) by (nonlinear_arith)
        requires
            x == a * n,
    ;
    assert(a * ((h * n) * s) == x * y) by (nonlinear_arith)
        requires
            x == a * n,
            y == h * s,
    ;
    assert(y * y == (h * h) * (s * s)) by (nonlinear_arith)
        requires
            y == h * s,
    ;
    assert(a * (c * (s * s)) == (a * c) * (s * s)) by (nonlinear_arith);
    assert((x - y) * (x - y) == x * x - 2 * (x * y) + y * y) by (nonlinear_arith);
    let q = a * (n * n);
    let m = (h * n) * s;
    let k = c * (s * s);
    assert(a * (q - 2 * m + k) == a * q - 2 * (a * m) + a * k) by (nonlinear_arith);
    let hh = h * h;
    let ac = a * c;
    let ss = s * s;
    assert((hh - ac) * ss == hh * ss - ac * ss) by (nonlinear_arith);
}

/// The arithmetic of a root, on whole numbers, with `s` raw units per whole.
/// `hh` and `ac` are the rounded products of `h` with itself and of `a` with
/// `c`; `w` is the rounded root of their difference; and `n` is the rounded
/// quotient of `h - w` or `h + w`, here `hw`, by `a`.
proof fn lemma_root_rounding(s: int, a: int, h: int, c: int, hh: int, ac: int, w: int, hw: int, n: int)
    requires
        s > 0,
        s <= 4 * a,
        -s < h * h - s * hh < s,
        -s < a * c - s * ac < s,
        w >= 0,
        w * w <= (hh - ac) * s < (w + 1) * (w + 1),
        hw == h - w || hw == h + w,
        -a < hw * s - a * n < a,
    ensures
        magnitude(a * (n * n) - 2 * ((h * n) * s) + c * (s * s)) <= 10 * (w * s) + 4 * a + 8 * (s * s),
{
    let over = hw * s - a * n;
    let left = (hh - ac) * s - w * w;
    let lost = (h * h - s * hh) - (a * c - s * ac);
    let p = a * (n * n) - 2 * ((h * n) * s) + c * (s * s);
    let turn = a * n - h * s;
    assert(turn == (hw - h) * s - over) by (nonlinear_arith)
        requires
            turn == a * n - h * s,
            over == hw * s - a * n,
    ;
    assert(turn * turn == (w * s) * (w * s) + over * over + 2 * ((hw - h) * s) * (-over))
        by (nonlinear_arith)
        requires
            turn == (hw - h) * s - over,
            hw - h == w || hw - h == -w,
    ;
    lemma_completed_square(s, a, h, c, n);
    assert(a * p == turn * turn - (h * h - a * c) * (s * s));
    assert(0 <= left <= 2 * w) by (nonlinear_arith)
        requires
            left == (hh - ac) * s - w * w,
            w * w <= (hh - ac) * s < (w + 1) * (w + 1),
    ;
    assert((h * h - a * c) * (s * s) == (w * s) * (w * s) + left * (s * s) + lost * (s * s))
        by (nonlinear_arith)
        requires
            left == (hh - ac) * s - w * w,
            lost == (h * h - s * hh) - (a * c - s * ac),
    ;
    let slip = 2 * ((hw - h) * s) * (-over);
    assert(a * p == over * over + slip - left * (s * s) - lost * (s * s));
    assert(magnitude(over * over) <= a * a) by (nonlinear_arith)
        requires
            -a < over < a,
    ;
    assert(magnitude(slip) <= 2 * (w * s) * a) by (nonlinear_arith)
        requires
            slip == 2 * ((hw - h) * s) * (-over),
            hw - h == w || hw - h == -w,
            w >= 0,
            s > 0,
            -a < over < a,
    ;
    assert(0 <= left * (s * s) <= 2 * w * (s * s)) by (nonlinear_arith)
        requires
            0 <= left <= 2 * w,
            s > 0,
    ;
    assert(magnitude(lost * (s * s)) <= 2 * s * (s * s)) by (nonlinear_arith)
        requires
            -2 * s < lost < 2 * s,
            s > 0,
    ;
    let room = 10 * (w * s) + 4 * a + 8 * (s * s);
    assert(magnitude(a * p) <= a * a + 2 * (w * s) * a + 2 * w * (s * s) + 2 * s * (s * s));
    assert(a * a + 2 * (w * s) * a + 2 * w * (s * s) + 2 * s * (s * s) <= a * room)
        by (nonlinear_arith)
        requires
            room == 10 * (w * s) + 4 * a + 8 * (s * s),
            0 < s <= 4 * a,
            w >= 0,
    ;
    assert(magnitude(p) <= room) by (nonlinear_arith)
        requires
            magnitude(a * p) <= a * room,
            a > 0,
    ;
}

impl Default for Sphere {
    /// The unit sphere about the origin, of light grey metal with the most
    /// fuzz.
    fn default() -> (s: Sphere)
        ensures
            s == (Sphere {
                center: Vec3::spec_zero(),
                radius: Fixed::spec_one(),
                mat: Sphere::spec_default_mat(),
            }),
    {
        let grey: Fixed = Fixed::from_raw(800_000_000);
        Sphere {
            center: Vec3::default(),
            radius: Fixed::one(),
            mat: Surface::Metal(Metal { albedo: Color::new(grey, grey, grey), fuzz: Fixed::one() }),
        }
    }
}

impl Hittable for Sphere {
    open spec fn is_non_emissive(&self) -> bool {
        self.mat.is_non_emissive()
    }

    /// The hit at the nearer of the two intersections that lies strictly
    /// inside `ray_t`: nothing where the line of the ray misses the sphere or
    /// neither intersection lies inside.
    open spec fn spec_hit(&self, r: Ray, ray_t: Interval) -> Option<HitRecord> {
        match self.spec_root(r, ray_t) {
            Some(t) => Some(self.spec_record(r, t)),
            None => None,
        }
    }

    fn hit(&self, r: &Ray, ray_t: Interval) -> (res: Option<HitRecord>)
        ensures
            res matches Some(rec) ==> {
                &&& ray_t.spec_surrounds(rec.t)
                &&& rec.p == r.spec_at(rec.t)
                &&& rec.mat == self.mat
                &&& r.direction.spec_dot(rec.normal)@ <= 0
            },
    {
        let length: Fixed = r.direction().length();
        if length.is_zero() {
            return None;
        }
        let unit: Vec3 = r.direction().over(length);
        let oc: Vec3 = self.center().minus(r.origin());
        let a: Fixed = unit.length_squared();
        let h: Fixed = unit.dot(&oc);
        let c: Fixed = oc.length_squared().minus(self.radius().times(self.radius()));

        let discriminant: Fixed = h.times(h).minus(a.times(c));
        if discriminant.lt(Fixed::zero()) {
            return None;
        }
        let sqrtd: Fixed = discriminant.sqrt();

        // Find the nearest root that lies in the acceptable range.
        let mut root: Fixed = h.minus(sqrtd).over(a).over(length);
        if !ray_t.surrounds(root) {
            root = h.plus(sqrtd).over(a).over(length);
            if !ray_t.surrounds(root) {
                return None;
            }
        }
        let mut hit_record: HitRecord = HitRecord {
            t: root,
            p: r.at(root),
            normal: Vec3::default(),
            front_face: false,
            mat: self.mat,
        };
        let outward_normal: Vec3 = hit_record.p.minus(self.center).over(self.radius);
        hit_record.set_face_normal(r, &outward_normal);
        Some(hit_record)
    }

    proof fn lemma_hit_inside(&self, r: Ray, ray_t: Interval) {
    }

    proof fn lemma_hit_narrowed(&self, r: Ray, ray_t: Interval, closest: Fixed) {
        if self.spec_meets(r) {
            self.lemma_roots_ordered(r);
        }
    }
}

} // verus!
