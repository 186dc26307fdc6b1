use raytracing::fixed::Fixed;
use raytracing::hittable::{HitRecord, Hittable};
use raytracing::interval::Interval;
use raytracing::material::{Lambertian, Metal, Surface};
use raytracing::ray::Ray;
use raytracing::sphere::Sphere;
use raytracing::vec3::Vec3;

fn fx(x: f64) -> Fixed {
    Fixed::from_raw((x * 1e9).round() as i64)
}

fn v(x: f64, y: f64, z: f64) -> Vec3 {
    Vec3::new(fx(x), fx(y), fx(z))
}

fn vraw(x: i64, y: i64, z: i64) -> Vec3 {
    Vec3::new(Fixed::from_raw(x), Fixed::from_raw(y), Fixed::from_raw(z))
}

fn matte() -> Surface {
    Surface::Lambertian(Lambertian::new(v(0.1, 0.2, 0.5)))
}

fn ahead() -> Interval {
    Interval::new(fx(0.001), Fixed::max_value())
}

fn float(a: Fixed) -> f64 {
    a.raw() as f64 / 1e9
}

#[test]
fn sphere_new_and_accessors() {
    let s = Sphere::new(v(1.0, 2.0, 3.0), fx(0.5), matte());
    assert_eq!(s.center(), v(1.0, 2.0, 3.0));
    assert_eq!(s.radius(), fx(0.5));
    assert_eq!(s.mat, matte());
}

#[test]
fn default_sphere_is_a_unit_sphere_of_grey_metal() {
    let s = Sphere::default();
    assert_eq!(s.center(), Vec3::default());
    assert_eq!(s.radius(), fx(1.0));
    assert_eq!(s.mat, Surface::Metal(Metal::new(v(0.8, 0.8, 0.8), fx(1.0))));
}

#[test]
fn ray_from_the_origin_hits_the_sphere_ahead_head_on() {
    let s = Sphere::new(v(0.0, 0.0, -1.0), fx(0.5), matte());
    let r = Ray::new(v(0.0, 0.0, 0.0), v(0.0, 0.0, -1.0));
    let rec = s.hit(&r, ahead()).unwrap();
    assert_eq!(rec.t, fx(0.5));
    assert_eq!(rec.normal, v(0.0, 0.0, 1.0));
    assert!(rec.front_face);
    assert_eq!(rec.p, v(0.0, 0.0, -0.5));
    assert_eq!(rec.mat, matte());
}

#[test]
fn slanted_hit_is_recorded_exactly() {
    let s = Sphere::new(v(0.0, 0.0, -1.0), fx(0.5), matte());
    let r = Ray::new(v(0.1, 0.2, 0.3), v(0.3, -0.1, -1.0));
    let rec = s.hit(&r, ahead()).unwrap();
    assert_eq!(rec.t.raw(), 1_028_700_182);
    assert_eq!(rec.p, vraw(408_610_054, 97_129_982, -728_700_182));
    assert_eq!(rec.normal, vraw(817_220_108, 194_259_964, 542_599_636));
    assert!(rec.front_face);
}

#[test]
fn hit_point_lies_on_the_ray_and_on_the_sphere() {
    let s = Sphere::new(v(0.5, -0.25, -3.0), fx(1.25), matte());
    let rays = [
        Ray::new(v(0.0, 0.0, 0.0), v(0.0, 0.0, -1.0)),
        Ray::new(v(0.1, 0.2, 0.3), v(0.3, -0.1, -1.0)),
        Ray::new(v(2.0, 2.0, 2.0), v(-0.4, -0.6, -1.3)),
        Ray::new(v(0.5, -0.25, -3.0), v(0.3, 0.3, 0.3)),
    ];
    for r in rays {
        let rec = s.hit(&r, ahead()).unwrap();
        assert!(ahead().surrounds(rec.t));
        assert_eq!(rec.p, r.at(rec.t));
        let d = rec.p.minus(s.center());
        let dist = (float(d.x()).powi(2) + float(d.y()).powi(2) + float(d.z()).powi(2)).sqrt();
        assert!((dist - 1.25).abs() < 1e-6);
        assert!(r.direction().dot(&rec.normal).le(Fixed::zero()));
    }
}

#[test]
fn ray_from_inside_hits_the_back_face() {
    let s = Sphere::new(v(0.0, 0.0, -1.0), fx(0.5), matte());
    let r = Ray::new(v(0.0, 0.0, -1.0), v(0.0, 1.0, 0.0));
    let rec = s.hit(&r, ahead()).unwrap();
    assert_eq!(rec.t, fx(0.5));
    assert_eq!(rec.p, v(0.0, 0.5, -1.0));
    assert_eq!(rec.normal, v(0.0, -1.0, 0.0));
    assert!(!rec.front_face);
}

#[test]
fn ray_that_passes_by_misses() {
    let s = Sphere::new(v(0.0, 3.0, -5.0), fx(1.0), matte());
    let r = Ray::new(v(0.0, 0.0, 0.0), v(0.0, 0.0, -1.0));
    assert!(s.hit(&r, ahead()).is_none());
}

#[test]
fn sphere_behind_the_ray_is_missed() {
    let s = Sphere::new(v(0.0, 0.0, 5.0), fx(1.0), matte());
    let r = Ray::new(v(0.0, 0.0, 0.0), v(0.0, 0.0, -1.0));
    assert!(s.hit(&r, ahead()).is_none());
    let rec = s.hit(&r, Interval::universe()).unwrap();
    assert_eq!(rec.t, fx(-6.0));
}

#[test]
fn ray_that_touches_hits_once() {
    let s = Sphere::new(v(0.0, 1.0, -5.0), fx(1.0), matte());
    let r = Ray::new(v(0.0, 0.0, 0.0), v(0.0, 0.0, -1.0));
    let rec = s.hit(&r, ahead()).unwrap();
    assert_eq!(rec.t, fx(5.0));
    assert_eq!(rec.p, v(0.0, 0.0, -5.0));
    assert!(!rec.front_face);
    assert_eq!(rec.normal, v(0.0, 1.0, 0.0));
}

#[test]
fn ends_of_the_interval_are_no_hits() {
    let s = Sphere::new(v(0.0, 0.0, -5.0), fx(1.0), matte());
    let r = Ray::new(v(0.0, 0.0, 0.0), v(0.0, 0.0, -1.0));
    assert!(s.hit(&r, Interval::new(fx(0.001), fx(4.0))).is_none());
    assert_eq!(s.hit(&r, Interval::new(fx(0.001), fx(4.000000001))).unwrap().t, fx(4.0));
    assert!(s.hit(&r, Interval::new(fx(4.0), fx(6.0))).is_none());
    assert!(s.hit(&r, Interval::new(fx(4.5), fx(5.5))).is_none());
}

#[test]
fn farther_root_is_taken_where_the_nearer_is_outside() {
    let s = Sphere::new(v(0.0, 0.0, -5.0), fx(1.0), matte());
    let r = Ray::new(v(0.0, 0.0, 0.0), v(0.0, 0.0, -1.0));
    let rec = s.hit(&r, Interval::new(fx(4.0), fx(7.0))).unwrap();
    assert_eq!(rec.t, fx(6.0));
    assert_eq!(rec.p, v(0.0, 0.0, -6.0));
    assert_eq!(rec.normal, v(0.0, 0.0, 1.0));
    assert!(!rec.front_face);
}

#[test]
fn ray_without_direction_hits_nothing() {
    let s = Sphere::new(v(0.0, 0.0, 0.0), fx(1.0), matte());
    let r = Ray::new(v(0.0, 0.0, 0.0), v(0.0, 0.0, 0.0));
    assert!(s.hit(&r, Interval::new(fx(-1.0), fx(1.0))).is_none());
    assert!(s.hit(&r, Interval::universe()).is_none());
    let on_surface = Ray::new(v(1.0, 0.0, 0.0), v(0.0, 0.0, 0.0));
    assert!(s.hit(&on_surface, Interval::universe()).is_none());
}

#[test]
fn direction_need_not_have_unit_length() {
    let s = Sphere::new(v(0.0, 0.0, -5.0), fx(1.0), matte());
    let r = Ray::new(v(0.0, 0.0, 0.0), v(0.0, 0.0, -2.0));
    let rec = s.hit(&r, ahead()).unwrap();
    assert_eq!(rec.t, fx(2.0));
    assert_eq!(rec.p, v(0.0, 0.0, -4.0));
    assert_eq!(rec.normal, v(0.0, 0.0, 1.0));
}

#[test]
fn short_direction_hits_as_any_other() {
    let s = Sphere::new(v(0.0, 0.0, -1.0), fx(0.5), matte());
    let short = Ray::new(v(0.0, 0.0, 0.0), v(0.0, 0.0, -0.00002));
    let rec = s.hit(&short, ahead()).unwrap();
    assert_eq!(rec.t, fx(25000.0));
    assert_eq!(rec.p, v(0.0, 0.0, -0.5));
    assert_eq!(rec.normal, v(0.0, 0.0, 1.0));
    assert!(rec.front_face);
    let shortest = Ray::new(v(0.0, 0.0, 0.0), vraw(0, 0, -1));
    let rec = s.hit(&shortest, ahead()).unwrap();
    assert_eq!(rec.t, fx(500_000_000.0));
    assert_eq!(rec.p, v(0.0, 0.0, -0.5));
    let slanted = Ray::new(v(0.0, 0.0, 0.0), vraw(3, -1, -20));
    let rec = s.hit(&slanted, ahead()).unwrap();
    assert_eq!(rec.t.raw(), 25_322_702_350_000_000);
    assert_eq!(rec.p, vraw(75_968_107, -25_322_702, -506_454_047));
    assert_eq!(rec.normal, vraw(151_936_214, -50_645_404, 987_091_906));
    assert!(rec.front_face);
}

#[test]
fn long_direction_hits_at_a_small_parameter() {
    let s = Sphere::new(v(0.0, 0.0, -1.0), fx(0.5), matte());
    let long = Ray::new(v(0.0, 0.0, 0.0), v(0.0, 0.0, -1000.0));
    let rec = s.hit(&long, Interval::new(fx(0.0), Fixed::max_value())).unwrap();
    assert_eq!(rec.t, fx(0.0005));
    assert_eq!(rec.p, v(0.0, 0.0, -0.5));
    // The nearer intersection lies before the least parameter that counts.
    let rec = s.hit(&long, ahead()).unwrap();
    assert_eq!(rec.t, fx(0.0015));
    assert_eq!(rec.p, v(0.0, 0.0, -1.5));
    assert!(!rec.front_face);
}

#[test]
fn negative_radius_turns_the_sphere_inside_out() {
    let s = Sphere::new(v(0.0, 0.0, -5.0), fx(-1.0), matte());
    let r = Ray::new(v(0.0, 0.0, 0.0), v(0.0, 0.0, -1.0));
    let rec = s.hit(&r, ahead()).unwrap();
    assert_eq!(rec.t, fx(4.0));
    assert!(!rec.front_face);
    assert_eq!(rec.normal, v(0.0, 0.0, 1.0));
}

#[test]
fn hit_record_new_keeps_its_fields() {
    let rec = HitRecord::new(v(1.0, 2.0, 3.0), v(0.0, 1.0, 0.0), matte(), fx(2.5), true);
    assert_eq!(rec.p, v(1.0, 2.0, 3.0));
    assert_eq!(rec.normal, v(0.0, 1.0, 0.0));
    assert_eq!(rec.mat, matte());
    assert_eq!(rec.t, fx(2.5));
    assert!(rec.front_face);
}

#[test]
fn set_face_normal_turns_the_normal_against_the_ray() {
    let mut rec = HitRecord::new(v(0.0, 0.0, 0.0), v(0.0, 0.0, 0.0), matte(), fx(1.0), false);
    let down = Ray::new(v(0.0, 1.0, 0.0), v(0.0, -1.0, 0.0));
    rec.set_face_normal(&down, &v(0.0, 1.0, 0.0));
    assert!(rec.front_face);
    assert_eq!(rec.normal, v(0.0, 1.0, 0.0));
    let up = Ray::new(v(0.0, -1.0, 0.0), v(0.0, 1.0, 0.0));
    rec.set_face_normal(&up, &v(0.0, 1.0, 0.0));
    assert!(!rec.front_face);
    assert_eq!(rec.normal, v(0.0, -1.0, 0.0));
    let along = Ray::new(v(0.0, 0.0, 0.0), v(1.0, 0.0, 0.0));
    rec.set_face_normal(&along, &v(0.0, 1.0, 0.0));
    assert!(!rec.front_face);
    assert_eq!(rec.normal, v(0.0, -1.0, 0.0));
}

#[test]
fn set_face_normal_never_leaves_the_normal_along_the_ray() {
    let directions = [v(1.0, 2.0, 3.0), v(-0.3, 0.7, -0.1), v(0.0, 0.0, 0.0), vraw(1, -1, 2)];
    let normals = [v(0.0, 1.0, 0.0), v(0.6, 0.0, -0.8), vraw(577_350_269, 577_350_269, 577_350_269)];
    for d in directions {
        for n in normals {
            let mut rec = HitRecord::new(v(0.0, 0.0, 0.0), v(0.0, 0.0, 0.0), matte(), fx(1.0), false);
            let r = Ray::new(v(0.0, 0.0, 0.0), d);
            rec.set_face_normal(&r, &n);
            assert!(d.dot(&rec.normal).le(Fixed::zero()));
            assert_eq!(rec.front_face, d.dot(&n).lt(Fixed::zero()));
        }
    }
}

#[test]
fn distances_solve_the_quadratic_within_rounding() {
    let spheres = [
        Sphere::new(v(0.0, 0.0, -1.0), fx(0.5), matte()),
        Sphere::new(v(0.5, -0.25, -3.0), fx(1.25), matte()),
        Sphere::new(v(0.0, -100.5, -1.0), fx(100.0), matte()),
    ];
    let rays = [
        Ray::new(v(0.0, 0.0, 0.0), v(0.0, 0.0, -1.0)),
        Ray::new(v(0.1, 0.2, 0.3), v(0.3, -0.1, -1.0)),
        Ray::new(v(0.0, 0.0, 0.0), vraw(3, -1, -20)),
        Ray::new(v(2.0, 2.0, 2.0), v(-400.0, -600.0, -1300.0)),
    ];
    let scale: i128 = 1_000_000_000;
    for s in spheres {
        for r in rays {
            let unit = r.direction().unit_vector();
            let oc = s.center().minus(r.origin());
            let a = unit.length_squared();
            let h = unit.dot(&oc);
            let c = oc.length_squared().minus(s.radius().times(s.radius()));
            let discriminant = h.times(h).minus(a.times(c));
            if discriminant.lt(Fixed::zero()) {
                continue;
            }
            let root = discriminant.sqrt();
            for distance in [h.minus(root).over(a), h.plus(root).over(a)] {
                let (a, h, c) = (a.raw() as i128, h.raw() as i128, c.raw() as i128);
                let (n, w) = (distance.raw() as i128, root.raw() as i128);
                let residual = a * n * n - 2 * h * n * scale + c * scale * scale;
                assert!(residual.abs() <= 10 * w * scale + 4 * a + 8 * scale * scale);
            }
        }
    }
}
