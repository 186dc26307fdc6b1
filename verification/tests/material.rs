use raytracing::fixed::Fixed;
use raytracing::hittable::HitRecord;
use raytracing::material::{Dielectric, Lambertian, Material, Metal, Surface};
use raytracing::ray::Ray;
use raytracing::vec3::Vec3;

fn fx(x: f64) -> Fixed {
    Fixed::from_raw((x * 1e9).round() as i64)
}

fn raw(n: i64) -> Fixed {
    Fixed::from_raw(n)
}

fn v(x: f64, y: f64, z: f64) -> Vec3 {
    Vec3::new(fx(x), fx(y), fx(z))
}

fn vraw(x: i64, y: i64, z: i64) -> Vec3 {
    Vec3::new(raw(x), raw(y), raw(z))
}

fn white() -> Vec3 {
    v(1.0, 1.0, 1.0)
}

/// A hit at the point (1, 2, 3) of a floor whose normal points up.
fn floor_hit(mat: Surface, front_face: bool) -> HitRecord {
    HitRecord::new(v(1.0, 2.0, 3.0), v(0.0, 1.0, 0.0), mat, fx(1.0), front_face)
}

fn slanted() -> Ray {
    Ray::new(v(0.0, 3.0, 3.0), v(1.0, -1.0, 0.0))
}

#[test]
fn lambertian_scatters_about_the_normal() {
    let m = Lambertian::new(v(0.1, 0.2, 0.5));
    let rec = HitRecord::new(v(1.0, 2.0, 3.0), v(0.0, 0.0, 1.0), Surface::Lambertian(m), fx(1.0), true);
    let sample = v(1.0, 2.0, 2.0).unit_vector();
    let (attenuation, scattered) = m.scatter_with(&rec, &sample);
    assert_eq!(attenuation, v(0.1, 0.2, 0.5));
    assert_eq!(scattered.origin(), v(1.0, 2.0, 3.0));
    assert_eq!(scattered.direction(), vraw(333_333_333, 666_666_666, 1_666_666_666));
}

#[test]
fn lambertian_falls_back_to_the_normal_where_the_sample_cancels_it() {
    let m = Lambertian::new(v(0.1, 0.2, 0.5));
    let rec = floor_hit(Surface::Lambertian(m), true);
    let (_, exact) = m.scatter_with(&rec, &v(0.0, -1.0, 0.0));
    assert_eq!(exact.direction(), v(0.0, 1.0, 0.0));
    let (_, nearly) = m.scatter_with(&rec, &vraw(9, -999_999_991, -9));
    assert_eq!(nearly.direction(), v(0.0, 1.0, 0.0));
    let (_, not_quite) = m.scatter_with(&rec, &vraw(10, -1_000_000_000, 0));
    assert_eq!(not_quite.direction(), vraw(10, 0, 0));
}

#[test]
fn lambertian_always_scatters_with_its_albedo() {
    let m = Lambertian::new(v(0.1, 0.2, 0.5));
    let rec = floor_hit(Surface::Lambertian(m), true);
    for _ in 0..200 {
        let (attenuation, scattered) = m.scatter(&slanted(), &rec).unwrap();
        assert_eq!(attenuation, v(0.1, 0.2, 0.5));
        assert_eq!(scattered.origin(), v(1.0, 2.0, 3.0));
        assert!(!scattered.direction().near_zero());
        assert!(scattered.direction().dot(&rec.normal).ge(Fixed::zero()));
        assert!(scattered.direction().length().le(fx(2.000001)));
    }
}

#[test]
fn metal_new_brings_the_fuzz_into_range() {
    assert_eq!(Metal::new(white(), fx(0.3)).fuzz, fx(0.3));
    assert_eq!(Metal::new(white(), fx(1.0)).fuzz, fx(1.0));
    assert_eq!(Metal::new(white(), fx(7.0)).fuzz, fx(1.0));
    assert_eq!(Metal::new(white(), fx(0.0)).fuzz, fx(0.0));
    assert_eq!(Metal::new(white(), fx(-2.0)).fuzz, fx(0.0));
    assert_eq!(Metal::new(v(0.8, 0.6, 0.2), fx(0.1)).albedo, v(0.8, 0.6, 0.2));
}

#[test]
fn metal_reflects_the_unit_direction() {
    let m = Metal::new(v(0.8, 0.6, 0.2), fx(0.5));
    let rec = floor_hit(Surface::Metal(m), true);
    let (attenuation, scattered) = m.scatter_with(&slanted(), &rec, &v(0.0, 0.0, 1.0)).unwrap();
    assert_eq!(attenuation, v(0.8, 0.6, 0.2));
    assert_eq!(scattered.origin(), v(1.0, 2.0, 3.0));
    assert_eq!(scattered.direction(), vraw(707_106_781, 707_106_781, 500_000_000));
}

#[test]
fn metal_absorbs_what_would_leave_into_the_surface() {
    let m = Metal::new(v(0.8, 0.6, 0.2), fx(1.0));
    let rec = floor_hit(Surface::Metal(m), true);
    assert_eq!(m.scatter_with(&slanted(), &rec, &v(0.0, -1.0, 0.0)), None);
    let grazing = vraw(0, -707_106_781, 0);
    assert_eq!(m.scatter_with(&slanted(), &rec, &grazing), None);
    let just_above = vraw(0, -707_106_780, 0);
    assert!(m.scatter_with(&slanted(), &rec, &just_above).is_some());
}

#[test]
fn polished_metal_is_a_mirror() {
    let m = Metal::new(v(0.8, 0.6, 0.2), fx(0.0));
    let rec = floor_hit(Surface::Metal(m), true);
    for _ in 0..50 {
        let (attenuation, scattered) = m.scatter(&slanted(), &rec).unwrap();
        assert_eq!(attenuation, v(0.8, 0.6, 0.2));
        assert_eq!(scattered, Ray::new(v(1.0, 2.0, 3.0), vraw(707_106_781, 707_106_781, 0)));
    }
}

#[test]
fn brushed_metal_strays_no_farther_than_its_fuzz() {
    let m = Metal::new(v(0.8, 0.6, 0.2), fx(0.25));
    let rec = floor_hit(Surface::Metal(m), true);
    let mirror = vraw(707_106_781, 707_106_781, 0);
    for _ in 0..200 {
        if let Some((attenuation, scattered)) = m.scatter(&slanted(), &rec) {
            assert_eq!(attenuation, v(0.8, 0.6, 0.2));
            assert!(scattered.direction().dot(&rec.normal).gt(Fixed::zero()));
            assert!(scattered.direction().minus(mirror).length().le(fx(0.250001)));
        }
    }
}

#[test]
fn reflectance_follows_schlick() {
    assert_eq!(Dielectric::reflectance(fx(1.0), fx(1.5)).raw(), 40_000_000);
    assert_eq!(Dielectric::reflectance(fx(0.5), fx(1.5)).raw(), 70_000_000);
    assert_eq!(Dielectric::reflectance(fx(0.0), fx(1.0).over(fx(1.5))).raw(), 1_000_000_000);
    assert_eq!(Dielectric::reflectance(raw(707_106_781), raw(666_666_666)).raw(), 42_069_272);
    assert_eq!(Dielectric::reflectance(fx(1.0), fx(1.0)), fx(0.0));
}

#[test]
fn glass_struck_head_on_reflects_its_base_share_and_is_never_refused_refraction() {
    let m = Dielectric::new(fx(1.5));
    assert_eq!(Dielectric::reflectance(fx(1.0), fx(1.5)), fx(0.04));
    let rec = floor_hit(Surface::Dielectric(m), true);
    let down = Ray::new(v(1.0, 5.0, 3.0), v(0.0, -3.0, 0.0));
    let (attenuation, through) = m.scatter_with(&down, &rec, fx(0.04));
    assert_eq!(attenuation, white());
    assert_eq!(through, Ray::new(v(1.0, 2.0, 3.0), v(0.0, -1.0, 0.0)));
    let (_, back) = m.scatter_with(&down, &rec, raw(39_999_999));
    assert_eq!(back.direction(), v(0.0, 1.0, 0.0));
    let inside = floor_hit(Surface::Dielectric(m), false);
    let (_, out) = m.scatter_with(&down, &inside, fx(0.999999999));
    assert_eq!(out.direction(), v(0.0, -1.0, 0.0));
    let dense = Dielectric::new(fx(1000.0));
    let (_, still_through) = dense.scatter_with(&down, &floor_hit(Surface::Dielectric(dense), false), fx(0.999999999));
    assert_eq!(still_through.direction(), v(0.0, -1.0, 0.0));
}

#[test]
fn glass_refracts_or_reflects_a_slanted_ray_by_the_draw() {
    let m = Dielectric::new(fx(1.5));
    let rec = floor_hit(Surface::Dielectric(m), true);
    let (attenuation, refracted) = m.scatter_with(&slanted(), &rec, raw(42_069_272));
    assert_eq!(attenuation, white());
    assert_eq!(refracted.origin(), v(1.0, 2.0, 3.0));
    assert_eq!(refracted.direction(), vraw(471_404_520, -881_917_104, 0));
    let (_, reflected) = m.scatter_with(&slanted(), &rec, raw(42_069_271));
    assert_eq!(reflected.direction(), vraw(707_106_781, 707_106_781, 0));
}

#[test]
fn glass_reflects_all_light_beyond_the_critical_angle() {
    let m = Dielectric::new(fx(1.5));
    let rec = floor_hit(Surface::Dielectric(m), false);
    let grazing = Ray::new(v(0.0, 3.0, 3.0), v(1.0, -0.2, 0.0));
    let (attenuation, scattered) = m.scatter_with(&grazing, &rec, fx(0.999999999));
    assert_eq!(attenuation, white());
    assert_eq!(scattered.direction(), vraw(980_580_676, 196_116_135, 0));
}

#[test]
fn glass_always_scatters_without_filtering() {
    let m = Dielectric::new(fx(1.5));
    let rec = floor_hit(Surface::Dielectric(m), true);
    let (mut reflected, mut refracted) = (0, 0);
    for _ in 0..2000 {
        let (attenuation, scattered) = m.scatter(&slanted(), &rec).unwrap();
        assert_eq!(attenuation, white());
        assert_eq!(scattered.origin(), v(1.0, 2.0, 3.0));
        if scattered.direction() == vraw(707_106_781, 707_106_781, 0) {
            reflected += 1;
        } else {
            assert_eq!(scattered.direction(), vraw(471_404_520, -881_917_104, 0));
            refracted += 1;
        }
    }
    assert!(refracted > reflected);
    assert!(reflected > 0);
}

#[test]
fn surface_scatters_as_the_material_it_holds() {
    let mirror = Surface::Metal(Metal::new(v(0.8, 0.6, 0.2), fx(0.0)));
    let rec = floor_hit(mirror, true);
    let (attenuation, scattered) = mirror.scatter(&slanted(), &rec).unwrap();
    assert_eq!(attenuation, v(0.8, 0.6, 0.2));
    assert_eq!(scattered.direction(), vraw(707_106_781, 707_106_781, 0));
    let matte = Surface::Lambertian(Lambertian::new(v(0.1, 0.2, 0.5)));
    let (attenuation, _) = matte.scatter(&slanted(), &floor_hit(matte, true)).unwrap();
    assert_eq!(attenuation, v(0.1, 0.2, 0.5));
    let glass = Surface::Dielectric(Dielectric::new(fx(1.5)));
    let (attenuation, _) = glass.scatter(&slanted(), &floor_hit(glass, true)).unwrap();
    assert_eq!(attenuation, white());
}
