use raytracing::camera::{Camera, CameraError};
use raytracing::fixed::Fixed;
use raytracing::hittable_list::HittableList;
use raytracing::material::{Dielectric, Lambertian, Metal, Surface};
use raytracing::ray::Ray;
use raytracing::sphere::Sphere;
use raytracing::vec3::{Color, Vec3};
use raytracing::write_color;

fn fx(x: f64) -> Fixed {
    Fixed::from_raw((x * 1e9).round() as i64)
}

fn v(x: f64, y: f64, z: f64) -> Vec3 {
    Vec3::new(fx(x), fx(y), fx(z))
}

fn vraw(x: i64, y: i64, z: i64) -> Vec3 {
    Vec3::new(Fixed::from_raw(x), Fixed::from_raw(y), Fixed::from_raw(z))
}

fn ready(mut cam: Camera) -> Camera {
    cam.initialize().unwrap();
    cam
}

fn small(width: u32, samples: u32, depth: u32) -> Camera {
    let mut cam = Camera::default();
    cam.aspect_ratio = fx(2.0);
    cam.image_width = width;
    cam.samples_per_pixel = samples;
    cam.max_depth = depth;
    cam
}

fn empty_world() -> HittableList<Sphere> {
    HittableList::new()
}

fn three_spheres() -> HittableList<Sphere> {
    let mut world = HittableList::new();
    world.add(Sphere::new(v(0.0, -100.5, -1.0), fx(100.0), Surface::Lambertian(Lambertian::new(v(0.8, 0.8, 0.0)))));
    world.add(Sphere::new(v(0.0, 0.0, -1.2), fx(0.5), Surface::Lambertian(Lambertian::new(v(0.1, 0.2, 0.5)))));
    world.add(Sphere::new(v(-1.0, 0.0, -1.0), fx(0.5), Surface::Dielectric(Dielectric::new(fx(1.5)))));
    world.add(Sphere::new(v(1.0, 0.0, -1.0), fx(0.5), Surface::Metal(Metal::new(v(0.8, 0.6, 0.2), fx(0.1)))));
    world
}

/// The lines of a pixmap after its header, each as three numbers.
fn pixels_of(bytes: &[u8], width: u32, height: u32) -> Vec<[u32; 3]> {
    let text = String::from_utf8(bytes.to_vec()).unwrap();
    let header = format!("P3\n{} {}\n255\n", width, height);
    assert!(text.starts_with(&header));
    assert!(text.ends_with('\n'));
    let body = &text[header.len()..];
    let mut pixels = Vec::new();
    for line in body.lines() {
        let parts: Vec<u32> = line.split(' ').map(|p| p.parse().unwrap()).collect();
        assert_eq!(parts.len(), 3);
        for p in &parts {
            assert!(*p <= 255);
        }
        pixels.push([parts[0], parts[1], parts[2]]);
    }
    assert_eq!(pixels.len(), (width * height) as usize);
    pixels
}

#[test]
fn default_camera_configuration() {
    let cam = Camera::default();
    assert_eq!(cam.aspect_ratio, fx(1.0));
    assert_eq!(cam.image_width, 100);
    assert_eq!(cam.samples_per_pixel, 10);
    assert_eq!(cam.max_depth, 10);
    assert_eq!(cam.vfov_half_tan, fx(1.0));
    assert_eq!(cam.lookfrom, v(0.0, 0.0, 0.0));
    assert_eq!(cam.lookat, v(0.0, 0.0, -1.0));
    assert_eq!(cam.vup, v(0.0, 1.0, 0.0));
    assert_eq!(cam.defocus_half_tan, fx(0.0));
    assert_eq!(cam.focus_dist, fx(10.0));
    assert_eq!(cam.image_height, 100);
    assert_eq!(cam.pixel00_loc, Vec3::default());
}

#[test]
fn new_keeps_every_field() {
    let d = ready(Camera::default());
    let cam = Camera::new(
        d.aspect_ratio, d.image_width, d.samples_per_pixel, d.max_depth, d.vfov_half_tan, d.lookfrom,
        d.lookat, d.vup, d.defocus_half_tan, d.focus_dist, d.image_height, d.pixel_samples_scale,
        d.center, d.pixel00_loc, d.pixel_delta_u, d.pixel_delta_v, d.u, d.v, d.w, d.defocus_disk_u,
        d.defocus_disk_v,
    );
    assert_eq!(cam, d);
    let other = Camera::new(
        fx(2.0), 3, 4, 5, fx(6.0), v(7.0, 0.0, 0.0), v(8.0, 0.0, 0.0), v(9.0, 0.0, 0.0), fx(10.0),
        fx(11.0), 12, fx(13.0), v(14.0, 0.0, 0.0), v(15.0, 0.0, 0.0), v(16.0, 0.0, 0.0),
        v(17.0, 0.0, 0.0), v(18.0, 0.0, 0.0), v(19.0, 0.0, 0.0), v(20.0, 0.0, 0.0), v(21.0, 0.0, 0.0),
        v(22.0, 0.0, 0.0),
    );
    assert_eq!(other.aspect_ratio, fx(2.0));
    assert_eq!((other.image_width, other.samples_per_pixel, other.max_depth), (3, 4, 5));
    assert_eq!(other.vfov_half_tan, fx(6.0));
    assert_eq!(other.lookfrom.x(), fx(7.0));
    assert_eq!(other.lookat.x(), fx(8.0));
    assert_eq!(other.vup.x(), fx(9.0));
    assert_eq!(other.defocus_half_tan, fx(10.0));
    assert_eq!(other.focus_dist, fx(11.0));
    assert_eq!(other.image_height, 12);
    assert_eq!(other.pixel_samples_scale, fx(13.0));
    assert_eq!(other.center.x(), fx(14.0));
    assert_eq!(other.pixel00_loc.x(), fx(15.0));
    assert_eq!(other.pixel_delta_u.x(), fx(16.0));
    assert_eq!(other.pixel_delta_v.x(), fx(17.0));
    assert_eq!(other.u.x(), fx(18.0));
    assert_eq!(other.v.x(), fx(19.0));
    assert_eq!(other.w.x(), fx(20.0));
    assert_eq!(other.defocus_disk_u.x(), fx(21.0));
    assert_eq!(other.defocus_disk_v.x(), fx(22.0));
}

#[test]
fn initialize_computes_the_frame_of_the_default_camera() {
    let cam = ready(Camera::default());
    assert_eq!(cam.image_height, 100);
    assert_eq!(cam.pixel_samples_scale, fx(0.1));
    assert_eq!(cam.center, v(0.0, 0.0, 0.0));
    assert_eq!(cam.w, v(0.0, 0.0, 1.0));
    assert_eq!(cam.u, v(1.0, 0.0, 0.0));
    assert_eq!(cam.v, v(0.0, 1.0, 0.0));
    assert_eq!(cam.pixel_delta_u, v(0.2, 0.0, 0.0));
    assert_eq!(cam.pixel_delta_v, v(0.0, -0.2, 0.0));
    assert_eq!(cam.pixel00_loc, v(-9.9, 9.9, -10.0));
    assert_eq!(cam.defocus_disk_u, v(0.0, 0.0, 0.0));
    assert_eq!(cam.defocus_disk_v, v(0.0, 0.0, 0.0));
}

fn slanted_camera() -> Camera {
    let mut cam = Camera::default();
    cam.aspect_ratio = Fixed::from_ratio(16, 9);
    cam.image_width = 400;
    cam.samples_per_pixel = 7;
    cam.max_depth = 50;
    cam.vfov_half_tan = fx(0.176326981);
    cam.lookfrom = v(-2.0, 2.0, 1.0);
    cam.lookat = v(0.0, 0.0, -1.0);
    cam.vup = v(0.0, 1.0, 0.0);
    cam.defocus_half_tan = fx(0.087488664);
    cam.focus_dist = fx(3.4);
    cam
}

#[test]
fn initialize_computes_the_frame_of_a_slanted_camera() {
    let cam = ready(slanted_camera());
    assert_eq!(cam.image_height, 225);
    assert_eq!(cam.pixel_samples_scale.raw(), 142_857_142);
    assert_eq!(cam.center, v(-2.0, 2.0, 1.0));
    assert_eq!(cam.w, vraw(-577_350_269, 577_350_269, 577_350_269));
    assert_eq!(cam.u, vraw(707_106_781, 0, 707_106_781));
    assert_eq!(cam.v, vraw(408_248_290, 816_496_580, -408_248_290));
    assert_eq!(cam.pixel_delta_u, vraw(3_768_167, 0, 3_768_167));
    assert_eq!(cam.pixel_delta_v, vraw(-2_175_552, -4_351_104, 2_175_552));
    assert_eq!(cam.pixel00_loc, vraw(-545_096_584, 524_332_815, -1_958_402_140));
    assert_eq!(cam.defocus_disk_u, vraw(210_337_013, 0, 210_337_013));
    assert_eq!(cam.defocus_disk_v, vraw(121_438_131, 242_876_262, -121_438_131));
}

#[test]
fn initialize_keeps_the_configuration() {
    let before = slanted_camera();
    let after = ready(before);
    assert_eq!(after.aspect_ratio, before.aspect_ratio);
    assert_eq!(after.image_width, before.image_width);
    assert_eq!(after.samples_per_pixel, before.samples_per_pixel);
    assert_eq!(after.max_depth, before.max_depth);
    assert_eq!(after.vfov_half_tan, before.vfov_half_tan);
    assert_eq!(after.lookfrom, before.lookfrom);
    assert_eq!(after.lookat, before.lookat);
    assert_eq!(after.vup, before.vup);
    assert_eq!(after.defocus_half_tan, before.defocus_half_tan);
    assert_eq!(after.focus_dist, before.focus_dist);
}

#[test]
fn initializing_twice_changes_nothing() {
    for cam in [Camera::default(), slanted_camera(), small(8, 1, 1)] {
        let once = ready(cam);
        let twice = ready(once);
        assert_eq!(once, twice);
        assert_eq!(once.pixel_delta_u, twice.pixel_delta_u);
        assert_eq!(once.pixel_delta_v, twice.pixel_delta_v);
        assert_eq!((once.u, once.v, once.w), (twice.u, twice.v, twice.w));
    }
}

#[test]
fn initialize_follows_a_changed_configuration() {
    let mut cam = ready(Camera::default());
    cam.image_width = 400;
    cam.aspect_ratio = fx(2.0);
    cam.initialize().unwrap();
    assert_eq!(cam.image_height, 200);
    assert_eq!(cam.pixel_delta_u, v(0.1, 0.0, 0.0));
    assert_eq!(cam, ready(cam));
}

#[test]
fn image_height_is_at_least_one_and_rounded_down() {
    let cases: [(u32, Fixed, u32); 6] = [
        (100, fx(2.0), 50),
        (3, fx(7.0), 1),
        (1, fx(0.5), 2),
        (1000, fx(1.5), 666),
        (4_294_967_295, fx(0.25), 4_294_967_295),
        (7, Fixed::from_raw(1), 4_294_967_295),
    ];
    for (width, aspect_ratio, height) in cases {
        let mut cam = Camera::default();
        cam.image_width = width;
        cam.aspect_ratio = aspect_ratio;
        cam.initialize().unwrap();
        assert_eq!(cam.image_height, height);
    }
}

#[test]
fn image_without_pixels_is_refused() {
    let mut no_width = Camera::default();
    no_width.image_width = 0;
    assert_eq!(no_width.config_error(), Some(CameraError::EmptyImage));
    assert_eq!(no_width.initialize(), Err(CameraError::EmptyImage));
    assert_eq!(no_width.render(&empty_world()), Err(CameraError::EmptyImage));
    let mut flat = Camera::default();
    flat.aspect_ratio = fx(0.0);
    assert_eq!(flat.initialize(), Err(CameraError::EmptyImage));
    let mut inverted = Camera::default();
    inverted.aspect_ratio = fx(-1.5);
    assert_eq!(inverted.initialize(), Err(CameraError::EmptyImage));
    assert_eq!(inverted.render(&empty_world()), Err(CameraError::EmptyImage));
}

#[test]
fn view_without_a_frame_is_refused() {
    let mut nowhere = Camera::default();
    nowhere.lookat = nowhere.lookfrom;
    assert_eq!(nowhere.config_error(), Some(CameraError::DegenerateView));
    assert_eq!(nowhere.initialize(), Err(CameraError::DegenerateView));
    let mut straight_up = Camera::default();
    straight_up.lookat = v(0.0, 5.0, 0.0);
    assert_eq!(straight_up.initialize(), Err(CameraError::DegenerateView));
    assert_eq!(straight_up.render(&three_spheres()), Err(CameraError::DegenerateView));
    let mut no_up = Camera::default();
    no_up.vup = Vec3::default();
    assert_eq!(no_up.initialize(), Err(CameraError::DegenerateView));
}

#[test]
fn empty_image_is_reported_before_a_degenerate_view() {
    let mut cam = Camera::default();
    cam.image_width = 0;
    cam.lookat = cam.lookfrom;
    assert_eq!(cam.initialize(), Err(CameraError::EmptyImage));
}

#[test]
fn refused_camera_stays_as_it_is() {
    let mut cam = Camera::default();
    cam.lookat = cam.lookfrom;
    let before = cam;
    assert!(cam.initialize().is_err());
    assert_eq!(cam, before);
    assert!(cam.render(&empty_world()).is_err());
    assert_eq!(cam, before);
}

#[test]
fn sound_configuration_has_no_error() {
    assert_eq!(Camera::default().config_error(), None);
    assert_eq!(slanted_camera().config_error(), None);
}

#[test]
fn ray_toward_aims_at_the_named_point_of_the_pixel() {
    let cam = ready(Camera::default());
    let centre = cam.ray_toward(0, 0, &Vec3::default(), cam.center);
    assert_eq!(centre, Ray::new(v(0.0, 0.0, 0.0), v(-9.9, 9.9, -10.0)));
    let other = cam.ray_toward(50, 99, &Vec3::default(), cam.center);
    assert_eq!(other, Ray::new(v(0.0, 0.0, 0.0), v(0.1, -9.9, -10.0)));
    let corner = cam.ray_toward(50, 99, &v(-0.5, 0.25, 0.0), cam.center);
    assert_eq!(corner.direction(), v(0.0, -9.95, -10.0));
    let moved = cam.ray_toward(0, 0, &Vec3::default(), v(1.0, 1.0, 1.0));
    assert_eq!(moved, Ray::new(v(1.0, 1.0, 1.0), v(-10.9, 8.9, -11.0)));
}

#[test]
fn ray_toward_of_a_slanted_camera() {
    let cam = ready(slanted_camera());
    let origin = cam.defocus_point(&v(0.3, -0.4, 0.0));
    assert_eq!(origin, vraw(-1_985_474_149, 1_902_849_496, 1_111_676_355));
    let ray = cam.ray_toward(17, 33, &v(0.25, -0.5, 0.0), origin);
    assert_eq!(ray.origin(), origin);
    assert_eq!(ray.direction(), vraw(1_434_673_005, -1_519_927_561, -2_934_372_175));
}

#[test]
fn sample_square_lies_within_half_a_pixel() {
    let mut distinct = false;
    let first = Camera::sample_square();
    for _ in 0..500 {
        let s = Camera::sample_square();
        assert!(s.x().ge(fx(-0.5)) && s.x().lt(fx(0.5)));
        assert!(s.y().ge(fx(-0.5)) && s.y().lt(fx(0.5)));
        assert_eq!(s.z(), fx(0.0));
        distinct = distinct || s != first;
    }
    assert!(distinct);
}

#[test]
fn get_ray_without_depth_of_field_starts_at_the_centre() {
    let cam = ready(Camera::default());
    for _ in 0..200 {
        let ray = cam.get_ray(50, 99);
        assert_eq!(ray.origin(), v(0.0, 0.0, 0.0));
        let d = ray.direction();
        assert!(d.x().ge(fx(0.0)) && d.x().lt(fx(0.2)));
        assert!(d.y().gt(fx(-10.0)) && d.y().le(fx(-9.8)));
        assert_eq!(d.z(), fx(-10.0));
    }
}

#[test]
fn get_ray_with_depth_of_field_starts_on_the_defocus_disk() {
    let cam = ready(slanted_camera());
    let radius = cam.focus_dist.times(cam.defocus_half_tan);
    let mut off_centre = false;
    for _ in 0..200 {
        let ray = cam.get_ray(200, 112);
        let from_centre = ray.origin().minus(cam.center);
        assert!(from_centre.length().le(radius.plus(fx(0.000001))));
        assert!(from_centre.dot(&cam.w).abs().le(fx(0.000001)));
        off_centre = off_centre || ray.origin() != cam.center;
        let target = ray.origin().plus(ray.direction());
        let along = target.minus(cam.center).dot(&cam.w);
        assert!(along.plus(cam.focus_dist).abs().le(fx(0.00001)));
    }
    assert!(off_centre);
}

#[test]
fn defocus_disk_sample_lies_on_the_disk() {
    let cam = ready(slanted_camera());
    let radius = cam.focus_dist.times(cam.defocus_half_tan);
    for _ in 0..200 {
        let p = cam.defocus_disk_sample();
        assert!(p.minus(cam.center).length().le(radius.plus(fx(0.000001))));
    }
    let plain = ready(Camera::default());
    assert_eq!(plain.defocus_disk_sample(), plain.center);
}

#[test]
fn background_blends_white_into_blue() {
    let from = v(0.0, 0.0, 0.0);
    assert_eq!(Camera::background(&Ray::new(from, v(0.0, -1.0, 0.0))), v(1.0, 1.0, 1.0));
    assert_eq!(Camera::background(&Ray::new(from, v(0.0, 7.0, 0.0))), v(0.5, 0.7, 1.0));
    assert_eq!(Camera::background(&Ray::new(from, v(0.0, 0.0, -1.0))), v(0.75, 0.85, 1.0));
    assert_eq!(
        Camera::background(&Ray::new(from, v(1.0, 2.0, -2.0))),
        vraw(583_333_333, 750_000_000, 1_000_000_000)
    );
    assert_eq!(Camera::background(&Ray::new(from, v(0.0, 0.0, 0.0))), v(0.75, 0.85, 1.0));
}

#[test]
fn background_stays_between_blue_and_white() {
    let directions = [
        v(1.0, 0.0, 0.0), v(-3.0, 0.1, 2.0), v(0.3, -0.9, 0.1), v(0.0, 1.0, 0.0), v(5.0, 5.0, 5.0),
        vraw(1, 1, 1), vraw(0, -1, 0), vraw(i64::MAX, i64::MAX, -i64::MAX),
    ];
    for d in directions {
        let c = Camera::background(&Ray::new(v(1.0, 2.0, 3.0), d));
        assert!(c.x().ge(fx(0.5)) && c.x().le(fx(1.0)));
        assert!(c.y().ge(fx(0.7)) && c.y().le(fx(1.0)));
        assert_eq!(c.z(), fx(1.0));
    }
}

#[test]
fn path_without_bounces_is_black() {
    let ray = Ray::new(v(0.0, 0.0, 0.0), v(0.0, 0.0, -1.0));
    assert_eq!(Camera::ray_color(&ray, 0, &empty_world()), Color::default());
    assert_eq!(Camera::ray_color(&ray, 0, &three_spheres()), Color::default());
}

#[test]
fn path_that_hits_nothing_sees_the_sky() {
    let world = empty_world();
    for d in [v(0.0, 0.0, -1.0), v(1.0, 2.0, -2.0), v(0.0, -1.0, 0.0)] {
        let ray = Ray::new(v(0.0, 0.0, 0.0), d);
        for depth in [1, 2, 50] {
            assert_eq!(Camera::ray_color(&ray, depth, &world), Camera::background(&ray));
        }
    }
    let up = Ray::new(v(0.0, 1.0, 0.0), v(0.0, 1.0, 0.0));
    assert_eq!(Camera::ray_color(&up, 10, &three_spheres()), v(0.5, 0.7, 1.0));
}

#[test]
fn path_cut_off_at_its_first_hit_is_black() {
    let world = three_spheres();
    for d in [v(0.0, 0.0, -1.0), v(-1.0, 0.0, -1.0), v(1.0, 0.0, -1.0), v(0.0, -1.0, -0.1)] {
        let ray = Ray::new(v(0.0, 0.0, 0.0), d);
        for _ in 0..20 {
            assert_eq!(Camera::ray_color(&ray, 1, &world), Color::default());
        }
    }
}

#[test]
fn path_off_a_lone_matte_sphere_is_its_albedo_times_the_sky() {
    let mut world = HittableList::new();
    world.add(Sphere::new(v(0.0, 0.0, -1.0), fx(0.5), Surface::Lambertian(Lambertian::new(v(0.8, 0.4, 0.25)))));
    let ray = Ray::new(v(0.0, 0.0, 0.0), v(0.0, 0.0, -1.0));
    for _ in 0..200 {
        let c = Camera::ray_color(&ray, 2, &world);
        assert!(c.x().ge(fx(0.4)) && c.x().le(fx(0.8)));
        assert!(c.y().ge(fx(0.28)) && c.y().le(fx(0.4)));
        assert_eq!(c.z(), fx(0.25));
    }
}

#[test]
fn path_colour_stays_in_the_unit_cube() {
    let world = three_spheres();
    let cam = ready(small(16, 1, 8));
    for j in 0..cam.image_height {
        for i in 0..cam.image_width {
            let c = Camera::ray_color(&cam.get_ray(i, j), cam.max_depth, &world);
            for channel in [c.x(), c.y(), c.z()] {
                assert!(channel.ge(Fixed::zero()) && channel.le(Fixed::one()));
            }
        }
    }
}

#[test]
fn pixel_colour_adds_up_its_samples() {
    let cam = ready(small(8, 5, 3));
    let sky = cam.pixel_color(3, 2, &empty_world());
    assert_eq!(sky.z(), fx(5.0));
    assert!(sky.x().ge(fx(2.5)) && sky.x().le(fx(5.0)));
    assert!(sky.y().ge(fx(3.5)) && sky.y().le(fx(5.0)));
    let none = ready(small(8, 0, 3));
    assert_eq!(none.pixel_color(3, 2, &three_spheres()), Color::default());
    let world = three_spheres();
    for i in 0..8 {
        let c = cam.pixel_color(i, 1, &world);
        for channel in [c.x(), c.y(), c.z()] {
            assert!(channel.ge(Fixed::zero()) && channel.le(fx(5.0)));
        }
    }
}

#[test]
fn empty_scene_renders_as_nothing_but_sky() {
    let mut cam = small(8, 1, 1);
    let bytes = cam.render(&empty_world()).unwrap();
    assert_eq!(cam.image_height, 4);
    let pixels = pixels_of(&bytes, 8, 4);
    for p in &pixels {
        assert!(181 <= p[0] && p[0] <= 255);
        assert!(214 <= p[1] && p[1] <= 255);
        assert_eq!(p[2], 255);
        assert!(p[0] <= p[1] && p[1] <= p[2]);
    }
    // The first row written is the top of the image, where the sky is bluest.
    for i in 0..8 {
        assert!(pixels[i][0] < pixels[24 + i][0]);
        assert!(pixels[i][1] < pixels[24 + i][1]);
    }
}

#[test]
fn sky_pixel_is_the_quantised_blend_of_its_ray() {
    let cam = ready(Camera::default());
    let top = Camera::background(&cam.ray_toward(50, 0, &Vec3::default(), cam.center));
    assert_eq!(top, vraw(574_118_292, 744_470_975, 1_000_000_000));
    let mut line: Vec<u8> = Vec::new();
    write_color(&mut line, &top);
    assert_eq!(line, b"193 220 255\n".to_vec());
    let bottom = Camera::background(&cam.ray_toward(50, 99, &Vec3::default(), cam.center));
    assert_eq!(bottom, vraw(925_881_708, 955_529_025, 1_000_000_000));
    let mut low_line: Vec<u8> = Vec::new();
    write_color(&mut low_line, &bottom);
    assert_eq!(low_line, b"246 250 255\n".to_vec());
    let corner = Camera::background(&cam.ray_toward(0, 0, &Vec3::default(), cam.center));
    let mut corner_line: Vec<u8> = Vec::new();
    write_color(&mut corner_line, &corner);
    assert_eq!(corner_line, b"199 223 255\n".to_vec());
}

#[test]
fn pixel_rows_run_down_the_image() {
    let cam = ready(small(8, 1, 1));
    let top = cam.ray_toward(3, 0, &Vec3::default(), cam.center);
    let bottom = cam.ray_toward(3, cam.image_height - 1, &Vec3::default(), cam.center);
    assert!(top.direction().y().gt(Fixed::zero()));
    assert!(bottom.direction().y().lt(Fixed::zero()));
    assert_eq!(top.direction().y(), bottom.direction().y().negate());
    let left = cam.ray_toward(0, 2, &Vec3::default(), cam.center);
    let right = cam.ray_toward(7, 2, &Vec3::default(), cam.center);
    assert!(left.direction().x().lt(Fixed::zero()));
    assert_eq!(left.direction().x(), right.direction().x().negate());
}

#[test]
fn camera_is_ready_once_initialized_and_until_its_configuration_changes() {
    let mut cam = Camera::default();
    assert!(!cam.is_ready());
    cam.initialize().unwrap();
    assert!(cam.is_ready());
    cam.image_width = 50;
    assert!(!cam.is_ready());
    cam.initialize().unwrap();
    assert!(cam.is_ready());
    cam.pixel00_loc = Vec3::default();
    assert!(!cam.is_ready());
    let mut unsound = ready(Camera::default());
    unsound.lookat = unsound.lookfrom;
    assert!(!unsound.is_ready());
    assert!(ready(slanted_camera()).is_ready());
}

#[test]
fn render_initializes_the_camera() {
    let mut cam = small(6, 2, 2);
    let expected = ready(cam);
    cam.render(&empty_world()).unwrap();
    assert_eq!(cam, expected);
}

#[test]
fn render_writes_a_line_for_every_pixel() {
    let world = three_spheres();
    for (width, height) in [(1u32, 1u32), (2, 1), (7, 3), (16, 8)] {
        let mut cam = small(width, 3, 5);
        let bytes = cam.render(&world).unwrap();
        assert_eq!(cam.image_height, height);
        pixels_of(&bytes, width, height);
    }
}

#[test]
fn render_without_samples_is_black() {
    let mut cam = small(4, 0, 5);
    let bytes = cam.render(&three_spheres()).unwrap();
    assert_eq!(String::from_utf8(bytes).unwrap(), format!("P3\n4 2\n255\n{}", "0 0 0\n".repeat(8)));
}

#[test]
fn render_without_bounces_is_black() {
    let mut cam = small(4, 3, 0);
    let bytes = cam.render(&three_spheres()).unwrap();
    assert_eq!(String::from_utf8(bytes).unwrap(), format!("P3\n4 2\n255\n{}", "0 0 0\n".repeat(8)));
}

#[test]
fn render_shows_the_scene() {
    let mut cam = small(32, 4, 6);
    cam.focus_dist = fx(1.0);
    let bytes = cam.render(&three_spheres()).unwrap();
    let pixels = pixels_of(&bytes, 32, 16);
    // The top row is sky, the bottom row is the yellow-green ground.
    for i in 0..32 {
        assert_eq!(pixels[i][2], 255);
        assert!(pixels[15 * 32 + i][2] < 200);
    }
}
