//! The camera: it sends rays through the pixels of an image and traces the
//! path of each through a scene.

use crate::fixed::{lemma_trunc_div_bounds, trunc_div, Fixed, SCALE};
use crate::hittable::Hittable;
use crate::interval::Interval;
use crate::material::Material;
use crate::ray::Ray;
use crate::vec3::{lemma_unit_vector_bounds, Color, Point3, Vec3};
use crate::{
    channel_byte, color_line, decimal_digits, lemma_byte_monotone, lemma_byte_values,
    lemma_channel_byte_of_raw, push_decimal, random_double, write_color,
};
use rayon::iter::{IntoParallelIterator, ParallelIterator};
use vstd::prelude::*;

verus! {

/// Hits nearer than this along a ray, in raw units, are ignored, so that a
/// scattered ray does not hit the surface it leaves: a thousandth.
pub const SHADOW_ACNE_RAW: i64 = 1_000_000;

/// Why a camera cannot render.
#[derive(Clone, Copy, Debug, PartialEq, Eq, Structural)]
pub enum CameraError {
    /// The image would have no pixels: its width is zero, or its aspect
    /// ratio is not positive.
    EmptyImage,
    /// The camera has no frame of its own: it looks at the point it looks
    /// from, or straight along its up direction.
    DegenerateView,
}

/// A camera. The fields down to `focus_dist` configure it;
/// [`Camera::initialize`] computes the others from them.
#[derive(Clone, Copy, Debug, PartialEq, Eq, Structural)]
pub struct Camera {
    /// Ratio of image width over height.
    pub aspect_ratio: Fixed,
    /// Rendered image width in pixels.
    pub image_width: u32,
    /// Count of random samples for each pixel.
    pub samples_per_pixel: u32,
    /// Maximum number of ray bounces into the scene.
    pub max_depth: u32,
    /// Tangent of half the vertical view angle.
    pub vfov_half_tan: Fixed,
    /// Point the camera is looking from.
    pub lookfrom: Point3,
    /// Point the camera is looking at.
    pub lookat: Point3,
    /// The "up" direction, seen from the camera.
    pub vup: Vec3,
    /// Tangent of half the angle of the cone of rays through each pixel; no
    /// depth of field where it is not positive.
    pub defocus_half_tan: Fixed,
    /// Distance from `lookfrom` to the plane of perfect focus.
    pub focus_dist: Fixed,
    /// Rendered image height in pixels.
    pub image_height: u32,
    /// Colour scale factor for a sum of pixel samples.
    pub pixel_samples_scale: Fixed,
    /// Camera centre.
    pub center: Point3,
    /// Location of the centre of pixel 0, 0.
    pub pixel00_loc: Point3,
    /// Offset from a pixel to the next in its row.
    pub pixel_delta_u: Vec3,
    /// Offset from a pixel to the next in its column.
    pub pixel_delta_v: Vec3,
    /// Camera frame basis vector to the right.
    pub u: Vec3,
    /// Camera frame basis vector up.
    pub v: Vec3,
    /// Camera frame basis vector back.
    pub w: Vec3,
    /// Defocus disk horizontal radius.
    pub defocus_disk_u: Vec3,
    /// Defocus disk vertical radius.
    pub defocus_disk_v: Vec3,
}

impl Camera {
    /// The image width as a number.
    pub open spec fn spec_width(self) -> Fixed {
        Fixed::spec_from_int(self.image_width as int)
    }

    /// The height that the width and the aspect ratio ask for.
    pub open spec fn spec_candidate_height(self) -> Fixed {
        self.spec_width().spec_div(self.aspect_ratio)
    }

    /// The image height: the height asked for, rounded down, and at least
    /// one and at most `u32::MAX`.
    pub open spec fn spec_image_height(self) -> u32 {
        let candidate = self.spec_candidate_height();
        if candidate@ < SCALE as int {
            1
        } else if candidate.spec_trunc() > u32::MAX as int {
            u32::MAX
        } else {
            candidate.spec_trunc() as u32
        }
    }

    /// The vector from the point looked at to the camera.
    pub open spec fn spec_look_back(self) -> Vec3 {
        self.lookfrom.spec_sub(self.lookat)
    }

    pub open spec fn spec_w(self) -> Vec3 {
        self.spec_look_back().spec_unit_vector()
    }

    pub open spec fn spec_u(self) -> Vec3 {
        self.vup.spec_cross(self.spec_w()).spec_unit_vector()
    }

    pub open spec fn spec_v(self) -> Vec3 {
        self.spec_w().spec_cross(self.spec_u())
    }

    /// What is wrong with the configuration, if anything.
    pub open spec fn spec_config_error(self) -> Option<CameraError> {
        if self.image_width == 0 || self.aspect_ratio@ <= 0 {
            Some(CameraError::EmptyImage)
        } else if self.spec_look_back().spec_length()@ == 0 || self.vup.spec_cross(
            self.spec_w(),
        ).spec_length()@ == 0 {
            Some(CameraError::DegenerateView)
        } else {
            None
        }
    }

    /// The height of the viewport in the plane of focus:
    /// `2 tan(vfov / 2) focus_dist`.
    pub open spec fn spec_viewport_height(self) -> Fixed {
        Fixed::spec_from_int(2).spec_mul(self.vfov_half_tan).spec_mul(self.focus_dist)
    }

    /// The width of the viewport: its height times the ratio of the image
    /// width to the image height.
    pub open spec fn spec_viewport_width(self) -> Fixed {
        self.spec_viewport_height().spec_mul(
            self.spec_width().spec_div(Fixed::spec_from_int(self.spec_image_height() as int)),
        )
    }

    /// The vector along the horizontal edge of the viewport.
    pub open spec fn spec_viewport_u(self) -> Vec3 {
        self.spec_u().spec_scale(self.spec_viewport_width())
    }

    /// The vector down the vertical edge of the viewport, from its top to its
    /// bottom.
    pub open spec fn spec_viewport_v(self) -> Vec3 {
        self.spec_v().spec_neg().spec_scale(self.spec_viewport_height())
    }

    pub open spec fn spec_pixel_delta_u(self) -> Vec3 {
        self.spec_viewport_u().spec_div(self.spec_width())
    }

    pub open spec fn spec_pixel_delta_v(self) -> Vec3 {
        self.spec_viewport_v().spec_div(Fixed::spec_from_int(self.spec_image_height() as int))
    }

    /// The upper left corner of the viewport, from which the pixels are
    /// counted: the point in focus straight ahead, less half of each viewport
    /// edge.
    pub open spec fn spec_viewport_corner(self) -> Point3 {
        self.lookfrom.spec_sub(self.spec_w().spec_scale(self.focus_dist)).spec_sub(
            self.spec_viewport_u().spec_div(Fixed::spec_from_int(2)),
        ).spec_sub(self.spec_viewport_v().spec_div(Fixed::spec_from_int(2)))
    }

    /// The centre of pixel 0, 0: half a pixel in from the corner, both ways.
    pub open spec fn spec_pixel00_loc(self) -> Point3 {
        self.spec_viewport_corner().spec_add(
            self.spec_pixel_delta_u().spec_add(self.spec_pixel_delta_v()).spec_scale(
                Fixed::of(SCALE as int / 2),
            ),
        )
    }

    /// The radius of the defocus disk: `focus_dist tan(defocus_angle / 2)`.
    pub open spec fn spec_defocus_radius(self) -> Fixed {
        self.focus_dist.spec_mul(self.defocus_half_tan)
    }

    /// The camera with everything that follows from its configuration
    /// computed anew.
    pub open spec fn spec_initialized(self) -> Camera {
        Camera {
            image_height: self.spec_image_height(),
            pixel_samples_scale: Fixed::spec_one().spec_div(
                Fixed::spec_from_int(self.samples_per_pixel as int),
            ),
            center: self.lookfrom,
            pixel00_loc: self.spec_pixel00_loc(),
            pixel_delta_u: self.spec_pixel_delta_u(),
            pixel_delta_v: self.spec_pixel_delta_v(),
            u: self.spec_u(),
            v: self.spec_v(),
            w: self.spec_w(),
            defocus_disk_u: self.spec_u().spec_scale(self.spec_defocus_radius()),
            defocus_disk_v: self.spec_v().spec_scale(self.spec_defocus_radius()),
            ..self
        }
    }

    /// Whether the camera is ready to send rays: its configuration is sound
    /// and everything that follows from it is up to date.
    pub open spec fn is_initialized(self) -> bool {
        self.spec_config_error() is None && self == self.spec_initialized()
    }

    /// The camera of the default configuration, before it is initialized.
    pub open spec fn spec_default() -> Camera {
        Camera {
            aspect_ratio: Fixed::spec_one(),
            image_width: 100,
            samples_per_pixel: 10,
            max_depth: 10,
            vfov_half_tan: Fixed::spec_one(),
            lookfrom: Vec3::spec_zero(),
            lookat: Vec3 {
                x: Fixed::spec_zero(),
                y: Fixed::spec_zero(),
                z: Fixed::spec_one().spec_neg(),
            },
            vup: Vec3 { x: Fixed::spec_zero(), y: Fixed::spec_one(), z: Fixed::spec_zero() },
            defocus_half_tan: Fixed::spec_zero(),
            focus_dist: Fixed::spec_from_int(10),
            image_height: 100,
            pixel_samples_scale: Fixed::spec_zero(),
            center: Vec3::spec_zero(),
            pixel00_loc: Vec3::spec_zero(),
            pixel_delta_u: Vec3::spec_zero(),
            pixel_delta_v: Vec3::spec_zero(),
            u: Vec3::spec_zero(),
            v: Vec3::spec_zero(),
            w: Vec3::spec_zero(),
            defocus_disk_u: Vec3::spec_zero(),
            defocus_disk_v: Vec3::spec_zero(),
        }
    }

    /// A camera with every field given.
    pub fn new(
        aspect_ratio: Fixed,
        image_width: u32,
        samples_per_pixel: u32,
        max_depth: u32,
        vfov_half_tan: Fixed,
        lookfrom: Point3,
        lookat: Point3,
        vup: Vec3,
        defocus_half_tan: Fixed,
        focus_dist: Fixed,
        image_height: u32,
        pixel_samples_scale: Fixed,
        center: Point3,
        pixel00_loc: Point3,
        pixel_delta_u: Vec3,
        pixel_delta_v: Vec3,
        u: Vec3,
        v: Vec3,
        w: Vec3,
        defocus_disk_u: Vec3,
        defocus_disk_v: Vec3,
    ) -> (cam: Camera)
        ensures
            cam == (Camera {
                aspect_ratio,
                image_width,
                samples_per_pixel,
                max_depth,
                vfov_half_tan,
                lookfrom,
                lookat,
                vup,
                defocus_half_tan,
                focus_dist,
                image_height,
                pixel_samples_scale,
                center,
                pixel00_loc,
                pixel_delta_u,
                pixel_delta_v,
                u,
                v,
                w,
                defocus_disk_u,
                defocus_disk_v,
            }),
    {
        Camera {
            aspect_ratio,
            image_width,
            samples_per_pixel,
            max_depth,
            vfov_half_tan,
            lookfrom,
            lookat,
            vup,
            defocus_half_tan,
            focus_dist,
            image_height,
            pixel_samples_scale,
            center,
            pixel00_loc,
            pixel_delta_u,
            pixel_delta_v,
            u,
            v,
            w,
            defocus_disk_u,
            defocus_disk_v,
        }
    }

    /// What is wrong with the configuration, if anything.
    pub fn config_error(&self) -> (res: Option<CameraError>)
        ensures
            res == self.spec_config_error(),
    {
        if self.image_width == 0 || self.aspect_ratio.le(Fixed::zero()) {
            return Some(CameraError::EmptyImage);
        }
        let look_back: Vec3 = self.lookfrom.minus(self.lookat);
        if look_back.length().is_zero() {
            return Some(CameraError::DegenerateView);
        }
        if self.vup.cross(&look_back.unit_vector()).length().is_zero() {
            return Some(CameraError::DegenerateView);
        }
        None
    }

    /// The image height that the width and the aspect ratio give.
    fn height_for(&self) -> (h: u32)
        ensures
            h == self.spec_image_height(),
    {
        let candidate: Fixed = Fixed::from_int(self.image_width as i64).over(self.aspect_ratio);
        if candidate.lt(Fixed::one()) {
            1
        } else {
            let whole: i64 = candidate.trunc();
            if whole > u32::MAX as i64 {
                u32::MAX
            } else {
                proof {
                    lemma_trunc_div_bounds(candidate@, SCALE as int);
                }
                whole as u32
            }
        }
    }

    /// Whether the camera is ready to send rays: what [`Camera::initialize`]
    /// would compute is what the camera holds.
    pub fn is_ready(&self) -> (ready: bool)
        ensures
            ready == self.is_initialized(),
    {
        let mut fresh: Camera = *self;
        match fresh.initialize() {
            Ok(_) => fresh == *self,
            Err(_) => false,
        }
    }

    /// Computes everything that follows from the configuration, or says what
    /// is wrong with the configuration and leaves the camera as it is. To be
    /// called again whenever the configuration has changed.
    pub fn initialize(&mut self) -> (res: Result<(), CameraError>)
        ensures
            match res {
                Ok(_) => old(self).spec_config_error() is None && *final(self) == old(
                    self,
                ).spec_initialized() && final(self).is_initialized(),
                Err(e) => old(self).spec_config_error() == Some(e) && *final(self) == *old(self),
            },
    {
        match self.config_error() {
            Some(e) => {
                return Err(e);
            },
            None => {},
        }
        proof {
            lemma_initialize_idempotent(*self);
        }
        let width: Fixed = Fixed::from_int(self.image_width as i64);
        self.image_height = self.height_for();
        let height: Fixed = Fixed::from_int(self.image_height as i64);
        self.pixel_samples_scale = Fixed::one().over(Fixed::from_int(self.samples_per_pixel as i64));
        self.center = self.lookfrom;

        // Determine viewport dimensions.
        let viewport_height: Fixed = Fixed::from_int(2).times(self.vfov_half_tan).times(
            self.focus_dist,
        );
        let viewport_width: Fixed = viewport_height.times(width.over(height));

        // Calculate the u,v,w unit basis vectors for the camera coordinate frame.
        self.w = self.lookfrom.minus(self.lookat).unit_vector();
        self.u = self.vup.cross(&self.w).unit_vector();
        self.v = self.w.cross(&self.u);

        // Calculate the vectors across the horizontal and down the vertical viewport edges.
        let viewport_u: Vec3 = self.u.scale(viewport_width);
        let viewport_v: Vec3 = self.v.negate().scale(viewport_height);

        // Calculate the horizontal and vertical delta vectors from pixel to pixel.
        self.pixel_delta_u = viewport_u.over(width);
        self.pixel_delta_v = viewport_v.over(height);

        // Calculate the location of the upper left pixel.
        let viewport_corner: Point3 = self.center.minus(self.w.scale(self.focus_dist)).minus(
            viewport_u.over(Fixed::from_int(2)),
        ).minus(viewport_v.over(Fixed::from_int(2)));
        self.pixel00_loc = viewport_corner.plus(
            self.pixel_delta_u.plus(self.pixel_delta_v).scale(Fixed::from_raw(SCALE / 2)),
        );

        // Calculate the camera defocus disk basis vectors.
        let defocus_radius: Fixed = self.focus_dist.times(self.defocus_half_tan);
        self.defocus_disk_u = self.u.scale(defocus_radius);
        self.defocus_disk_v = self.v.scale(defocus_radius);
        Ok(())
    }

    /// Whether `offset` can come out of [`Camera::sample_square`]: it lies in
    /// the plane `z = 0`, at least half a pixel before the centre and less
    /// than half a pixel after it, both ways.
    pub open spec fn is_square_sample(offset: Vec3) -> bool {
        &&& -(SCALE as int) / 2 <= offset.x@ < SCALE as int / 2
        &&& -(SCALE as int) / 2 <= offset.y@ < SCALE as int / 2
        &&& offset.z@ == 0
    }

    /// The point of the viewport that `offset` names in pixel `i`, `j`.
    pub open spec fn spec_pixel_sample(self, i: u32, j: u32, offset: Vec3) -> Point3 {
        self.pixel00_loc.spec_add(
            self.pixel_delta_u.spec_scale(Fixed::spec_from_int(i as int).spec_add(offset.x)),
        ).spec_add(self.pixel_delta_v.spec_scale(Fixed::spec_from_int(j as int).spec_add(offset.y)))
    }

    /// The point of the defocus disk that the point `p` of the unit disk
    /// names.
    pub open spec fn spec_defocus_point(self, p: Vec3) -> Point3 {
        self.center.spec_add(self.defocus_disk_u.spec_scale(p.x)).spec_add(
            self.defocus_disk_v.spec_scale(p.y),
        )
    }

    /// Whether a ray can start at `origin`: at the centre where there is no
    /// depth of field, and else at a point of the defocus disk.
    pub open spec fn is_ray_origin(self, origin: Point3) -> bool {
        if self.defocus_half_tan@ <= 0 {
            origin == self.center
        } else {
            exists|p: Vec3|
                Vec3::is_disk_sample(p) && origin == #[trigger] self.spec_defocus_point(p)
        }
    }

    /// The ray from `origin` through the point that `offset` names in pixel
    /// `i`, `j`.
    pub open spec fn spec_ray_toward(self, i: u32, j: u32, offset: Vec3, origin: Point3) -> Ray {
        Ray { origin, direction: self.spec_pixel_sample(i, j, offset).spec_sub(origin) }
    }

    /// Whether `ray` can come out of [`Camera::get_ray`] for pixel `i`, `j`.
    pub open spec fn is_camera_ray(self, i: u32, j: u32, ray: Ray) -> bool {
        exists|offset: Vec3, origin: Point3|
            Camera::is_square_sample(offset) && self.is_ray_origin(origin) && ray
                == #[trigger] self.spec_ray_toward(i, j, offset, origin)
    }

    /// A point drawn from the square of a pixel, about its centre.
    pub fn sample_square() -> (offset: Vec3)
        ensures
            Camera::is_square_sample(offset),
    {
        proof {
            broadcast use {Fixed::lemma_view_of, Fixed::lemma_view_range};

        }
        let half: Fixed = Fixed::from_raw(SCALE / 2);
        Vec3::new(random_double().minus(half), random_double().minus(half), Fixed::zero())
    }

    /// The point of the defocus disk that the point `p` of the unit disk
    /// names. The camera must be initialized.
    pub fn defocus_point(&self, p: &Vec3) -> (origin: Point3)
        requires
            self.is_initialized(),
        ensures
            origin == self.spec_defocus_point(*p),
    {
        self.center.plus(self.defocus_disk_u.scale(p.x())).plus(self.defocus_disk_v.scale(p.y()))
    }

    /// A point drawn from the defocus disk. The camera must be initialized.
    pub fn defocus_disk_sample(&self) -> (origin: Point3)
        requires
            self.is_initialized(),
        ensures
            exists|p: Vec3|
                Vec3::is_disk_sample(p) && origin == #[trigger] self.spec_defocus_point(p),
    {
        let p: Vec3 = Vec3::random_in_unit_disk();
        self.defocus_point(&p)
    }

    /// The ray from `origin` through the point that `offset` names in pixel
    /// `i`, `j`. The camera must be initialized.
    pub fn ray_toward(&self, i: u32, j: u32, offset: &Vec3, origin: Point3) -> (ray: Ray)
        requires
            self.is_initialized(),
        ensures
            ray == self.spec_ray_toward(i, j, *offset, origin),
    {
        let pixel_sample: Point3 = self.pixel00_loc.plus(
            self.pixel_delta_u.scale(Fixed::from_int(i as i64).plus(offset.x())),
        ).plus(self.pixel_delta_v.scale(Fixed::from_int(j as i64).plus(offset.y())));
        Ray::new(origin, pixel_sample.minus(origin))
    }

    /// A ray through a point drawn from pixel `i`, `j`. It starts at the
    /// camera centre, or at a point drawn from the defocus disk where there
    /// is depth of field. The camera must be initialized, and initialized
    /// again after any change of its configuration: [`Camera::is_ready`]
    /// tells.
    pub fn get_ray(&self, i: u32, j: u32) -> (ray: Ray)
        requires
            self.is_initialized(),
        ensures
            self.is_camera_ray(i, j, ray),
    {
        let offset: Vec3 = Camera::sample_square();
        let ray_origin: Point3 = if self.defocus_half_tan.le(Fixed::zero()) {
            self.center
        } else {
            self.defocus_disk_sample()
        };
        self.ray_toward(i, j, &offset, ray_origin)
    }

    /// The ray parameters at which a hit counts: from a thousandth on.
    pub open spec fn spec_visible() -> Interval {
        Interval { min: Fixed::of(SHADOW_ACNE_RAW as int), max: Fixed::spec_max_value() }
    }

    /// How far up a ray points, from zero for straight down to one for
    /// straight up.
    pub open spec fn spec_sky_blend(r: Ray) -> Fixed {
        r.direction.spec_unit_vector().y.spec_add(Fixed::spec_one()).spec_mul(
            Fixed::of(SCALE as int / 2),
        )
    }

    /// The colour of a clear sky at its highest.
    pub open spec fn spec_sky_blue() -> Color {
        Vec3 {
            x: Fixed::of(SCALE as int / 2),
            y: Fixed::of(7 * (SCALE as int / 10)),
            z: Fixed::spec_one(),
        }
    }

    pub open spec fn spec_white() -> Color {
        Vec3 { x: Fixed::spec_one(), y: Fixed::spec_one(), z: Fixed::spec_one() }
    }

    /// The colour of the sky where the ray `r` leaves the scene: white
    /// blended into blue, the more blue the higher the ray points.
    pub open spec fn spec_background(r: Ray) -> Color {
        let a = Camera::spec_sky_blend(r);
        Camera::spec_white().spec_scale(Fixed::spec_one().spec_sub(a)).spec_add(
            Camera::spec_sky_blue().spec_scale(a),
        )
    }

    /// Whether `c` is a colour that the path of the ray `r` can gather in
    /// the scene `world` with `depth` bounces left. Where none is left it is
    /// black. Where the ray hits nothing it is the sky. Else the ray goes on
    /// from the nearest hit in one of the ways of the material there: where
    /// that absorbs it, the colour is black, and where it scatters it, the
    /// colour is the filter colour times a colour that the path of the
    /// scattered ray can gather with one bounce less.
    pub open spec fn is_path_color<T: Hittable>(r: Ray, depth: nat, world: &T, c: Color) -> bool
        decreases depth,
    {
        if depth == 0 {
            c == Vec3::spec_zero()
        } else {
            match world.spec_hit(r, Camera::spec_visible()) {
                Some(rec) => exists|out: Option<(Color, Ray)>|
                    #[trigger] rec.mat.spec_scatters(r, rec, out) && match out {
                        None => c == Vec3::spec_zero(),
                        Some(pair) => exists|gathered: Color|
                            Camera::is_path_color(pair.1, (depth - 1) as nat, world, gathered)
                                && c == #[trigger] pair.0.spec_mul(gathered),
                    },
                None => c == Camera::spec_background(r),
            }
        }
    }

    /// The colour of the sky where the ray `r` leaves the scene. Each
    /// channel lies between that of the sky blue and that of white.
    pub fn background(r: &Ray) -> (c: Color)
        ensures
            c == Camera::spec_background(*r),
            SCALE as int / 2 <= c.x@ <= SCALE as int,
            7 * (SCALE as int / 10) <= c.y@ <= SCALE as int,
            c.z@ == SCALE as int,
            c.in_unit_cube(),
    {
        proof {
            lemma_background_bounds(*r);
        }
        let unit_direction: Vec3 = r.direction().unit_vector();
        let a: Fixed = unit_direction.y().plus(Fixed::one()).times(Fixed::from_raw(SCALE / 2));
        let white: Color = Color::new(Fixed::one(), Fixed::one(), Fixed::one());
        let sky_blue: Color = Color::new(
            Fixed::from_raw(SCALE / 2),
            Fixed::from_raw(7 * (SCALE / 10)),
            Fixed::one(),
        );
        white.scale(Fixed::one().minus(a)).plus(sky_blue.scale(a))
    }

    /// A colour that the path of `r` gathers in `world`, with at most
    /// `depth` bounces. In a scene that gives back no more light than it
    /// gets, no channel of it is below zero or above one.
    pub fn ray_color<T: Hittable>(r: &Ray, depth: u32, world: &T) -> (c: Color)
        ensures
            Camera::is_path_color(*r, depth as nat, world, c),
            world.is_non_emissive() ==> c.in_unit_cube(),
        decreases depth,
    {
        let c: Color = if depth == 0 {
            Color::default()
        } else {
            let visible: Interval = Interval::new(
                Fixed::from_raw(SHADOW_ACNE_RAW),
                Fixed::max_value(),
            );
            match world.hit(r, visible) {
                Some(rec) => {
                    match rec.mat.scatter(r, &rec) {
                        Some((attenuation, scattered)) => {
                            let gathered: Color = Camera::ray_color(&scattered, depth - 1, world);
                            attenuation.times(gathered)
                        },
                        None => Color::default(),
                    }
                },
                None => Camera::background(r),
            }
        };
        proof {
            if world.is_non_emissive() {
                lemma_path_color_in_unit_cube(*r, depth as nat, world, c);
            }
        }
        c
    }

    /// Whether `c` is a sum that `count` samples of pixel `i`, `j` can
    /// give: each sample is a colour that the path of a camera ray through
    /// the pixel can gather in `world`.
    pub open spec fn is_sample_sum<T: Hittable>(
        self,
        i: u32,
        j: u32,
        world: &T,
        count: nat,
        c: Color,
    ) -> bool
        decreases count,
    {
        if count == 0 {
            c == Vec3::spec_zero()
        } else {
            exists|before: Color, ray: Ray, sample: Color|
                #![trigger before.spec_add(sample), self.is_camera_ray(i, j, ray)]
                self.is_sample_sum(i, j, world, (count - 1) as nat, before) && self.is_camera_ray(
                    i,
                    j,
                    ray,
                ) && Camera::is_path_color(ray, self.max_depth as nat, world, sample) && c
                    == before.spec_add(sample)
        }
    }

    /// Whether no channel of `c` is below zero or above `count`.
    pub open spec fn is_sum_of_unit_colors(count: nat, c: Color) -> bool {
        &&& 0 <= c.x@ <= count * SCALE as int
        &&& 0 <= c.y@ <= count * SCALE as int
        &&& 0 <= c.z@ <= count * SCALE as int
    }

    /// Whether `c` is a sum that the samples of pixel `i`, `j` can give. In
    /// a scene that gives back no more light than it gets, no channel of it
    /// is below zero or above the number of samples.
    pub open spec fn is_pixel_color<T: Hittable>(self, i: u32, j: u32, world: &T, c: Color) -> bool {
        &&& self.is_sample_sum(i, j, world, self.samples_per_pixel as nat, c)
        &&& world.is_non_emissive() ==> Camera::is_sum_of_unit_colors(
            self.samples_per_pixel as nat,
            c,
        )
    }

    /// The column of the pixel that is written at position `k`: the rows are
    /// written from the first, which is the top of the image, to the last,
    /// each from its first pixel on.
    pub open spec fn spec_column(self, k: int) -> u32 {
        (k % self.image_width as int) as u32
    }

    /// The row of the pixel that is written at position `k`.
    pub open spec fn spec_row(self, k: int) -> u32 {
        (k / self.image_width as int) as u32
    }

    /// Whether `pixels` are sums that the samples of the pixels of the image
    /// can give, in the order in which the pixels are written.
    pub open spec fn is_image<T: Hittable>(self, world: &T, pixels: Seq<Color>) -> bool {
        &&& pixels.len() == self.image_width * self.image_height
        &&& forall|k: int|
            0 <= k < pixels.len() ==> self.is_pixel_color(
                self.spec_column(k),
                self.spec_row(k),
                world,
                #[trigger] pixels[k],
            )
    }

    /// The sums `pixels`, each scaled by `scale`, as lines of a plain
    /// pixmap.
    pub open spec fn spec_lines(pixels: Seq<Color>, scale: Fixed) -> Seq<u8>
        decreases pixels.len(),
    {
        if pixels.len() == 0 {
            Seq::empty()
        } else {
            Camera::spec_lines(pixels.drop_last(), scale) + color_line(
                pixels.last().spec_scale(scale),
            )
        }
    }

    /// The header of a plain pixmap `width` pixels wide and `height` pixels
    /// high, with 255 for the largest channel value: the lines `P3`, the
    /// width and the height with a space between, and `255`.
    pub open spec fn spec_header(width: u32, height: u32) -> Seq<u8> {
        seq![80u8, 51u8, 10u8] + decimal_digits(width as nat) + seq![32u8] + decimal_digits(
            height as nat,
        ) + seq![10u8, 50u8, 53u8, 53u8, 10u8]
    }

    /// The plain pixmap of the image whose pixel sums are `pixels`.
    pub open spec fn spec_ppm(self, pixels: Seq<Color>) -> Seq<u8> {
        Camera::spec_header(self.image_width, self.image_height) + Camera::spec_lines(
            pixels,
            self.pixel_samples_scale,
        )
    }

    /// The sum of the samples of pixel `i`, `j`: for each sample a ray is
    /// sent through the pixel and the colour that its path gathers in
    /// `world` is added. The camera must be initialized.
    pub fn pixel_color<T: Hittable>(&self, i: u32, j: u32, world: &T) -> (c: Color)
        requires
            self.is_initialized(),
        ensures
            self.is_pixel_color(i, j, world, c),
    {
        let mut pixel_color: Color = Color::default();
        let mut taken: u32 = 0;
        proof {
            broadcast use Fixed::lemma_view_of;

        }
        while taken < self.samples_per_pixel
            invariant
                self.is_initialized(),
                taken <= self.samples_per_pixel,
                self.is_sample_sum(i, j, world, taken as nat, pixel_color),
                world.is_non_emissive() ==> Camera::is_sum_of_unit_colors(
                    taken as nat,
                    pixel_color,
                ),
            decreases self.samples_per_pixel - taken,
        {
            let r: Ray = self.get_ray(i, j);
            let sample: Color = Camera::ray_color(&r, self.max_depth, world);
            proof {
                broadcast use {Fixed::lemma_view_of, Fixed::lemma_view_range};

                assert((taken + 1) * SCALE as int == taken * SCALE as int + SCALE as int)
                    by (nonlinear_arith);
                assert((taken + 1) * SCALE as int <= 4_294_967_295 * 1_000_000_000int)
                    by (nonlinear_arith)
                    requires
                        taken + 1 <= 4_294_967_295,
                        SCALE as int == 1_000_000_000,
                ;
            }
            pixel_color = pixel_color.plus(sample);
            taken += 1;
        }
        pixel_color
    }

    /// The sums of the samples of the pixels of row `j`, from the first
    /// pixel of the row on. The pixels are handed out to the threads of
    /// rayon by `into_par_iter` on the range of their columns; `map` calls
    /// [`Camera::pixel_color`] for each, and `collect` puts the sums into a
    /// vector in the order of the columns, as it does for any range.
    #[verifier::external_body]
    fn pixel_row<T: Hittable>(&self, j: u32, world: &T) -> (row: Vec<Color>)
        requires
            self.is_initialized(),
        ensures
            row@.len() == self.image_width,
            forall|i: int|
                0 <= i < row@.len() ==> self.is_pixel_color(i as u32, j, world, #[trigger] row@[i]),
    {
        (0..self.image_width).into_par_iter().map(|i| self.pixel_color(i, j, world)).collect()
    }

    /// Appends the header of a plain pixmap to `out`.
    pub fn write_header(out: &mut Vec<u8>, width: u32, height: u32)
        ensures
            final(out)@ == old(out)@ + Camera::spec_header(width, height),
    {
        out.push(80);
        out.push(51);
        out.push(10);
        push_decimal(out, width);
        out.push(32);
        push_decimal(out, height);
        out.push(10);
        out.push(50);
        out.push(53);
        out.push(53);
        out.push(10);
        assert(final(out)@ =~= old(out)@ + Camera::spec_header(width, height));
    }

    /// Initializes the camera and renders `world` as a plain pixmap: the
    /// header, then a line for each pixel, the rows from the top of the image
    /// to the bottom and each row from left to right. Each pixel is the
    /// average of its samples. A camera whose configuration is unsound
    /// renders nothing and stays as it is.
    pub fn render<T: Hittable>(&mut self, world: &T) -> (res: Result<Vec<u8>, CameraError>)
        ensures
            match res {
                Ok(bytes) => {
                    &&& old(self).spec_config_error() is None
                    &&& *final(self) == old(self).spec_initialized()
                    &&& exists|pixels: Seq<Color>|
                        final(self).is_image(world, pixels)
                            && bytes@ == #[trigger] final(self).spec_ppm(pixels)
                },
                Err(e) => old(self).spec_config_error() == Some(e) && *final(self) == *old(self),
            },
    {
        match self.initialize() {
            Err(e) => {
                return Err(e);
            },
            Ok(_) => {},
        }
        let width: u32 = self.image_width;
        let height: u32 = self.image_height;
        let mut out: Vec<u8> = Vec::new();
        Camera::write_header(&mut out, width, height);
        let ghost mut pixels: Seq<Color> = Seq::empty();
        let mut rows_done: u32 = 0;
        while rows_done < height
            invariant
                self.is_initialized(),
                rows_done <= height,
                width == self.image_width,
                height == self.image_height,
                width > 0,
                pixels.len() == rows_done * width,
                forall|k: int|
                    0 <= k < pixels.len() ==> self.is_pixel_color(
                        self.spec_column(k),
                        self.spec_row(k),
                        world,
                        #[trigger] pixels[k],
                    ),
                out@ == self.spec_ppm(pixels),
            decreases height - rows_done,
        {
            let row: Vec<Color> = self.pixel_row(rows_done, world);
            let mut i: usize = 0;
            while i < row.len()
                invariant
                    self.is_initialized(),
                    i <= row.len(),
                    row@.len() == width,
                    rows_done < height,
                    width == self.image_width,
                    height == self.image_height,
                    width > 0,
                    forall|c: int|
                        0 <= c < row@.len() ==> self.is_pixel_color(
                            c as u32,
                            rows_done,
                            world,
                            #[trigger] row@[c],
                        ),
                    pixels.len() == rows_done * width + i,
                    forall|k: int|
                        0 <= k < pixels.len() ==> self.is_pixel_color(
                            self.spec_column(k),
                            self.spec_row(k),
                            world,
                            #[trigger] pixels[k],
                        ),
                    out@ == self.spec_ppm(pixels),
                decreases row.len() - i,
            {
                let averaged: Color = row[i].scale(self.pixel_samples_scale);
                write_color(&mut out, &averaged);
                proof {
                    let k = pixels.len() as int;
                    let next = pixels.push(row@[i as int]);
                    assert(next.drop_last() =~= pixels);
                    assert(k / width as int == rows_done && k % width as int == i)
                        by (nonlinear_arith)
                        requires
                            k == rows_done * width + i,
                            0 <= i < width,
                            0 <= rows_done,
                    ;
                    assert forall|m: int| 0 <= m < next.len() implies self.is_pixel_color(
                        self.spec_column(m),
                        self.spec_row(m),
                        world,
                        #[trigger] next[m],
                    ) by {
                        if m < k {
                            assert(next[m] == pixels[m]);
                        }
                    }
                    pixels = next;
                }
                i += 1;
            }
            proof {
                assert((rows_done + 1) * width == rows_done * width + width) by (nonlinear_arith);
            }
            rows_done += 1;
        }
        proof {
            assert(rows_done * width == self.image_width * self.image_height) by (nonlinear_arith)
                requires
                    rows_done == self.image_height,
                    width == self.image_width,
            ;
        }
        Ok(out)
    }
}

/// In a scene that gives back no more light than it gets, no channel of a
/// colour that a path can gather is below zero or above one, however many
/// bounces the path may take.
pub proof fn lemma_path_color_in_unit_cube<T: Hittable>(r: Ray, depth: nat, world: &T, c: Color)
    requires
        world.is_non_emissive(),
        Camera::is_path_color(r, depth, world, c),
    ensures
        c.in_unit_cube(),
    decreases depth,
{
    if depth == 0 {
        lemma_black_in_unit_cube();
    } else {
        match world.spec_hit(r, Camera::spec_visible()) {
            Some(rec) => {
                world.lemma_hit_inside(r, Camera::spec_visible());
                let out = choose|out: Option<(Color, Ray)>|
                    #[trigger] rec.mat.spec_scatters(r, rec, out) && match out {
                        None => c == Vec3::spec_zero(),
                        Some(pair) => exists|gathered: Color|
                            Camera::is_path_color(pair.1, (depth - 1) as nat, world, gathered)
                                && c == #[trigger] pair.0.spec_mul(gathered),
                    };
                rec.mat.lemma_filter_in_unit_cube(r, rec, out);
                match out {
                    Some(pair) => {
                        let gathered = choose|gathered: Color|
                            Camera::is_path_color(pair.1, (depth - 1) as nat, world, gathered)
                                && c == #[trigger] pair.0.spec_mul(gathered);
                        lemma_path_color_in_unit_cube(pair.1, (depth - 1) as nat, world, gathered);
                        lemma_filtered_in_unit_cube(pair.0, gathered);
                    },
                    None => {
                        lemma_black_in_unit_cube();
                    },
                }
            },
            None => {
                lemma_background_bounds(r);
            },
        }
    }
}

/// The average of the samples of a pixel lies in the unit cube where each
/// sample does: a sum of at most `count`, scaled by the inverse of `count`.
pub proof fn lemma_average_in_unit_cube(sum: Color, count: u32)
    requires
        Camera::is_sum_of_unit_colors(count as nat, sum),
    ensures
        sum.spec_scale(
            Fixed::spec_one().spec_div(Fixed::spec_from_int(count as int)),
        ).in_unit_cube(),
{
    crate::fixed::lemma_average_unit(sum.x, count as int);
    crate::fixed::lemma_average_unit(sum.y, count as int);
    crate::fixed::lemma_average_unit(sum.z, count as int);
}

/// The sky is written with the most blue, at least as much green as red, and
/// no less red and green than the sky blue has.
pub proof fn lemma_sky_bytes(r: Ray)
    ensures
        181 <= channel_byte(Camera::spec_background(r).x) <= channel_byte(
            Camera::spec_background(r).y,
        ) <= channel_byte(Camera::spec_background(r).z),
        214 <= channel_byte(Camera::spec_background(r).y),
        channel_byte(Camera::spec_background(r).z) == 255,
{
    let sky = Camera::spec_background(r);
    lemma_background_bounds(r);
    lemma_channel_byte_of_raw(sky.x);
    lemma_channel_byte_of_raw(sky.y);
    lemma_channel_byte_of_raw(sky.z);
    lemma_byte_values();
    lemma_byte_monotone(500_000_000, sky.x@);
    lemma_byte_monotone(700_000_000, sky.y@);
    lemma_byte_monotone(sky.x@, sky.y@);
    lemma_byte_monotone(sky.y@, sky.z@);
}

/// A scene without anything to hit is rendered as nothing but sky, whatever
/// is drawn: with one sample for each pixel and at least one bounce, every
/// pixel is written with the bytes of the sky along some camera ray through
/// it. Its blue byte is 255, its green byte is at least 214, its red byte is
/// at least 181, and red is no more than green.
pub proof fn lemma_empty_scene_is_sky<T: Hittable>(
    cam: Camera,
    world: &T,
    pixels: Seq<Color>,
    k: int,
)
    requires
        cam.is_initialized(),
        cam.samples_per_pixel == 1,
        cam.max_depth >= 1,
        forall|r: Ray, ray_t: Interval| (#[trigger] world.spec_hit(r, ray_t)) is None,
        cam.is_image(world, pixels),
        0 <= k < pixels.len(),
    ensures
        ({
            let written = pixels[k].spec_scale(cam.pixel_samples_scale);
            &&& exists|ray: Ray|
                #![trigger cam.is_camera_ray(cam.spec_column(k), cam.spec_row(k), ray)]
                cam.is_camera_ray(cam.spec_column(k), cam.spec_row(k), ray) && color_line(written)
                    == color_line(Camera::spec_background(ray))
            &&& 181 <= channel_byte(written.x) <= channel_byte(written.y) <= 255
            &&& 214 <= channel_byte(written.y)
            &&& channel_byte(written.z) == 255
        }),
{
    broadcast use {Fixed::lemma_view_of, Fixed::lemma_view_range};

    let (i, j) = (cam.spec_column(k), cam.spec_row(k));
    let sum = pixels[k];
    assert(cam.is_pixel_color(i, j, world, sum));
    assert(cam.is_sample_sum(i, j, world, 1, sum));
    let (before, ray, sample) = choose|before: Color, ray: Ray, sample: Color|
        #![trigger before.spec_add(sample), cam.is_camera_ray(i, j, ray)]
        cam.is_sample_sum(i, j, world, 0, before) && cam.is_camera_ray(i, j, ray)
            && Camera::is_path_color(ray, cam.max_depth as nat, world, sample) && sum
            == before.spec_add(sample);
    assert(before == Vec3::spec_zero());
    assert(world.spec_hit(ray, Camera::spec_visible()) is None);
    let sky = Camera::spec_background(ray);
    assert(sample == sky);
    // One sample is averaged by one.
    let scale = cam.pixel_samples_scale;
    assert(scale == Fixed::spec_one().spec_div(Fixed::spec_from_int(1)));
    assert(trunc_div(SCALE as int * SCALE as int, SCALE as int) == SCALE as int)
        by (nonlinear_arith)
        requires
            SCALE as int == 1_000_000_000,
    ;
    assert(scale@ == SCALE as int);
    let written = sum.spec_scale(scale);
    crate::fixed::lemma_mul_axis(sum.x, scale);
    crate::fixed::lemma_mul_axis(sum.y, scale);
    crate::fixed::lemma_mul_axis(sum.z, scale);
    assert(written.x@ == sky.x@ && written.y@ == sky.y@ && written.z@ == sky.z@);
    lemma_channel_byte_of_raw(written.x);
    lemma_channel_byte_of_raw(written.y);
    lemma_channel_byte_of_raw(written.z);
    lemma_channel_byte_of_raw(sky.x);
    lemma_channel_byte_of_raw(sky.y);
    lemma_channel_byte_of_raw(sky.z);
    lemma_sky_bytes(ray);
}

/// Black lies in the unit cube.
pub proof fn lemma_black_in_unit_cube()
    ensures
        Vec3::spec_zero().in_unit_cube(),
{
    broadcast use Fixed::lemma_view_of;

}

/// A colour of the unit cube filtered by another stays in the unit cube.
pub proof fn lemma_filtered_in_unit_cube(filter: Color, c: Color)
    requires
        filter.in_unit_cube(),
        c.in_unit_cube(),
    ensures
        filter.spec_mul(c).in_unit_cube(),
{
    crate::fixed::lemma_mul_unit(filter.x, c.x);
    crate::fixed::lemma_mul_unit(filter.y, c.y);
    crate::fixed::lemma_mul_unit(filter.z, c.z);
}

/// Each channel of the sky lies between that of the sky blue and that of
/// white.
pub proof fn lemma_background_bounds(r: Ray)
    ensures
        SCALE as int / 2 <= Camera::spec_background(r).x@ <= SCALE as int,
        7 * (SCALE as int / 10) <= Camera::spec_background(r).y@ <= SCALE as int,
        Camera::spec_background(r).z@ == SCALE as int,
        Camera::spec_background(r).x@ <= Camera::spec_background(r).y@,
        Camera::spec_background(r).in_unit_cube(),
{
    broadcast use {Fixed::lemma_view_of, Fixed::lemma_view_range};

    let s = SCALE as int;
    lemma_unit_vector_bounds(r.direction);
    let y = r.direction.spec_unit_vector().y@;
    let blend = Camera::spec_sky_blend(r);
    let a = blend@;
    assert(a == (y + s) / 2 && 0 <= a <= s) by {
        let p = (y + s) * (s / 2);
        assert(p >= 0 && p == ((y + s) * 500_000_000) && trunc_div(p, s) == (y + s) / 2)
            by (nonlinear_arith)
            requires
                p == (y + s) * (s / 2),
                0 <= y + s,
                s == 1_000_000_000,
        ;
    }
    let rest = Fixed::spec_one().spec_sub(blend);
    assert(rest@ == s - a);
    // White, thinned.
    assert(Fixed::spec_one().spec_mul(rest)@ == s - a) by {
        assert(trunc_div(s * (s - a), s) == s - a) by (nonlinear_arith)
            requires
                s == 1_000_000_000,
                0 <= s - a,
        ;
    }
    // Blue, thickened.
    assert(Fixed::of(s / 2).spec_mul(blend)@ == a / 2) by {
        assert(trunc_div((s / 2) * a, s) == a / 2) by (nonlinear_arith)
            requires
                s == 1_000_000_000,
                0 <= a,
        ;
    }
    assert(Fixed::of(7 * (s / 10)).spec_mul(blend)@ == (7 * a) / 10) by {
        assert(trunc_div((7 * (s / 10)) * a, s) == (7 * a) / 10) by (nonlinear_arith)
            requires
                s == 1_000_000_000,
                0 <= a,
        ;
    }
    assert(Fixed::spec_one().spec_mul(blend)@ == a) by {
        assert(trunc_div(s * a, s) == a) by (nonlinear_arith)
            requires
                s == 1_000_000_000,
                0 <= a,
        ;
    }
}

impl Default for Camera {
    /// A square image a hundred pixels wide, seen from the origin along the
    /// negative `z` axis at a right view angle, with ten samples per pixel,
    /// ten bounces and no depth of field.
    fn default() -> (cam: Camera)
        ensures
            cam == Camera::spec_default(),
    {
        Camera {
            aspect_ratio: Fixed::one(),
            image_width: 100,
            samples_per_pixel: 10,
            max_depth: 10,
            vfov_half_tan: Fixed::one(),
            lookfrom: Vec3::default(),
            lookat: Point3::new(Fixed::zero(), Fixed::zero(), Fixed::one().negate()),
            vup: Vec3::new(Fixed::zero(), Fixed::one(), Fixed::zero()),
            defocus_half_tan: Fixed::zero(),
            focus_dist: Fixed::from_int(10),
            image_height: 100,
            pixel_samples_scale: Fixed::zero(),
            center: Vec3::default(),
            pixel00_loc: Vec3::default(),
            pixel_delta_u: Vec3::default(),
            pixel_delta_v: Vec3::default(),
            u: Vec3::default(),
            v: Vec3::default(),
            w: Vec3::default(),
            defocus_disk_u: Vec3::default(),
            defocus_disk_v: Vec3::default(),
        }
    }
}

/// Initializing a camera twice gives what initializing it once gives: what
/// is computed depends on the configuration alone, which stays as it is.
pub proof fn lemma_initialize_idempotent(cam: Camera)
    ensures
        cam.spec_initialized().spec_initialized() == cam.spec_initialized(),
        cam.spec_initialized().spec_config_error() == cam.spec_config_error(),
{
}

} // verus!
