//! A Monte Carlo path tracer over decimal fixed-point numbers.
//!
//! A camera sends rays through the pixels of an image into a scene of
//! spheres. Each ray bounces off the surfaces it meets, picking up their
//! colour, until it is absorbed, runs out of bounces or leaves for the sky.
//! All arithmetic is done on [`fixed::Fixed`], so every result is stated and
//! proved exactly, rounding included. The only source of chance is
//! [`random_double`].

pub mod camera;
pub mod fixed;
pub mod hittable;
pub mod hittable_list;
pub mod interval;
pub mod material;
pub mod ray;
pub mod sphere;
pub mod vec3;

use crate::fixed::{int_sqrt, trunc_div, Fixed, SCALE};
use crate::interval::Interval;
use crate::vec3::Color;
use rand::Rng;
use vstd::prelude::*;

verus! {

/// The largest channel intensity that is written, in raw units: 0.999.
pub const INTENSITY_MAX_RAW: i64 = 999_000_000;

/// The gamma-2 encoding of a linear colour channel: its square root, and zero
/// for a channel that is not positive.
pub open spec fn spec_linear_to_gamma(linear_component: Fixed) -> Fixed {
    if linear_component@ > 0 {
        linear_component.spec_sqrt()
    } else {
        Fixed::spec_zero()
    }
}

/// The intensities that are written: from 0 to 0.999.
pub open spec fn spec_intensity() -> Interval {
    Interval { min: Fixed::spec_zero(), max: Fixed::of(INTENSITY_MAX_RAW as int) }
}

/// The byte written for a linear colour channel: the gamma-encoded channel,
/// clamped to the written intensities, times 256, rounded down.
pub open spec fn channel_byte(linear_component: Fixed) -> int {
    Fixed::spec_from_int(256).spec_mul(
        spec_intensity().spec_clamp(spec_linear_to_gamma(linear_component)),
    ).spec_trunc()
}

/// The decimal digits of `n` in ASCII, without leading zeros.
pub open spec fn decimal_digits(n: nat) -> Seq<u8>
    decreases n,
{
    if n < 10 {
        seq![(48 + n) as u8]
    } else {
        decimal_digits(n / 10).push((48 + n % 10) as u8)
    }
}

/// The line written for a pixel: its three channel bytes in decimal, separated
/// by single spaces and ended by a newline.
pub open spec fn color_line(pixel_color: Color) -> Seq<u8> {
    decimal_digits(channel_byte(pixel_color.x) as nat) + seq![32u8] + decimal_digits(
        channel_byte(pixel_color.y) as nat,
    ) + seq![32u8] + decimal_digits(channel_byte(pixel_color.z) as nat) + seq![10u8]
}

/// The point of the way from `min` to `max` that `unit` names: `min` for
/// zero, and just short of `max` for the largest number below one.
pub open spec fn spec_range_point(min: Fixed, max: Fixed, unit: Fixed) -> Fixed {
    min.spec_add(max.spec_sub(min).spec_mul(unit))
}

/// Whether `unit` can come out of [`random_double`]: it is at least zero and
/// less than one.
pub open spec fn is_unit_draw(unit: Fixed) -> bool {
    0 <= unit@ < SCALE as int
}

/// Every channel byte fits in a byte.
pub proof fn lemma_channel_byte_range(linear_component: Fixed)
    ensures
        0 <= channel_byte(linear_component) <= 255,
{
    broadcast use {Fixed::lemma_view_of, Fixed::lemma_view_range};

    let g = spec_intensity().spec_clamp(spec_linear_to_gamma(linear_component));
    assert(0 <= g@ <= INTENSITY_MAX_RAW as int);
    let m = 256 * SCALE as int;
    assert(Fixed::spec_from_int(256)@ == m);
    let p = m * g@;
    assert(p == (256 * g@) * SCALE as int) by (nonlinear_arith)
        requires
            p == m * g@,
            m == 256 * SCALE as int,
    ;
    assert(trunc_div(p, SCALE as int) == 256 * g@) by (nonlinear_arith)
        requires
            p == (256 * g@) * SCALE as int,
            g@ >= 0,
            SCALE as int == 1_000_000_000,
    ;
}

/// The byte written for a linear colour channel of `x` billionths: 256 times
/// the root of the channel, capped at 0.999, rounded down.
pub open spec fn byte_of_raw(x: int) -> int {
    let root = if x > 0 {
        int_sqrt(x * SCALE as int)
    } else {
        0
    };
    let capped = if root > INTENSITY_MAX_RAW as int {
        INTENSITY_MAX_RAW as int
    } else {
        root
    };
    (256 * capped) / (SCALE as int)
}

/// The byte written for a channel depends on its count of billionths alone.
pub proof fn lemma_channel_byte_of_raw(linear_component: Fixed)
    ensures
        channel_byte(linear_component) == byte_of_raw(linear_component@),
{
    broadcast use {Fixed::lemma_view_of, Fixed::lemma_view_range};

    let s = SCALE as int;
    let x = linear_component@;
    let gamma = spec_linear_to_gamma(linear_component);
    if x > 0 {
        let n = x * s;
        assert(0 <= n <= 0x7fff_ffff_ffff_ffff * 1_000_000_000) by (nonlinear_arith)
            requires
                n == x * s,
                0 < x <= 0x7fff_ffff_ffff_ffff,
                s == 1_000_000_000,
        ;
        crate::fixed::lemma_int_sqrt_exists(n);
        let r = int_sqrt(n);
        assert(r <= 0x7fff_ffff_ffff_ffff) by (nonlinear_arith)
            requires
                r >= 0,
                r * r <= n,
                n <= 0x7fff_ffff_ffff_ffff * 1_000_000_000,
        ;
        assert(gamma@ == r);
    } else {
        assert(gamma@ == 0);
    }
    let g = spec_intensity().spec_clamp(gamma);
    assert(0 <= g@ <= INTENSITY_MAX_RAW as int);
    let m = 256 * s;
    assert(Fixed::spec_from_int(256)@ == m);
    let p = m * g@;
    assert(p == (256 * g@) * s) by (nonlinear_arith)
        requires
            p == m * g@,
            m == 256 * s,
    ;
    assert(trunc_div(p, s) == 256 * g@) by (nonlinear_arith)
        requires
            p == (256 * g@) * s,
            g@ >= 0,
            s == 1_000_000_000,
    ;
}

/// A brighter channel is written as no smaller a byte.
pub proof fn lemma_byte_monotone(x: int, y: int)
    requires
        x <= y,
    ensures
        byte_of_raw(x) <= byte_of_raw(y),
{
    let s = SCALE as int;
    if y > 0 {
        assert(0 <= y * s) by (nonlinear_arith)
            requires
                y > 0,
                s > 0,
        ;
        crate::fixed::lemma_int_sqrt_exists(y * s);
        if x > 0 {
            assert(0 <= x * s <= y * s) by (nonlinear_arith)
                requires
                    0 < x <= y,
                    s > 0,
            ;
            crate::fixed::lemma_int_sqrt_monotone(x * s, y * s);
        }
    }
}

/// The bytes written for a half, for seven tenths and for one.
pub proof fn lemma_byte_values()
    ensures
        byte_of_raw(500_000_000) == 181,
        byte_of_raw(700_000_000) == 214,
        byte_of_raw(1_000_000_000) == 255,
{
    assert(500_000_000 * SCALE as int == 500_000_000_000_000_000 && 700_000_000 * SCALE as int
        == 700_000_000_000_000_000 && 1_000_000_000 * SCALE as int
        == 1_000_000_000_000_000_000);
    assert(crate::fixed::is_int_sqrt(500_000_000_000_000_000, 707_106_781)) by (nonlinear_arith);
    assert(crate::fixed::is_int_sqrt(700_000_000_000_000_000, 836_660_026)) by (nonlinear_arith);
    assert(crate::fixed::is_int_sqrt(1_000_000_000_000_000_000, 1_000_000_000))
        by (nonlinear_arith);
    crate::fixed::lemma_int_sqrt_unique(500_000_000_000_000_000, 707_106_781);
    crate::fixed::lemma_int_sqrt_unique(700_000_000_000_000_000, 836_660_026);
    crate::fixed::lemma_int_sqrt_unique(1_000_000_000_000_000_000, 1_000_000_000);
}

/// The gamma-2 encoding of a linear colour channel.
pub fn linear_to_gamma(linear_component: Fixed) -> (r: Fixed)
    ensures
        r == spec_linear_to_gamma(linear_component),
        r@ >= 0,
{
    proof {
        broadcast use {Fixed::lemma_view_of, Fixed::lemma_view_range};

        if linear_component@ > 0 {
            crate::fixed::lemma_int_sqrt_exists(linear_component@ * SCALE as int);
        }
    }
    if linear_component.gt(Fixed::zero()) {
        linear_component.sqrt()
    } else {
        Fixed::zero()
    }
}

/// The byte written for a linear colour channel.
pub fn channel_to_byte(linear_component: Fixed) -> (b: u8)
    ensures
        b as int == channel_byte(linear_component),
{
    proof {
        lemma_channel_byte_range(linear_component);
    }
    let intensity: Interval = Interval::new(Fixed::zero(), Fixed::from_raw(INTENSITY_MAX_RAW));
    let scaled: Fixed = Fixed::from_int(256).times(
        intensity.clamp(linear_to_gamma(linear_component)),
    );
    scaled.trunc() as u8
}

/// Appends the decimal digits of `n` to `out`.
pub fn push_decimal(out: &mut Vec<u8>, n: u32)
    ensures
        final(out)@ == old(out)@ + decimal_digits(n as nat),
    decreases n,
{
    if n >= 10 {
        push_decimal(out, n / 10);
    }
    out.push(48 + (n % 10) as u8);
}

/// Appends the line of a pixel to `out` and returns the number of bytes
/// appended. The colour is linear; it is gamma-encoded, clamped and quantised
/// on the way.
pub fn write_color(out: &mut Vec<u8>, pixel_color: &Color) -> (written: usize)
    ensures
        final(out)@ == old(out)@ + color_line(*pixel_color),
        written == color_line(*pixel_color).len(),
{
    let before: usize = out.len();
    let rbyte: u8 = channel_to_byte(pixel_color.x());
    let gbyte: u8 = channel_to_byte(pixel_color.y());
    let bbyte: u8 = channel_to_byte(pixel_color.z());
    push_decimal(out, rbyte as u32);
    out.push(32);
    push_decimal(out, gbyte as u32);
    out.push(32);
    push_decimal(out, bbyte as u32);
    out.push(10);
    out.len() - before
}

/// A number drawn by `rand::Rng::random_range` from the thread's generator
/// `rand::rng()`, over the half-open range from 0 to `bound`. The range holds
/// a number, so the draw does not fail, and the number drawn lies in it.
/// Nothing is said of which one comes: two draws may differ.
#[verifier::external_body]
fn random_below(bound: i64) -> (r: i64)
    requires
        0 < bound,
    ensures
        0 <= r < bound,
{
    rand::rng().random_range(0..bound)
}

/// A number drawn evenly from the billionths that are at least zero and less
/// than one.
pub fn random_double() -> (r: Fixed)
    ensures
        is_unit_draw(r),
{
    proof {
        broadcast use Fixed::lemma_view_of;

    }
    Fixed::from_raw(random_below(SCALE))
}

/// The point of the way from `min` to `max` that `unit` names.
pub fn range_point(min: Fixed, max: Fixed, unit: Fixed) -> (r: Fixed)
    ensures
        r == spec_range_point(min, max, unit),
{
    min.plus(max.minus(min).times(unit))
}

/// A number drawn from `min` up to, and not including, `max`.
pub fn random_double_range(min: Fixed, max: Fixed) -> (r: Fixed)
    ensures
        exists|unit: Fixed| is_unit_draw(unit) && r == spec_range_point(min, max, unit),
        min@ < max@ ==> min@ <= r@ < max@,
{
    let unit: Fixed = random_double();
    proof {
        if min@ < max@ {
            lemma_range_point_bounds(min, max, unit);
        }
    }
    range_point(min, max, unit)
}

/// A point named by a draw lies from `min` up to, and not including, `max`.
pub proof fn lemma_range_point_bounds(min: Fixed, max: Fixed, unit: Fixed)
    requires
        is_unit_draw(unit),
        min@ < max@,
    ensures
        min@ <= spec_range_point(min, max, unit)@ < max@,
{
    broadcast use {Fixed::lemma_view_of, Fixed::lemma_view_range};

    let width = max.spec_sub(min)@;
    assert(0 < width <= max@ - min@);
    let p = width * unit@;
    assert(0 <= p && p < width * SCALE as int) by (nonlinear_arith)
        requires
            p == width * unit@,
            0 < width,
            0 <= unit@ < SCALE as int,
    ;
    crate::fixed::lemma_trunc_div_bounds(p, SCALE as int);
    let q = trunc_div(p, SCALE as int);
    assert(q < width) by (nonlinear_arith)
        requires
            q * SCALE as int <= p,
            p < width * SCALE as int,
            SCALE as int > 0,
    ;
}

} // verus!
