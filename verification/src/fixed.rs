//! Decimal fixed-point numbers with nine fractional digits.
//!
//! Every quantity of the tracer (coordinates, distances, colour channels) is a
//! [`Fixed`]: a signed count of billionths. Arithmetic is total. A result too
//! large to hold saturates at the largest magnitude, which plays the part of
//! infinity, and a quotient or a root that is not a whole number of billionths
//! is rounded toward zero. Rounding toward zero keeps every operation odd:
//! negating the operands negates the result exactly.

use vstd::prelude::*;

verus! {

/// Raw units per whole: one raw unit is a billionth.
pub const SCALE: i64 = 1_000_000_000;

/// Largest magnitude a number can hold, in raw units.
pub const RAW_MAX: i64 = 0x7fff_ffff_ffff_ffff;

/// `x` clamped into the symmetric range of raw values.
pub open spec fn saturate(x: int) -> int {
    if x > RAW_MAX as int {
        RAW_MAX as int
    } else if x < -(RAW_MAX as int) {
        -(RAW_MAX as int)
    } else {
        x
    }
}

/// The absolute value of `x`.
pub open spec fn magnitude(x: int) -> int {
    if x < 0 {
        -x
    } else {
        x
    }
}

/// The quotient of `n` by `d`, rounded toward zero (`d` is not zero).
pub open spec fn trunc_div(n: int, d: int) -> int {
    let q = magnitude(n) / magnitude(d);
    if (n < 0) != (d < 0) {
        -q
    } else {
        q
    }
}

/// Whether `r` is the square root of `n` rounded down.
pub open spec fn is_int_sqrt(n: int, r: int) -> bool {
    r >= 0 && r * r <= n && n < (r + 1) * (r + 1)
}

/// The square root of `n` rounded down (`n` is not negative).
pub open spec fn int_sqrt(n: int) -> int {
    choose|r: int| is_int_sqrt(n, r)
}

/// Only one number is the rounded-down square root of `n`.
pub proof fn lemma_int_sqrt_unique(n: int, r: int)
    requires
        is_int_sqrt(n, r),
    ensures
        int_sqrt(n) == r,
{
    let s = int_sqrt(n);
    assert(is_int_sqrt(n, s));
    if s < r {
        assert((s + 1) * (s + 1) <= r * r) by (nonlinear_arith)
            requires
                0 <= s,
                s + 1 <= r,
        ;
    } else if r < s {
        assert((r + 1) * (r + 1) <= s * s) by (nonlinear_arith)
            requires
                0 <= r,
                r + 1 <= s,
        ;
    }
}

/// Every natural number has a rounded-down square root, and it is no larger
/// than the number itself.
pub proof fn lemma_int_sqrt_exists(n: int)
    requires
        n >= 0,
    ensures
        is_int_sqrt(n, int_sqrt(n)),
        int_sqrt(n) <= n,
    decreases n,
{
    if n == 0 {
        assert(is_int_sqrt(0, 0));
    } else {
        lemma_int_sqrt_exists(n - 1);
        let p = int_sqrt(n - 1);
        if n < (p + 1) * (p + 1) {
            assert(is_int_sqrt(n, p));
        } else {
            assert((p + 2) * (p + 2) > (p + 1) * (p + 1)) by (nonlinear_arith)
                requires
                    p >= 0,
            ;
            assert(is_int_sqrt(n, p + 1));
        }
    }
    let r = int_sqrt(n);
    assert(is_int_sqrt(n, r));
    if r > n {
        assert(r * r > n) by (nonlinear_arith)
            requires
                r > n,
                n >= 0,
        ;
    }
}

/// The rounded-down square root never decreases as its argument grows.
pub proof fn lemma_int_sqrt_monotone(m: int, n: int)
    requires
        0 <= m <= n,
    ensures
        int_sqrt(m) <= int_sqrt(n),
{
    lemma_int_sqrt_exists(m);
    lemma_int_sqrt_exists(n);
    let a = int_sqrt(m);
    let b = int_sqrt(n);
    if b < a {
        assert((b + 1) * (b + 1) <= a * a) by (nonlinear_arith)
            requires
                0 <= b,
                b + 1 <= a,
        ;
    }
}

/// The square root of a perfect square is exact.
pub proof fn lemma_int_sqrt_square(r: int)
    requires
        r >= 0,
    ensures
        int_sqrt(r * r) == r,
{
    assert(r * r < (r + 1) * (r + 1)) by (nonlinear_arith)
        requires
            r >= 0,
    ;
    lemma_int_sqrt_unique(r * r, r);
}

/// Rounding toward zero is odd in the numerator, and in the divisor.
pub proof fn lemma_trunc_div_odd(n: int, d: int)
    requires
        d != 0,
    ensures
        trunc_div(-n, d) == -trunc_div(n, d),
        trunc_div(n, -d) == -trunc_div(n, d),
{
    if n == 0 {
        assert(0int / magnitude(d) == 0) by (nonlinear_arith)
            requires
                magnitude(d) > 0,
        ;
    }
}

/// Rounding toward zero never decreases as the numerator grows, for a
/// positive divisor.
pub proof fn lemma_trunc_div_monotone(m: int, n: int, d: int)
    requires
        m <= n,
        d > 0,
    ensures
        trunc_div(m, d) <= trunc_div(n, d),
{
    if m >= 0 {
        assert(m / d <= n / d) by (nonlinear_arith)
            requires
                0 <= m <= n,
                d > 0,
        ;
    } else if n >= 0 {
        assert((-m) / d >= 0) by (nonlinear_arith)
            requires
                -m >= 0,
                d > 0,
        ;
        assert(n / d >= 0) by (nonlinear_arith)
            requires
                n >= 0,
                d > 0,
        ;
    } else {
        assert((-n) / d <= (-m) / d) by (nonlinear_arith)
            requires
                0 <= -n <= -m,
                d > 0,
        ;
    }
}

/// A quotient rounded toward zero is no larger in magnitude than its
/// numerator, and lies within one of the exact quotient.
pub proof fn lemma_trunc_div_bounds(n: int, d: int)
    requires
        d > 0,
    ensures
        magnitude(trunc_div(n, d)) <= magnitude(n),
        n >= 0 ==> 0 <= trunc_div(n, d) && trunc_div(n, d) * d <= n < (trunc_div(n, d) + 1) * d,
        n <= 0 ==> trunc_div(n, d) <= 0 && (trunc_div(n, d) - 1) * d < n <= trunc_div(n, d) * d,
{
    let a = magnitude(n);
    let q = a / d;
    assert(0 <= q <= a && q * d <= a < (q + 1) * d) by (nonlinear_arith)
        requires
            a >= 0,
            d > 0,
            q == a / d,
    ;
    let t = trunc_div(n, d);
    if n <= 0 {
        assert(t == -q);
        assert(t * d == -(q * d) && (t - 1) * d == -((q + 1) * d)) by (nonlinear_arith)
            requires
                t == -q,
        ;
    }
}

/// A decimal fixed-point number: a whole count of billionths between
/// `-RAW_MAX` and `RAW_MAX`.
#[derive(Clone, Copy, Debug, PartialEq, Eq, Structural)]
pub struct Fixed {
    raw: i64,
}

impl View for Fixed {
    type V = int;

    /// The number's count of billionths.
    closed spec fn view(&self) -> int {
        saturate(self.raw as int)
    }
}

impl Fixed {
    #[verifier::type_invariant]
    pub closed spec fn in_range(self) -> bool {
        self.raw as int >= -(RAW_MAX as int)
    }

    /// The number of `x` billionths, saturated where `x` is out of range.
    pub closed spec fn of(x: int) -> Fixed {
        Fixed { raw: saturate(x) as i64 }
    }

    /// The number made from a count holds that count, saturated.
    pub broadcast proof fn lemma_view_of(x: int)
        ensures
            #[trigger] Fixed::of(x)@ == saturate(x),
    {
    }

    /// No number's count of billionths is out of range.
    pub broadcast proof fn lemma_view_range(a: Fixed)
        ensures
            -(RAW_MAX as int) <= #[trigger] a@ <= RAW_MAX as int,
    {
    }

    /// A count out of range gives the number at the end of the range.
    pub proof fn lemma_of_saturate(x: int)
        ensures
            Fixed::of(x) == Fixed::of(saturate(x)),
    {
    }

    pub open spec fn spec_zero() -> Fixed {
        Fixed::of(0)
    }

    pub open spec fn spec_one() -> Fixed {
        Fixed::of(SCALE as int)
    }

    pub open spec fn spec_max_value() -> Fixed {
        Fixed::of(RAW_MAX as int)
    }

    pub open spec fn spec_min_value() -> Fixed {
        Fixed::of(-(RAW_MAX as int))
    }

    pub open spec fn spec_from_int(n: int) -> Fixed {
        Fixed::of(n * SCALE as int)
    }

    pub open spec fn spec_from_ratio(num: int, den: int) -> Fixed {
        Fixed::spec_from_int(num).spec_div(Fixed::spec_from_int(den))
    }

    /// The number negated.
    pub open spec fn spec_neg(self) -> Fixed {
        Fixed::of(-self@)
    }

    /// The sum, saturated.
    pub open spec fn spec_add(self, rhs: Fixed) -> Fixed {
        Fixed::of(self@ + rhs@)
    }

    /// The difference, saturated.
    pub open spec fn spec_sub(self, rhs: Fixed) -> Fixed {
        Fixed::of(self@ - rhs@)
    }

    /// The product, rounded toward zero and saturated.
    pub open spec fn spec_mul(self, rhs: Fixed) -> Fixed {
        Fixed::of(trunc_div(self@ * rhs@, SCALE as int))
    }

    /// The quotient, rounded toward zero and saturated. Dividing by zero gives
    /// the largest magnitude with the sign of the dividend, and zero for zero.
    pub open spec fn spec_div(self, rhs: Fixed) -> Fixed {
        if rhs@ == 0 {
            Fixed::of(self@ * RAW_MAX as int)
        } else {
            Fixed::of(trunc_div(self@ * SCALE as int, rhs@))
        }
    }

    pub open spec fn spec_abs(self) -> Fixed {
        Fixed::of(magnitude(self@))
    }

    /// The square root, rounded down; zero for a negative number.
    pub open spec fn spec_sqrt(self) -> Fixed {
        if self@ <= 0 {
            Fixed::of(0)
        } else {
            Fixed::of(int_sqrt(self@ * SCALE as int))
        }
    }

    pub open spec fn spec_min(self, rhs: Fixed) -> Fixed {
        if self@ <= rhs@ {
            self
        } else {
            rhs
        }
    }

    pub open spec fn spec_max(self, rhs: Fixed) -> Fixed {
        if self@ >= rhs@ {
            self
        } else {
            rhs
        }
    }

    /// The whole part of the number, rounded toward zero.
    pub open spec fn spec_trunc(self) -> int {
        trunc_div(self@, SCALE as int)
    }

    /// The number of `raw` billionths; the one count below `-RAW_MAX`
    /// saturates.
    pub fn from_raw(raw: i64) -> (r: Fixed)
        ensures
            r == Fixed::of(raw as int),
    {
        if raw == i64::MIN {
            Fixed { raw: -RAW_MAX }
        } else {
            Fixed { raw }
        }
    }

    /// The number's count of billionths.
    pub fn raw(self) -> (r: i64)
        ensures
            r as int == self@,
    {
        proof {
            use_type_invariant(self);
        }
        self.raw
    }

    pub fn zero() -> (r: Fixed)
        ensures
            r == Fixed::spec_zero(),
            r@ == 0,
    {
        Fixed { raw: 0 }
    }

    pub fn one() -> (r: Fixed)
        ensures
            r == Fixed::spec_one(),
            r@ == SCALE as int,
    {
        Fixed { raw: SCALE }
    }

    /// The largest number; it stands for positive infinity.
    pub fn max_value() -> (r: Fixed)
        ensures
            r == Fixed::spec_max_value(),
            r@ == RAW_MAX as int,
    {
        Fixed { raw: RAW_MAX }
    }

    /// The smallest number; it stands for negative infinity.
    pub fn min_value() -> (r: Fixed)
        ensures
            r == Fixed::spec_min_value(),
            r@ == -(RAW_MAX as int),
    {
        Fixed { raw: -RAW_MAX }
    }

    /// The number with sign `negative` and magnitude `m` raw units, saturated.
    fn from_magnitude(negative: bool, m: u128) -> (r: Fixed)
        ensures
            r == Fixed::of(
                if negative {
                    -(m as int)
                } else {
                    m as int
                },
            ),
    {
        let clipped: i64 = if m > RAW_MAX as u128 {
            RAW_MAX
        } else {
            m as i64
        };
        if negative {
            Fixed { raw: -clipped }
        } else {
            Fixed { raw: clipped }
        }
    }

    /// The magnitude of the number, in raw units.
    fn raw_magnitude(self) -> (m: u128)
        ensures
            m as int == magnitude(self@),
            m <= RAW_MAX as u128,
    {
        proof {
            use_type_invariant(self);
        }
        if self.raw < 0 {
            (-self.raw) as u128
        } else {
            self.raw as u128
        }
    }

    /// The whole number `n`.
    pub fn from_int(n: i64) -> (r: Fixed)
        ensures
            r == Fixed::spec_from_int(n as int),
    {
        assert(-0x8000_0000_0000_0000 * 1_000_000_000 <= n * SCALE <= 0x7fff_ffff_ffff_ffff
            * 1_000_000_000) by (nonlinear_arith)
            requires
                -0x8000_0000_0000_0000 <= n <= 0x7fff_ffff_ffff_ffff,
                SCALE == 1_000_000_000,
        ;
        let wide: i128 = n as i128 * SCALE as i128;
        if wide > RAW_MAX as i128 {
            Fixed { raw: RAW_MAX }
        } else if wide < -(RAW_MAX as i128) {
            Fixed { raw: -RAW_MAX }
        } else {
            Fixed { raw: wide as i64 }
        }
    }

    /// The quotient of two whole numbers.
    pub fn from_ratio(num: i64, den: i64) -> (r: Fixed)
        ensures
            r == Fixed::spec_from_ratio(num as int, den as int),
    {
        Fixed::from_int(num).over(Fixed::from_int(den))
    }

    pub fn abs(self) -> (r: Fixed)
        ensures
            r == self.spec_abs(),
    {
        proof {
            use_type_invariant(self);
        }
        if self.raw < 0 {
            Fixed { raw: -self.raw }
        } else {
            self
        }
    }

    pub fn negate(self) -> (r: Fixed)
        ensures
            r == self.spec_neg(),
    {
        proof {
            use_type_invariant(self);
        }
        Fixed { raw: -self.raw }
    }

    pub fn plus(self, rhs: Fixed) -> (r: Fixed)
        ensures
            r == self.spec_add(rhs),
    {
        proof {
            use_type_invariant(self);
            use_type_invariant(rhs);
        }
        let wide: i128 = self.raw as i128 + rhs.raw as i128;
        if wide > RAW_MAX as i128 {
            Fixed { raw: RAW_MAX }
        } else if wide < -(RAW_MAX as i128) {
            Fixed { raw: -RAW_MAX }
        } else {
            Fixed { raw: wide as i64 }
        }
    }

    pub fn minus(self, rhs: Fixed) -> (r: Fixed)
        ensures
            r == self.spec_sub(rhs),
    {
        proof {
            use_type_invariant(self);
            use_type_invariant(rhs);
        }
        let wide: i128 = self.raw as i128 - rhs.raw as i128;
        if wide > RAW_MAX as i128 {
            Fixed { raw: RAW_MAX }
        } else if wide < -(RAW_MAX as i128) {
            Fixed { raw: -RAW_MAX }
        } else {
            Fixed { raw: wide as i64 }
        }
    }

    pub fn times(self, rhs: Fixed) -> (r: Fixed)
        ensures
            r == self.spec_mul(rhs),
    {
        let a: u128 = self.raw_magnitude();
        let b: u128 = rhs.raw_magnitude();
        let negative: bool = (self.raw < 0) != (rhs.raw < 0);
        proof {
            use_type_invariant(self);
            use_type_invariant(rhs);
            let x = self@;
            let y = rhs@;
            assert(a * b <= 0x7fff_ffff_ffff_ffff * 0x7fff_ffff_ffff_ffff) by (nonlinear_arith)
                requires
                    a <= 0x7fff_ffff_ffff_ffff,
                    b <= 0x7fff_ffff_ffff_ffff,
            ;
            assert(magnitude(x * y) == magnitude(x) * magnitude(y) && ((x * y < 0) <==> ((x < 0)
                != (y < 0) && x != 0 && y != 0)) && ((x * y == 0) <==> (x == 0 || y == 0)))
                by (nonlinear_arith);
        }
        let q: u128 = (a * b) / (SCALE as u128);
        proof {
            if self@ * rhs@ == 0 {
                assert(q == 0);
            }
        }
        Fixed::from_magnitude(negative, q)
    }

    pub fn over(self, rhs: Fixed) -> (r: Fixed)
        ensures
            r == self.spec_div(rhs),
    {
        let a: u128 = self.raw_magnitude();
        let b: u128 = rhs.raw_magnitude();
        proof {
            use_type_invariant(self);
            use_type_invariant(rhs);
        }
        if b == 0 {
            proof {
                let x = self@;
                assert(x > 0 ==> x * RAW_MAX as int >= RAW_MAX as int) by (nonlinear_arith);
                assert(x < 0 ==> x * RAW_MAX as int <= -(RAW_MAX as int)) by (nonlinear_arith);
                assert(x == 0 ==> x * RAW_MAX as int == 0) by (nonlinear_arith);
            }
            if self.raw > 0 {
                Fixed { raw: RAW_MAX }
            } else if self.raw < 0 {
                Fixed { raw: -RAW_MAX }
            } else {
                Fixed { raw: 0 }
            }
        } else {
            let negative: bool = (self.raw < 0) != (rhs.raw < 0);
            proof {
                let x = self@;
                assert(magnitude(x * SCALE as int) == magnitude(x) * SCALE as int && ((x
                    * SCALE as int) < 0 <==> x < 0)) by (nonlinear_arith);
                assert(a * SCALE as int <= 0x7fff_ffff_ffff_ffff * 1_000_000_000)
                    by (nonlinear_arith)
                    requires
                        a <= 0x7fff_ffff_ffff_ffff,
                ;
            }
            let q: u128 = (a * (SCALE as u128)) / b;
            proof {
                if self@ == 0 {
                    assert(q == 0);
                }
            }
            assert(q as int == magnitude(self@ * SCALE as int) / magnitude(rhs@));
            Fixed::from_magnitude(negative, q)
        }
    }

    pub fn sqrt(self) -> (r: Fixed)
        ensures
            r == self.spec_sqrt(),
    {
        proof {
            use_type_invariant(self);
        }
        if self.raw <= 0 {
            Fixed { raw: 0 }
        } else {
            proof {
                assert(self.raw * SCALE as int <= 0x7fff_ffff_ffff_ffff * 1_000_000_000)
                    by (nonlinear_arith)
                    requires
                        self.raw <= 0x7fff_ffff_ffff_ffff,
                ;
            }
            let n: u128 = (self.raw as u128) * (SCALE as u128);
            let root: u128 = isqrt(n);
            Fixed::from_magnitude(false, root)
        }
    }

    pub fn min(self, rhs: Fixed) -> (r: Fixed)
        ensures
            r == self.spec_min(rhs),
    {
        proof {
            use_type_invariant(self);
            use_type_invariant(rhs);
        }
        if self.raw <= rhs.raw {
            self
        } else {
            rhs
        }
    }

    pub fn max(self, rhs: Fixed) -> (r: Fixed)
        ensures
            r == self.spec_max(rhs),
    {
        proof {
            use_type_invariant(self);
            use_type_invariant(rhs);
        }
        if self.raw >= rhs.raw {
            self
        } else {
            rhs
        }
    }

    pub fn lt(self, rhs: Fixed) -> (b: bool)
        ensures
            b == (self@ < rhs@),
    {
        proof {
            use_type_invariant(self);
            use_type_invariant(rhs);
        }
        self.raw < rhs.raw
    }

    pub fn le(self, rhs: Fixed) -> (b: bool)
        ensures
            b == (self@ <= rhs@),
    {
        proof {
            use_type_invariant(self);
            use_type_invariant(rhs);
        }
        self.raw <= rhs.raw
    }

    pub fn gt(self, rhs: Fixed) -> (b: bool)
        ensures
            b == (self@ > rhs@),
    {
        rhs.lt(self)
    }

    pub fn ge(self, rhs: Fixed) -> (b: bool)
        ensures
            b == (self@ >= rhs@),
    {
        rhs.le(self)
    }

    pub fn is_zero(self) -> (b: bool)
        ensures
            b == (self@ == 0),
    {
        proof {
            use_type_invariant(self);
        }
        self.raw == 0
    }

    /// The whole part of the number, rounded toward zero.
    pub fn trunc(self) -> (n: i64)
        ensures
            n as int == self.spec_trunc(),
    {
        let m: u128 = self.raw_magnitude();
        let q: u128 = m / (SCALE as u128);
        if self.raw < 0 {
            -(q as i64)
        } else {
            q as i64
        }
    }
}

impl core::ops::Neg for Fixed {
    type Output = Fixed;

    fn neg(self) -> (r: Fixed)
        ensures
            r == self.spec_neg(),
    {
        self.negate()
    }
}

impl vstd::std_specs::ops::NegSpecImpl for Fixed {
    open spec fn obeys_neg_spec() -> bool {
        true
    }

    open spec fn neg_req(self) -> bool {
        true
    }

    open spec fn neg_spec(self) -> Fixed {
        self.spec_neg()
    }
}

impl core::ops::Add for Fixed {
    type Output = Fixed;

    fn add(self, rhs: Fixed) -> (r: Fixed)
        ensures
            r == self.spec_add(rhs),
    {
        self.plus(rhs)
    }
}

impl vstd::std_specs::ops::AddSpecImpl for Fixed {
    open spec fn obeys_add_spec() -> bool {
        true
    }

    open spec fn add_req(self, rhs: Fixed) -> bool {
        true
    }

    open spec fn add_spec(self, rhs: Fixed) -> Fixed {
        self.spec_add(rhs)
    }
}

impl core::ops::Sub for Fixed {
    type Output = Fixed;

    fn sub(self, rhs: Fixed) -> (r: Fixed)
        ensures
            r == self.spec_sub(rhs),
    {
        self.minus(rhs)
    }
}

impl vstd::std_specs::ops::SubSpecImpl for Fixed {
    open spec fn obeys_sub_spec() -> bool {
        true
    }

    open spec fn sub_req(self, rhs: Fixed) -> bool {
        true
    }

    open spec fn sub_spec(self, rhs: Fixed) -> Fixed {
        self.spec_sub(rhs)
    }
}

impl core::ops::Mul for Fixed {
    type Output = Fixed;

    fn mul(self, rhs: Fixed) -> (r: Fixed)
        ensures
            r == self.spec_mul(rhs),
    {
        self.times(rhs)
    }
}

impl vstd::std_specs::ops::MulSpecImpl for Fixed {
    open spec fn obeys_mul_spec() -> bool {
        true
    }

    open spec fn mul_req(self, rhs: Fixed) -> bool {
        true
    }

    open spec fn mul_spec(self, rhs: Fixed) -> Fixed {
        self.spec_mul(rhs)
    }
}

impl core::ops::Div for Fixed {
    type Output = Fixed;

    fn div(self, rhs: Fixed) -> (r: Fixed)
        ensures
            r == self.spec_div(rhs),
    {
        self.over(rhs)
    }
}

impl vstd::std_specs::ops::DivSpecImpl for Fixed {
    open spec fn obeys_div_spec() -> bool {
        true
    }

    open spec fn div_req(self, rhs: Fixed) -> bool {
        true
    }

    open spec fn div_spec(self, rhs: Fixed) -> Fixed {
        self.spec_div(rhs)
    }
}

/// Negating one factor negates the product exactly.
pub proof fn lemma_mul_neg(a: Fixed, b: Fixed)
    ensures
        a.spec_mul(b.spec_neg())@ == -a.spec_mul(b)@,
        a.spec_neg().spec_mul(b)@ == -a.spec_mul(b)@,
        a.spec_neg()@ == -a@,
{
    broadcast use {Fixed::lemma_view_of, Fixed::lemma_view_range};

    let (x, y) = (a@, b@);
    assert(x * (-y) == -(x * y) && (-x) * y == -(x * y)) by (nonlinear_arith);
    lemma_trunc_div_odd(x * y, SCALE as int);
}

/// A product of two numbers from zero to one is a number from zero to one.
pub proof fn lemma_mul_unit(a: Fixed, b: Fixed)
    requires
        0 <= a@ <= SCALE as int,
        0 <= b@ <= SCALE as int,
    ensures
        0 <= a.spec_mul(b)@ <= SCALE as int,
{
    broadcast use Fixed::lemma_view_of;

    let (x, y) = (a@, b@);
    let p = x * y;
    assert(0 <= p <= SCALE as int * SCALE as int) by (nonlinear_arith)
        requires
            p == x * y,
            0 <= x <= SCALE as int,
            0 <= y <= SCALE as int,
    ;
    lemma_trunc_div_monotone(p, SCALE as int * SCALE as int, SCALE as int);
    lemma_trunc_div_monotone(0, p, SCALE as int);
    assert(trunc_div(SCALE as int * SCALE as int, SCALE as int) == SCALE as int && trunc_div(
        0,
        SCALE as int,
    ) == 0) by (nonlinear_arith)
        requires
            SCALE as int == 1_000_000_000,
    ;
}

/// A product with a factor of magnitude at most one is not saturated, is no
/// larger in magnitude than the other factor, and misses the exact product
/// by less than a billionth.
pub proof fn lemma_mul_by_unit(a: Fixed, b: Fixed)
    requires
        magnitude(b@) <= SCALE as int,
    ensures
        a.spec_mul(b)@ == trunc_div(a@ * b@, SCALE as int),
        b.spec_mul(a)@ == trunc_div(a@ * b@, SCALE as int),
        magnitude(a.spec_mul(b)@) <= magnitude(a@),
        -(SCALE as int) < a@ * b@ - SCALE as int * a.spec_mul(b)@ < SCALE as int,
{
    broadcast use {Fixed::lemma_view_of, Fixed::lemma_view_range};

    let (x, y, s) = (a@, b@, SCALE as int);
    let p = x * y;
    assert(p == y * x && magnitude(p) <= magnitude(x) * s) by (nonlinear_arith)
        requires
            p == x * y,
            magnitude(y) <= s,
    ;
    lemma_trunc_div_bounds(p, s);
    let q = trunc_div(p, s);
    assert(magnitude(q) <= magnitude(x)) by (nonlinear_arith)
        requires
            magnitude(q) * s <= magnitude(p),
            magnitude(p) <= magnitude(x) * s,
            s > 0,
    ;
    assert(q * s == s * q) by (nonlinear_arith);
}

/// A sum within the largest magnitude is exact.
pub proof fn lemma_add_exact(a: Fixed, b: Fixed)
    requires
        magnitude(a@ + b@) <= RAW_MAX as int,
    ensures
        a.spec_add(b)@ == a@ + b@,
{
    broadcast use Fixed::lemma_view_of;

}

/// A difference within the largest magnitude is exact.
pub proof fn lemma_sub_exact(a: Fixed, b: Fixed)
    requires
        magnitude(a@ - b@) <= RAW_MAX as int,
    ensures
        a.spec_sub(b)@ == a@ - b@,
{
    broadcast use Fixed::lemma_view_of;

}

/// A product with zero, one or minus one is exact.
pub proof fn lemma_mul_axis(a: Fixed, b: Fixed)
    requires
        b@ == 0 || magnitude(b@) == SCALE as int,
    ensures
        a.spec_mul(b)@ == (if b@ == 0 {
            0
        } else if b@ > 0 {
            a@
        } else {
            -a@
        }),
        b.spec_mul(a)@ == a.spec_mul(b)@,
{
    broadcast use {Fixed::lemma_view_of, Fixed::lemma_view_range};

    let (x, y, s) = (a@, b@, SCALE as int);
    assert(x * y == y * x) by (nonlinear_arith);
    if y == 0 {
        lemma_mul_zero(a, b);
    } else {
        assert(magnitude(x * y) == magnitude(x) * s && ((x * y < 0) <==> ((x < 0) != (y < 0) && x
            != 0))) by (nonlinear_arith)
            requires
                magnitude(y) == s,
                s > 0,
        ;
        assert((magnitude(x) * s) / s == magnitude(x)) by (nonlinear_arith)
            requires
                s > 0,
        ;
    }
}

/// Twice a number of at most half the largest magnitude is exact.
pub proof fn lemma_double(a: Fixed)
    requires
        2 * magnitude(a@) <= RAW_MAX as int,
    ensures
        Fixed::spec_from_int(2).spec_mul(a)@ == 2 * a@,
{
    broadcast use {Fixed::lemma_view_of, Fixed::lemma_view_range};

    let (x, s) = (a@, SCALE as int);
    assert((2 * s) * x == (2 * x) * s) by (nonlinear_arith);
    assert(trunc_div((2 * x) * s, s) == 2 * x) by (nonlinear_arith)
        requires
            s == 1_000_000_000,
    ;
}

/// The average of `count` numbers from zero to one is a number from zero to
/// one: a sum of at most `count`, times the inverse of `count`.
pub proof fn lemma_average_unit(sum: Fixed, count: int)
    requires
        0 <= count <= u32::MAX,
        0 <= sum@ <= count * SCALE as int,
    ensures
        0 <= sum.spec_mul(Fixed::spec_one().spec_div(Fixed::spec_from_int(count)))@ <= SCALE as int,
{
    broadcast use {Fixed::lemma_view_of, Fixed::lemma_view_range};

    let s = SCALE as int;
    let inverse = Fixed::spec_one().spec_div(Fixed::spec_from_int(count));
    if count == 0 {
        lemma_mul_zero(sum, inverse);
    } else {
        let whole = count * s;
        assert(0 < whole <= 4_294_967_295 * 1_000_000_000) by (nonlinear_arith)
            requires
                whole == count * s,
                0 < count <= 4_294_967_295,
                s == 1_000_000_000,
        ;
        assert(Fixed::spec_from_int(count)@ == whole);
        lemma_trunc_div_bounds(s * s, whole);
        let p = trunc_div(s * s, whole);
        assert(0 <= p <= s) by (nonlinear_arith)
            requires
                0 <= p,
                p * whole <= s * s,
                whole >= s,
                s > 0,
        ;
        assert(inverse@ == p);
        let x = sum@;
        assert(0 <= x * p <= s * s) by (nonlinear_arith)
            requires
                0 <= x <= whole,
                0 <= p,
                p * whole <= s * s,
        ;
        lemma_trunc_div_monotone(x * p, s * s, s);
        lemma_trunc_div_monotone(0, x * p, s);
        assert(trunc_div(s * s, s) == s && trunc_div(0, s) == 0) by (nonlinear_arith)
            requires
                s == 1_000_000_000,
        ;
    }
}

/// A quotient never decreases as the dividend grows, for a positive divisor.
pub proof fn lemma_div_monotone(a: Fixed, b: Fixed, d: Fixed)
    requires
        a@ <= b@,
        d@ > 0,
    ensures
        a.spec_div(d)@ <= b.spec_div(d)@,
{
    broadcast use Fixed::lemma_view_of;

    let s = SCALE as int;
    assert(a@ * s <= b@ * s) by (nonlinear_arith)
        requires
            a@ <= b@,
            s > 0,
    ;
    lemma_trunc_div_monotone(a@ * s, b@ * s, d@);
}

/// The square of a number that is at least half its divisor, over that
/// divisor, is at least a quarter.
pub proof fn lemma_square_of_large_share(a: Fixed, d: Fixed)
    requires
        d@ > 0,
        magnitude(a@) <= d@ <= 2 * magnitude(a@),
    ensures
        a.spec_div(d).spec_mul(a.spec_div(d))@ >= SCALE as int / 4,
{
    broadcast use {Fixed::lemma_view_of, Fixed::lemma_view_range};

    let s = SCALE as int;
    lemma_div_at_most_one(a, d);
    let q = a.spec_div(d)@;
    let n = a@ * s;
    assert(magnitude(n) == magnitude(a@) * s) by (nonlinear_arith)
        requires
            n == a@ * s,
            s > 0,
    ;
    let whole = magnitude(n) / d@;
    assert(whole >= s / 2) by (nonlinear_arith)
        requires
            whole == magnitude(n) / d@,
            magnitude(n) == magnitude(a@) * s,
            d@ > 0,
            d@ <= 2 * magnitude(a@),
            s == 1_000_000_000,
    ;
    assert(magnitude(q) == whole);
    let p = q * q;
    assert(p >= (s / 2) * (s / 2) && p <= s * s) by (nonlinear_arith)
        requires
            p == q * q,
            s / 2 <= magnitude(q) <= s,
            s > 0,
    ;
    lemma_trunc_div_monotone((s / 2) * (s / 2), p, s);
    assert(trunc_div((s / 2) * (s / 2), s) == s / 4) by (nonlinear_arith)
        requires
            s == 1_000_000_000,
    ;
    lemma_mul_unit_magnitude(a.spec_div(d), a.spec_div(d));
}

/// A product of two numbers of magnitude at most one is not saturated.
pub proof fn lemma_mul_unit_magnitude(a: Fixed, b: Fixed)
    requires
        magnitude(a@) <= SCALE as int,
        magnitude(b@) <= SCALE as int,
    ensures
        a.spec_mul(b)@ == trunc_div(a@ * b@, SCALE as int),
        magnitude(a.spec_mul(b)@) <= SCALE as int,
{
    lemma_mul_by_unit(a, b);
}

/// A product with a zero factor is zero.
pub proof fn lemma_mul_zero(a: Fixed, b: Fixed)
    requires
        a@ == 0 || b@ == 0,
    ensures
        a.spec_mul(b)@ == 0,
{
    broadcast use Fixed::lemma_view_of;

    let (x, y) = (a@, b@);
    assert(x * y == 0) by (nonlinear_arith)
        requires
            x == 0 || y == 0,
    ;
    assert(0int / (SCALE as int) == 0) by (nonlinear_arith)
        requires
            SCALE as int == 1_000_000_000,
    ;
}

/// A number divided by one of no smaller magnitude is at most one in
/// magnitude.
pub proof fn lemma_div_at_most_one(a: Fixed, b: Fixed)
    requires
        magnitude(a@) <= magnitude(b@),
    ensures
        -(SCALE as int) <= a.spec_div(b)@ <= SCALE as int,
{
    broadcast use {Fixed::lemma_view_of, Fixed::lemma_view_range};

    let (x, y) = (a@, b@);
    if y == 0 {
        assert(x * RAW_MAX as int == 0) by (nonlinear_arith)
            requires
                x == 0,
        ;
    } else {
        let n = x * SCALE as int;
        let q = magnitude(n) / magnitude(y);
        assert(0 <= q <= SCALE as int) by (nonlinear_arith)
            requires
                magnitude(n) == magnitude(x) * SCALE as int,
                magnitude(x) <= magnitude(y),
                magnitude(y) > 0,
                magnitude(x) >= 0,
                q == magnitude(n) / magnitude(y),
                SCALE as int == 1_000_000_000,
        ;
    }
}

/// The square root of `n`, rounded down.
pub fn isqrt(n: u128) -> (r: u128)
    ensures
        r as int == int_sqrt(n as int),
        r <= 0xffff_ffff_ffff_ffff,
{
    let mut lo: u128 = 0;
    let mut hi: u128 = 0x1_0000_0000_0000_0000;
    assert(0x1_0000_0000_0000_0000 * 0x1_0000_0000_0000_0000 > n) by (nonlinear_arith);
    while hi - lo > 1
        invariant
            lo < hi <= 0x1_0000_0000_0000_0000,
            lo * lo <= n,
            n < hi * hi,
        decreases hi - lo,
    {
        let mid: u128 = lo + (hi - lo) / 2;
        assert(mid * mid <= 0xffff_ffff_ffff_ffff * 0xffff_ffff_ffff_ffff) by (nonlinear_arith)
            requires
                0 <= mid <= 0xffff_ffff_ffff_ffff,
        ;
        if mid * mid <= n {
            lo = mid;
        } else {
            hi = mid;
        }
    }
    proof {
        lemma_int_sqrt_unique(n as int, lo as int);
    }
    lo
}

} // verus!
