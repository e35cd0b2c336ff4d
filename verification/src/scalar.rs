//! Fixed-point scalars.
//!
//! Every quantity of the simulation (a coordinate, a mass, an angle, a span of
//! time) is a `Scalar`: a signed number with 40 fractional bits held in an
//! `i64`. The value of a scalar is `raw / 2^40`. Arithmetic is total: a result
//! that does not fit saturates at the limits of the type, and a quotient or a
//! product that is not a multiple of `2^-40` is truncated towards zero.

use vstd::prelude::*;
use vstd::std_specs::ops::AddSpecImpl;
use vstd::std_specs::ops::DivSpecImpl;
use vstd::std_specs::ops::MulSpecImpl;
use vstd::std_specs::ops::NegSpecImpl;
use vstd::std_specs::ops::RemSpecImpl;
use vstd::std_specs::ops::SubSpecImpl;

verus! {

/// The raw value of the scalar one: `2^40`.
pub const ONE_RAW: i64 = 0x100_0000_0000;

/// The raw value of one half.
pub const HALF_RAW: i64 = 0x80_0000_0000;

/// The raw value of π, truncated.
pub const PI_RAW: i64 = 3_454_217_652_357;

/// The raw value of π/2, truncated.
pub const HALF_PI_RAW: i64 = 1_727_108_826_178;

/// The raw value of 2π, truncated.
pub const TWO_PI_RAW: i64 = 6_908_435_304_715;

/// A signed fixed-point number with 40 fractional bits.
#[derive(Clone, Copy, Debug, PartialEq, Eq, PartialOrd, Ord, Hash, Structural)]
pub struct Scalar {
    pub raw: i64,
}

/// `v` limited to the range of an `i64`.
pub open spec fn clamp64(v: int) -> int {
    if v < i64::MIN {
        i64::MIN as int
    } else if v > i64::MAX {
        i64::MAX as int
    } else {
        v
    }
}

/// The absolute value of `v`.
pub open spec fn magnitude(v: int) -> int {
    if v < 0 {
        -v
    } else {
        v
    }
}

/// The quotient of `n` by `d`, rounded towards zero (`d` is not zero).
pub open spec fn trunc_div(n: int, d: int) -> int {
    if (n >= 0) == (d > 0) {
        magnitude(n) / magnitude(d)
    } else {
        -(magnitude(n) / magnitude(d))
    }
}

/// The remainder that goes with `trunc_div`: it has the sign of `n`.
pub open spec fn trunc_rem(n: int, d: int) -> int {
    if n >= 0 {
        n % magnitude(d)
    } else {
        -((-n) % magnitude(d))
    }
}

/// The limit of the type on the side of `v`'s sign, and zero for zero: the
/// value of a division of `v` by zero.
pub open spec fn sign_limit(v: int) -> int {
    if v > 0 {
        i64::MAX as int
    } else if v < 0 {
        i64::MIN as int
    } else {
        0
    }
}

/// `r` is the integer square root of `n`, rounded down.
pub open spec fn is_floor_sqrt(n: int, r: int) -> bool {
    0 <= r && r * r <= n < (r + 1) * (r + 1)
}

/// The integer square root of `n`, rounded down (`n` is not negative).
pub open spec fn floor_sqrt(n: int) -> int {
    choose|r: int| is_floor_sqrt(n, r)
}

/// A number has at most one rounded-down square root.
pub proof fn lemma_floor_sqrt_unique(n: int, r1: int, r2: int)
    requires
        is_floor_sqrt(n, r1),
        is_floor_sqrt(n, r2),
    ensures
        r1 == r2,
{
    if r1 < r2 {
        assert((r1 + 1) * (r1 + 1) <= r2 * r2) by (nonlinear_arith)
            requires
                0 <= r1,
                r1 + 1 <= r2,
        ;
    }
    if r2 < r1 {
        assert((r2 + 1) * (r2 + 1) <= r1 * r1) by (nonlinear_arith)
            requires
                0 <= r2,
                r2 + 1 <= r1,
        ;
    }
}

/// Whatever meets `is_floor_sqrt` is the value of `floor_sqrt`.
pub proof fn lemma_floor_sqrt_is(n: int, r: int)
    requires
        is_floor_sqrt(n, r),
    ensures
        floor_sqrt(n) == r,
{
    lemma_floor_sqrt_unique(n, floor_sqrt(n), r);
}

/// Every number from zero on has a rounded-down square root, and
/// `floor_sqrt` gives it.
pub proof fn lemma_floor_sqrt_exists(n: int)
    requires
        0 <= n,
    ensures
        is_floor_sqrt(n, floor_sqrt(n)),
    decreases n,
{
    if n == 0 {
        assert(is_floor_sqrt(0, 0));
    } else {
        lemma_floor_sqrt_exists(n - 1);
        let r = floor_sqrt(n - 1);
        if n < (r + 1) * (r + 1) {
            assert(is_floor_sqrt(n, r));
        } else {
            assert((r + 1) * (r + 1) <= n < (r + 2) * (r + 2)) by (nonlinear_arith)
                requires
                    0 <= r,
                    r * r <= n - 1 < (r + 1) * (r + 1),
                    n >= (r + 1) * (r + 1),
            ;
            assert(is_floor_sqrt(n, r + 1));
        }
    }
}

/// The rounded-down square root does not fall as the number rises.
pub proof fn lemma_floor_sqrt_rises(a: int, b: int)
    requires
        0 <= a <= b,
    ensures
        0 <= floor_sqrt(a) <= floor_sqrt(b),
{
    lemma_floor_sqrt_exists(a);
    lemma_floor_sqrt_exists(b);
    let ra = floor_sqrt(a);
    let rb = floor_sqrt(b);
    if ra > rb {
        assert((rb + 1) * (rb + 1) <= ra * ra) by (nonlinear_arith)
            requires
                0 <= rb,
                rb + 1 <= ra,
        ;
    }
}

/// `v` limited to the range of an `i64`.
fn clamp_wide(v: i128) -> (r: i64)
    ensures
        r == clamp64(v as int),
{
    if v > i64::MAX as i128 {
        i64::MAX
    } else if v < i64::MIN as i128 {
        i64::MIN
    } else {
        v as i64
    }
}

/// The absolute value of `v`.
fn wide_magnitude(v: i128) -> (r: u128)
    requires
        v > i128::MIN,
    ensures
        r == magnitude(v as int),
{
    if v < 0 {
        (-v) as u128
    } else {
        v as u128
    }
}

/// The quotient of `n` by `d`, rounded towards zero.
fn wide_trunc_div(n: i128, d: i128) -> (q: i128)
    requires
        d != 0,
        n > i128::MIN,
        d > i128::MIN,
    ensures
        q == trunc_div(n as int, d as int),
        magnitude(q as int) <= magnitude(n as int),
{
    let nn: u128 = wide_magnitude(n);
    let dd: u128 = wide_magnitude(d);
    let qq: u128 = nn / dd;
    proof {
        assert(nn as int / dd as int <= nn as int) by (nonlinear_arith)
            requires
                nn >= 0,
                dd >= 1,
        ;
    }
    if (n >= 0) == (d > 0) {
        qq as i128
    } else {
        -(qq as i128)
    }
}

/// The remainder of `n` by `d`, with the sign of `n`.
fn wide_trunc_rem(n: i128, d: i128) -> (q: i128)
    requires
        d != 0,
        n > i128::MIN,
        d > i128::MIN,
    ensures
        q == trunc_rem(n as int, d as int),
        magnitude(q as int) < magnitude(d as int),
{
    let nn: u128 = wide_magnitude(n);
    let dd: u128 = wide_magnitude(d);
    let qq: u128 = nn % dd;
    if n >= 0 {
        qq as i128
    } else {
        -(qq as i128)
    }
}

/// The product of `a` and `b`, which always fits.
fn wide_product(a: i64, b: i64) -> (p: i128)
    ensures
        p == a * b,
        p > i128::MIN,
{
    proof {
        assert(-0x4000_0000_0000_0000_0000_0000_0000_0000 <= a * b
            <= 0x4000_0000_0000_0000_0000_0000_0000_0000) by (nonlinear_arith)
            requires
                -0x8000_0000_0000_0000 <= a <= 0x8000_0000_0000_0000,
                -0x8000_0000_0000_0000 <= b <= 0x8000_0000_0000_0000,
        ;
    }
    (a as i128) * (b as i128)
}

/// The integer square root of `n`, rounded down, by bisection.
fn wide_floor_sqrt(n: u128) -> (r: u128)
    requires
        n < 0x1_0000_0000_0000_0000_0000_0000_0000,
    ensures
        is_floor_sqrt(n as int, r as int),
        r < 0x1_0000_0000_0000_00,
{
    let mut lo: u128 = 0;
    let mut hi: u128 = 0x1_0000_0000_0000_00;
    proof {
        assert(0x1_0000_0000_0000_00int * 0x1_0000_0000_0000_00int
            == 0x1_0000_0000_0000_0000_0000_0000_0000int) by (nonlinear_arith);
    }
    while hi - lo > 1
        invariant
            lo < hi <= 0x1_0000_0000_0000_00,
            lo * lo <= n < hi * hi,
        decreases hi - lo,
    {
        let mid: u128 = lo + (hi - lo) / 2;
        proof {
            assert(mid * mid <= 0x1_0000_0000_0000_0000_0000_0000_0000int) by (nonlinear_arith)
                requires
                    0 <= mid <= 0x1_0000_0000_0000_00,
            ;
        }
        if mid * mid <= n {
            lo = mid;
        } else {
            hi = mid;
        }
    }
    lo
}

impl Scalar {
    /// The scalar zero.
    pub open spec fn spec_zero() -> Scalar {
        Scalar { raw: 0 }
    }

    /// The scalar one.
    pub open spec fn spec_one() -> Scalar {
        Scalar { raw: ONE_RAW }
    }

    /// The whole number `n`, saturated.
    pub open spec fn spec_from_int(n: i64) -> Scalar {
        Scalar { raw: clamp64(n * ONE_RAW) as i64 }
    }

    /// The fraction `num / den`, truncated and saturated; with a zero
    /// denominator, the limit on the side of the numerator's sign.
    pub open spec fn spec_from_ratio(num: i64, den: i64) -> Scalar {
        Scalar {
            raw: if den == 0 {
                sign_limit(num as int) as i64
            } else {
                clamp64(trunc_div(num * ONE_RAW, den as int)) as i64
            },
        }
    }

    /// The count `n` as a scalar, saturated.
    pub open spec fn spec_from_count(n: usize) -> Scalar {
        Scalar { raw: clamp64(n * ONE_RAW) as i64 }
    }

    /// The sum, saturated.
    pub open spec fn spec_add(self, rhs: Scalar) -> Scalar {
        Scalar { raw: clamp64(self.raw + rhs.raw) as i64 }
    }

    /// The difference, saturated.
    pub open spec fn spec_sub(self, rhs: Scalar) -> Scalar {
        Scalar { raw: clamp64(self.raw - rhs.raw) as i64 }
    }

    /// The negation, saturated.
    pub open spec fn spec_neg(self) -> Scalar {
        Scalar { raw: clamp64(-self.raw) as i64 }
    }

    /// The absolute value, saturated.
    pub open spec fn spec_abs(self) -> Scalar {
        Scalar { raw: clamp64(magnitude(self.raw as int)) as i64 }
    }

    /// The product, truncated towards zero and saturated.
    pub open spec fn spec_mul(self, rhs: Scalar) -> Scalar {
        Scalar { raw: clamp64(trunc_div(self.raw * rhs.raw, ONE_RAW as int)) as i64 }
    }

    /// The quotient; a division by zero gives the limit on the side of the
    /// dividend's sign, and zero for zero by zero.
    pub open spec fn spec_div(self, rhs: Scalar) -> Scalar {
        Scalar {
            raw: if rhs.raw == 0 {
                sign_limit(self.raw as int) as i64
            } else {
                clamp64(trunc_div(self.raw * ONE_RAW, rhs.raw as int)) as i64
            },
        }
    }

    /// The remainder with the sign of `self`; zero where `rhs` is zero.
    pub open spec fn spec_rem(self, rhs: Scalar) -> Scalar {
        Scalar {
            raw: if rhs.raw == 0 {
                0
            } else {
                trunc_rem(self.raw as int, rhs.raw as int) as i64
            },
        }
    }

    /// The square root, rounded down; zero for a negative number.
    pub open spec fn spec_sqrt(self) -> Scalar {
        Scalar {
            raw: if self.raw <= 0 {
                0
            } else {
                floor_sqrt(self.raw * ONE_RAW) as i64
            },
        }
    }

    /// The smaller of the two.
    pub open spec fn spec_min(self, rhs: Scalar) -> Scalar {
        if rhs.raw < self.raw {
            rhs
        } else {
            self
        }
    }

    /// The larger of the two.
    pub open spec fn spec_max(self, rhs: Scalar) -> Scalar {
        if rhs.raw > self.raw {
            rhs
        } else {
            self
        }
    }

    /// The whole part, rounded towards zero.
    pub open spec fn spec_trunc(self) -> int {
        trunc_div(self.raw as int, ONE_RAW as int)
    }

    /// The nearest whole number, a tie going away from zero.
    pub open spec fn spec_round(self) -> int {
        if self.raw >= 0 {
            (self.raw + HALF_RAW) / (ONE_RAW as int)
        } else {
            -((-self.raw + HALF_RAW) / (ONE_RAW as int))
        }
    }

    /// Whether `self` is below `rhs`.
    pub open spec fn spec_lt(self, rhs: Scalar) -> bool {
        self.raw < rhs.raw
    }

    /// The scalar zero.
    pub fn zero() -> (r: Scalar)
        ensures
            r == Scalar::spec_zero(),
    {
        Scalar { raw: 0 }
    }

    /// The scalar one.
    pub fn one() -> (r: Scalar)
        ensures
            r == Scalar::spec_one(),
    {
        Scalar { raw: ONE_RAW }
    }

    /// π, truncated to the scalar's resolution.
    pub fn pi() -> (r: Scalar)
        ensures
            r.raw == PI_RAW,
    {
        Scalar { raw: PI_RAW }
    }

    /// 2π, truncated to the scalar's resolution.
    pub fn two_pi() -> (r: Scalar)
        ensures
            r.raw == TWO_PI_RAW,
    {
        Scalar { raw: TWO_PI_RAW }
    }

    /// The scalar with the given raw value.
    pub fn from_raw(raw: i64) -> (r: Scalar)
        ensures
            r.raw == raw,
    {
        Scalar { raw }
    }

    /// The raw value: the scalar times `2^40`.
    pub fn to_raw(&self) -> (r: i64)
        ensures
            r == self.raw,
    {
        self.raw
    }

    /// The whole number `n`, saturated.
    pub fn from_int(n: i64) -> (r: Scalar)
        ensures
            r == Scalar::spec_from_int(n),
    {
        Scalar { raw: clamp_wide(wide_product(n, ONE_RAW)) }
    }

    /// The fraction `num / den`, truncated towards zero and saturated.
    pub fn from_ratio(num: i64, den: i64) -> (r: Scalar)
        ensures
            r == Scalar::spec_from_ratio(num, den),
    {
        if den == 0 {
            if num > 0 {
                Scalar { raw: i64::MAX }
            } else if num < 0 {
                Scalar { raw: i64::MIN }
            } else {
                Scalar { raw: 0 }
            }
        } else {
            Scalar { raw: clamp_wide(wide_trunc_div(wide_product(num, ONE_RAW), den as i128)) }
        }
    }

    /// The count `n` as a scalar, saturated.
    pub fn from_count(n: usize) -> (r: Scalar)
        ensures
            r == Scalar::spec_from_count(n),
    {
        if n >= 0x80_0000 {
            Scalar { raw: i64::MAX }
        } else {
            Scalar { raw: (n as i64) * ONE_RAW }
        }
    }

    /// The absolute value, saturated.
    pub fn abs(self) -> (r: Scalar)
        ensures
            r == self.spec_abs(),
    {
        if self.raw < 0 {
            Scalar { raw: clamp_wide(-(self.raw as i128)) }
        } else {
            self
        }
    }

    /// The square root, rounded down; zero for a negative number.
    pub fn sqrt(self) -> (r: Scalar)
        ensures
            r == self.spec_sqrt(),
            r.raw >= 0,
            self.raw > 0 ==> is_floor_sqrt(self.raw * ONE_RAW, r.raw as int),
    {
        if self.raw <= 0 {
            Scalar { raw: 0 }
        } else {
            let wide: i128 = wide_product(self.raw, ONE_RAW);
            let root: u128 = wide_floor_sqrt(wide as u128);
            proof {
                lemma_floor_sqrt_is(self.raw * ONE_RAW, root as int);
            }
            Scalar { raw: root as i64 }
        }
    }

    /// The smaller of the two.
    pub fn min(self, rhs: Scalar) -> (r: Scalar)
        ensures
            r == self.spec_min(rhs),
    {
        if rhs.raw < self.raw {
            rhs
        } else {
            self
        }
    }

    /// The larger of the two.
    pub fn max(self, rhs: Scalar) -> (r: Scalar)
        ensures
            r == self.spec_max(rhs),
    {
        if rhs.raw > self.raw {
            rhs
        } else {
            self
        }
    }

    /// The whole part, rounded towards zero.
    pub fn trunc(self) -> (r: i64)
        ensures
            r == self.spec_trunc(),
    {
        wide_trunc_div(self.raw as i128, ONE_RAW as i128) as i64
    }

    /// The nearest whole number, a tie going away from zero.
    pub fn round(self) -> (r: i64)
        ensures
            r == self.spec_round(),
    {
        if self.raw >= 0 {
            let shifted: i128 = self.raw as i128 + HALF_RAW as i128;
            (shifted / (ONE_RAW as i128)) as i64
        } else {
            let shifted: i128 = -(self.raw as i128) + HALF_RAW as i128;
            (-(shifted / (ONE_RAW as i128))) as i64
        }
    }

    /// Whether `self` is below `rhs`.
    pub fn lt(self, rhs: Scalar) -> (r: bool)
        ensures
            r == self.spec_lt(rhs),
    {
        self.raw < rhs.raw
    }
}

/// The square root of a scalar does not fall as the scalar rises.
pub proof fn lemma_sqrt_rises(a: Scalar, b: Scalar)
    requires
        a.raw <= b.raw,
    ensures
        0 <= a.spec_sqrt().raw <= b.spec_sqrt().raw,
{
    let one = ONE_RAW as int;
    if b.raw > 0 {
        assert(b.raw * one >= 0) by (nonlinear_arith)
            requires
                b.raw > 0,
                one > 0,
        ;
        lemma_floor_sqrt_exists(b.raw * one);
        let rb = floor_sqrt(b.raw * one);
        assert(rb < 0x1_0000_0000_0000_00) by {
            if rb >= 0x1_0000_0000_0000_00 {
                assert(rb * rb >= 0x1_0000_0000_0000_0000_0000_0000_0000int) by (nonlinear_arith)
                    requires
                        rb >= 0x1_0000_0000_0000_00,
                ;
                assert(b.raw * one < 0x1_0000_0000_0000_0000_0000_0000_0000int) by (nonlinear_arith)
                    requires
                        b.raw <= 0x7fff_ffff_ffff_ffff,
                        one == 0x100_0000_0000,
                ;
            }
        }
        if a.raw > 0 {
            assert(a.raw * one <= b.raw * one) by (nonlinear_arith)
                requires
                    0 < a.raw <= b.raw,
                    one > 0,
            ;
            assert(a.raw * one >= 0) by (nonlinear_arith)
                requires
                    a.raw > 0,
                    one > 0,
            ;
            lemma_floor_sqrt_rises(a.raw * one, b.raw * one);
        }
    }
}

impl core::ops::Add for Scalar {
    type Output = Scalar;

    fn add(self, rhs: Scalar) -> (r: Scalar) {
        Scalar { raw: clamp_wide(self.raw as i128 + rhs.raw as i128) }
    }
}

impl AddSpecImpl for Scalar {
    open spec fn obeys_add_spec() -> bool {
        true
    }

    open spec fn add_req(self, rhs: Scalar) -> bool {
        true
    }

    open spec fn add_spec(self, rhs: Scalar) -> Scalar {
        self.spec_add(rhs)
    }
}

impl core::ops::Sub for Scalar {
    type Output = Scalar;

    fn sub(self, rhs: Scalar) -> (r: Scalar) {
        Scalar { raw: clamp_wide(self.raw as i128 - rhs.raw as i128) }
    }
}

impl SubSpecImpl for Scalar {
    open spec fn obeys_sub_spec() -> bool {
        true
    }

    open spec fn sub_req(self, rhs: Scalar) -> bool {
        true
    }

    open spec fn sub_spec(self, rhs: Scalar) -> Scalar {
        self.spec_sub(rhs)
    }
}

impl core::ops::Neg for Scalar {
    type Output = Scalar;

    fn neg(self) -> (r: Scalar) {
        Scalar { raw: clamp_wide(-(self.raw as i128)) }
    }
}

impl NegSpecImpl for Scalar {
    open spec fn obeys_neg_spec() -> bool {
        true
    }

    open spec fn neg_req(self) -> bool {
        true
    }

    open spec fn neg_spec(self) -> Scalar {
        self.spec_neg()
    }
}

impl core::ops::Mul for Scalar {
    type Output = Scalar;

    fn mul(self, rhs: Scalar) -> (r: Scalar) {
        Scalar {
            raw: clamp_wide(wide_trunc_div(wide_product(self.raw, rhs.raw), ONE_RAW as i128)),
        }
    }
}

impl MulSpecImpl for Scalar {
    open spec fn obeys_mul_spec() -> bool {
        true
    }

    open spec fn mul_req(self, rhs: Scalar) -> bool {
        true
    }

    open spec fn mul_spec(self, rhs: Scalar) -> Scalar {
        self.spec_mul(rhs)
    }
}

impl core::ops::Div for Scalar {
    type Output = Scalar;

    fn div(self, rhs: Scalar) -> (r: Scalar) {
        if rhs.raw == 0 {
            if self.raw > 0 {
                Scalar { raw: i64::MAX }
            } else if self.raw < 0 {
                Scalar { raw: i64::MIN }
            } else {
                Scalar { raw: 0 }
            }
        } else {
            Scalar {
                raw: clamp_wide(
                    wide_trunc_div(wide_product(self.raw, ONE_RAW), rhs.raw as i128),
                ),
            }
        }
    }
}

impl DivSpecImpl for Scalar {
    open spec fn obeys_div_spec() -> bool {
        true
    }

    open spec fn div_req(self, rhs: Scalar) -> bool {
        true
    }

    open spec fn div_spec(self, rhs: Scalar) -> Scalar {
        self.spec_div(rhs)
    }
}

impl core::ops::Rem for Scalar {
    type Output = Scalar;

    fn rem(self, rhs: Scalar) -> (r: Scalar) {
        if rhs.raw == 0 {
            Scalar { raw: 0 }
        } else {
            Scalar { raw: wide_trunc_rem(self.raw as i128, rhs.raw as i128) as i64 }
        }
    }
}

impl RemSpecImpl for Scalar {
    open spec fn obeys_rem_spec() -> bool {
        true
    }

    open spec fn rem_req(self, rhs: Scalar) -> bool {
        true
    }

    open spec fn rem_spec(self, rhs: Scalar) -> Scalar {
        self.spec_rem(rhs)
    }
}

} // verus!
