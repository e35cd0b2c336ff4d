//! Sine, cosine and arc tangent of scalars, computed by the `cordic` crate on
//! the same 40-bit fixed-point format.

use vstd::prelude::*;
use crate::scalar::ONE_RAW;
use crate::scalar::TWO_PI_RAW;

verus! {

/// What `cordic::sin_cos` returns for the angle with raw value `angle`, in
/// radians: the raw values of its sine and of its cosine, in that order.
pub uninterp spec fn cordic_sin_cos(angle: i64) -> (i64, i64);

/// What `cordic::atan` returns for the number with raw value `ratio`: the raw
/// value of its arc tangent, in radians.
pub uninterp spec fn cordic_atan(ratio: i64) -> i64;

/// Calls `cordic::sin_cos` on a 64-bit fixed-point number with 40 fractional
/// bits. The result is a function of the angle alone; nothing more is claimed
/// of it. The angle is kept within one turn either way, where the crate's
/// reduction loop and its arithmetic stay far from the limits of the format.
#[verifier::external_body]
pub(crate) fn sin_cos_raw(angle: i64) -> (r: (i64, i64))
    requires
        -TWO_PI_RAW <= angle <= TWO_PI_RAW,
    ensures
        r == cordic_sin_cos(angle),
{
    let turned = fixed::FixedI64::<fixed::types::extra::U40>::from_bits(angle);
    let (sine, cosine) = cordic::sin_cos(turned);
    (sine.to_bits(), cosine.to_bits())
}

/// Calls `cordic::atan` on a 64-bit fixed-point number with 40 fractional
/// bits. The result is a function of the argument alone; nothing more is
/// claimed of it. The argument is kept between zero and one, where the
/// crate's arithmetic stays far from the limits of the format.
#[verifier::external_body]
pub(crate) fn atan_raw(ratio: i64) -> (r: i64)
    requires
        0 <= ratio <= ONE_RAW,
    ensures
        r == cordic_atan(ratio),
{
    cordic::atan(fixed::FixedI64::<fixed::types::extra::U40>::from_bits(ratio)).to_bits()
}

} // verus!
