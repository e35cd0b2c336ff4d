//! Random scalars, drawn from the thread's generator of the `rand` crate.

use vstd::prelude::*;
use rand::Rng;
use crate::scalar::Scalar;
use crate::scalar::ONE_RAW;

verus! {

/// Whether `s` can come out of `random`: a scalar from -1 up to, and not
/// including, 1.
pub open spec fn is_unit_sample(s: Scalar) -> bool {
    -ONE_RAW <= s.raw < ONE_RAW
}

/// Calls `Rng::gen_range` of `rand` on the thread's generator with the
/// half-open range from `low` to `high`. The draw lies in that range; which
/// value it is depends on chance, so nothing else is claimed. An empty range
/// is left out: the crate panics on one.
#[verifier::external_body]
fn draw_between(low: i64, high: i64) -> (r: i64)
    requires
        low < high,
    ensures
        low <= r < high,
{
    rand::thread_rng().gen_range(low..high)
}

/// A random scalar from -1 up to, and not including, 1.
pub fn random() -> (r: Scalar)
    ensures
        is_unit_sample(r),
{
    Scalar { raw: draw_between(-ONE_RAW, ONE_RAW) }
}

} // verus!
