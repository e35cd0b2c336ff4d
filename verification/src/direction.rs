//! Directions: angles in radians.

use vstd::prelude::*;
use core::ops::Neg;
use vstd::std_specs::ops::AddSpecImpl;
use vstd::std_specs::ops::MulSpecImpl;
use vstd::std_specs::ops::NegSpecImpl;
use crate::position::Position;
use crate::scalar::Scalar;
use crate::scalar::HALF_PI_RAW;
use crate::scalar::ONE_RAW;
use crate::scalar::PI_RAW;
use crate::scalar::TWO_PI_RAW;
use crate::trig::atan_raw;
use crate::trig::cordic_atan;
use crate::trig::cordic_sin_cos;
use crate::trig::sin_cos_raw;

verus! {

/// A direction in the plane: the angle from the positive `x` axis, in radians.
#[derive(Clone, Copy, Debug, PartialEq, Eq, PartialOrd, Ord, Hash, Structural)]
pub struct Direction(pub Scalar);

/// The angle brought within one turn of zero, keeping its sign.
pub open spec fn wrap_angle(angle: Scalar) -> Scalar {
    angle.spec_rem(Scalar { raw: TWO_PI_RAW })
}

/// An angle given in degrees, in radians: times π, over 180.
pub open spec fn degrees_to_radians(degrees: Scalar) -> Scalar {
    degrees.spec_mul(Scalar { raw: PI_RAW }).spec_div(Scalar::spec_from_int(180))
}

/// An angle given in radians, in degrees: times 180, over π.
pub open spec fn radians_to_degrees(radians: Scalar) -> Scalar {
    radians.spec_mul(Scalar::spec_from_int(180)).spec_div(Scalar { raw: PI_RAW })
}

/// The arc tangent of `small / large`.
pub open spec fn atan_of_ratio(small: Scalar, large: Scalar) -> Scalar {
    Scalar { raw: cordic_atan(small.spec_div(large).raw) }
}

/// Whether the vector `(x, y)` is nearer to the `x` axis than to the `y` axis,
/// or as near.
pub open spec fn is_flat(x: Scalar, y: Scalar) -> bool {
    y.spec_abs().raw <= x.spec_abs().raw
}

/// The angle of the vector `(x, y)`, from -π to π, given the angle `arc`
/// between the vector and the axis that it is nearer to: `arc` is taken from
/// that axis and carried to the vector's quadrant. Zero for the zero vector.
pub open spec fn angle_from_arc(x: Scalar, y: Scalar, arc: Scalar) -> Scalar {
    if x.raw == 0 && y.raw == 0 {
        Scalar::spec_zero()
    } else {
        let base = if is_flat(x, y) {
            arc
        } else {
            Scalar { raw: HALF_PI_RAW }.spec_sub(arc)
        };
        if x.raw >= 0 {
            if y.raw >= 0 {
                base
            } else {
                base.spec_neg()
            }
        } else {
            if y.raw >= 0 {
                Scalar { raw: PI_RAW }.spec_sub(base)
            } else {
                base.spec_sub(Scalar { raw: PI_RAW })
            }
        }
    }
}

/// The angle between the vector `(x, y)` and the axis that it is nearer to:
/// the arc tangent of the smaller coordinate's size over the larger one's.
pub open spec fn arc_of_vector(x: Scalar, y: Scalar) -> Scalar {
    if is_flat(x, y) {
        atan_of_ratio(y.spec_abs(), x.spec_abs())
    } else {
        atan_of_ratio(x.spec_abs(), y.spec_abs())
    }
}

/// The angle of the vector `(x, y)`, from -π to π. Zero for the zero vector.
pub open spec fn angle_of_vector(x: Scalar, y: Scalar) -> Scalar {
    angle_from_arc(x, y, arc_of_vector(x, y))
}

/// The angle of the vector `(x, y)`, given the angle `arc` between the
/// vector and the axis that it is nearer to.
pub fn carry_to_quadrant(x: Scalar, y: Scalar, arc: Scalar) -> (r: Scalar)
    ensures
        r == angle_from_arc(x, y, arc),
{
    if x.raw == 0 && y.raw == 0 {
        return Scalar::zero();
    }
    let base: Scalar = if y.abs().raw <= x.abs().raw {
        arc
    } else {
        Scalar::from_raw(HALF_PI_RAW) - arc
    };
    if x.raw >= 0 {
        if y.raw >= 0 {
            base
        } else {
            base.neg()
        }
    } else {
        if y.raw >= 0 {
            Scalar::pi() - base
        } else {
            base - Scalar::pi()
        }
    }
}

/// An angle given in degrees, in radians.
fn to_radians(degrees: Scalar) -> (r: Scalar)
    ensures
        r == degrees_to_radians(degrees),
{
    degrees * Scalar::pi() / Scalar::from_int(180)
}

/// The angle brought within one turn of zero, keeping its sign.
fn wrap(angle: Scalar) -> (r: Scalar)
    ensures
        r == wrap_angle(angle),
        -TWO_PI_RAW < r.raw < TWO_PI_RAW,
{
    angle % Scalar::two_pi()
}

/// The arc tangent of `small / large`, which lies between zero and one.
fn atan_ratio(small: Scalar, large: Scalar) -> (r: Scalar)
    requires
        0 <= small.raw <= large.raw,
        0 < large.raw,
    ensures
        r == atan_of_ratio(small, large),
{
    let ratio: Scalar = small / large;
    proof {
        let s = small.raw as int;
        let l = large.raw as int;
        let one = ONE_RAW as int;
        assert(0 <= (s * one) / l <= one) by (nonlinear_arith)
            requires
                0 <= s <= l,
                0 < l,
                one > 0,
        ;
        assert(s * one >= 0) by (nonlinear_arith)
            requires
                0 <= s,
                one > 0,
        ;
    }
    Scalar { raw: atan_raw(ratio.raw) }
}

impl Direction {
    /// The direction turned by `degrees`.
    pub open spec fn spec_rotate_by_degrees(self, degrees: Scalar) -> Direction {
        Direction(self.0.spec_add(degrees_to_radians(degrees)))
    }

    /// The direction turned by `radians`.
    pub open spec fn spec_rotate_by_radians(self, radians: Scalar) -> Direction {
        Direction(self.0.spec_add(radians))
    }

    /// The direction at `degrees` from the positive `x` axis.
    pub open spec fn spec_from_degrees(degrees: Scalar) -> Direction {
        Direction(degrees_to_radians(degrees))
    }

    /// The angle in degrees.
    pub open spec fn spec_to_degrees(self) -> Scalar {
        radians_to_degrees(self.0)
    }

    /// The direction at `radians`, within one turn.
    pub open spec fn spec_from_radians(radians: Scalar) -> Direction {
        Direction(wrap_angle(radians))
    }

    /// The angle in radians, within one turn.
    pub open spec fn spec_to_radians(self) -> Scalar {
        wrap_angle(self.0)
    }

    /// The unit vector of the direction: the cosine and the sine of its
    /// angle, taken within one turn of zero.
    pub open spec fn spec_to_vector(self) -> (Scalar, Scalar) {
        let pair = cordic_sin_cos(wrap_angle(self.0).raw);
        (Scalar { raw: pair.1 }, Scalar { raw: pair.0 })
    }

    /// The direction of the vector `(x, y)`.
    pub open spec fn spec_from_vector(x: Scalar, y: Scalar) -> Direction {
        Direction(wrap_angle(angle_of_vector(x, y)))
    }

    /// The direction in which `to` lies, seen from `from`.
    pub open spec fn spec_from_positions(from: Position, to: Position) -> Direction {
        Direction::spec_from_vector(to.0.spec_sub(from.0), to.1.spec_sub(from.1))
    }

    /// The direction turned by `angle`, within one turn.
    pub open spec fn spec_turn(self, angle: Scalar) -> Direction {
        Direction(wrap_angle(self.0.spec_add(angle)))
    }

    /// The direction mirrored at the `x` axis.
    pub open spec fn spec_neg(self) -> Direction {
        Direction(wrap_angle(self.0.spec_neg()))
    }

    /// The direction turned by another, within one turn.
    pub open spec fn spec_add(self, rhs: Direction) -> Direction {
        Direction(wrap_angle(self.0.spec_add(rhs.0)))
    }

    /// The direction with its angle times `factor`, within one turn.
    pub open spec fn spec_scale(self, factor: Scalar) -> Direction {
        Direction(wrap_angle(self.0.spec_mul(factor)))
    }

    /// The direction turned by `degrees`, without bringing the angle within one
    /// turn.
    pub fn rotate_by_degrees(&self, degrees: Scalar) -> (r: Direction)
        ensures
            r == self.spec_rotate_by_degrees(degrees),
    {
        Direction(self.0 + to_radians(degrees))
    }

    /// The direction turned by `radians`, without bringing the angle within one
    /// turn.
    pub fn rotate_by_radians(&self, radians: Scalar) -> (r: Direction)
        ensures
            r == self.spec_rotate_by_radians(radians),
    {
        Direction(self.0 + radians)
    }

    /// The direction at `degrees` from the positive `x` axis.
    pub fn from_degrees(degrees: Scalar) -> (r: Direction)
        ensures
            r == Direction::spec_from_degrees(degrees),
    {
        Direction(to_radians(degrees))
    }

    /// The angle in degrees.
    pub fn to_degrees(&self) -> (r: Scalar)
        ensures
            r == self.spec_to_degrees(),
    {
        self.0 * Scalar::from_int(180) / Scalar::pi()
    }

    /// The direction at `radians` from the positive `x` axis, within one turn.
    pub fn from_radians(radians: Scalar) -> (r: Direction)
        ensures
            r == Direction::spec_from_radians(radians),
    {
        Direction(wrap(radians))
    }

    /// The angle in radians, within one turn.
    pub fn to_radians(&self) -> (r: Scalar)
        ensures
            r == self.spec_to_radians(),
    {
        wrap(self.0)
    }

    /// The unit vector of the direction: its cosine and its sine.
    pub fn to_vector(&self) -> (r: (Scalar, Scalar))
        ensures
            r == self.spec_to_vector(),
    {
        let angle: Scalar = wrap(self.0);
        let (sine, cosine) = sin_cos_raw(angle.raw);
        (Scalar { raw: cosine }, Scalar { raw: sine })
    }

    /// The direction of the vector `(x, y)`, from -π to π; zero for the zero
    /// vector.
    pub fn from_vector(x: Scalar, y: Scalar) -> (r: Direction)
        ensures
            r == Direction::spec_from_vector(x, y),
    {
        if x.raw == 0 && y.raw == 0 {
            return Direction(wrap(Scalar::zero()));
        }
        let ax: Scalar = x.abs();
        let ay: Scalar = y.abs();
        let arc: Scalar = if ay.raw <= ax.raw {
            atan_ratio(ay, ax)
        } else {
            atan_ratio(ax, ay)
        };
        Direction(wrap(carry_to_quadrant(x, y, arc)))
    }

    /// The direction in which `to` lies, seen from `from`.
    pub fn from_positions(from: Position, to: Position) -> (r: Direction)
        ensures
            r == Direction::spec_from_positions(from, to),
    {
        Direction::from_vector(to.0 - from.0, to.1 - from.1)
    }

    /// The direction turned by `angle`, within one turn.
    pub fn turn(&self, angle: Scalar) -> (r: Direction)
        ensures
            r == self.spec_turn(angle),
    {
        Direction(wrap(self.0 + angle))
    }

    /// The cosine of the direction.
    pub fn x_component(&self) -> (r: Scalar)
        ensures
            r == self.spec_to_vector().0,
    {
        self.to_vector().0
    }

    /// The sine of the direction.
    pub fn y_component(&self) -> (r: Scalar)
        ensures
            r == self.spec_to_vector().1,
    {
        self.to_vector().1
    }
}

impl Default for Direction {
    /// The direction of the positive `x` axis.
    fn default() -> (r: Direction)
        ensures
            r == Direction(Scalar::spec_zero()),
    {
        Direction(Scalar::zero())
    }
}

impl core::ops::Neg for Direction {
    type Output = Direction;

    fn neg(self) -> (r: Direction) {
        Direction(wrap(self.0.neg()))
    }
}

impl NegSpecImpl for Direction {
    open spec fn obeys_neg_spec() -> bool {
        true
    }

    open spec fn neg_req(self) -> bool {
        true
    }

    open spec fn neg_spec(self) -> Direction {
        self.spec_neg()
    }
}

impl core::ops::Add for Direction {
    type Output = Direction;

    fn add(self, rhs: Direction) -> (r: Direction) {
        Direction(wrap(self.0 + rhs.0))
    }
}

impl AddSpecImpl for Direction {
    open spec fn obeys_add_spec() -> bool {
        true
    }

    open spec fn add_req(self, rhs: Direction) -> bool {
        true
    }

    open spec fn add_spec(self, rhs: Direction) -> Direction {
        self.spec_add(rhs)
    }
}

impl core::ops::Mul<Scalar> for Direction {
    type Output = Direction;

    fn mul(self, rhs: Scalar) -> (r: Direction) {
        Direction(wrap(self.0 * rhs))
    }
}

impl MulSpecImpl<Scalar> for Direction {
    open spec fn obeys_mul_spec() -> bool {
        true
    }

    open spec fn mul_req(self, rhs: Scalar) -> bool {
        true
    }

    open spec fn mul_spec(self, rhs: Scalar) -> Direction {
        self.spec_scale(rhs)
    }
}

} // verus!
