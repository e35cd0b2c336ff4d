//! Speed: a magnitude that, with a direction and a span of time, gives a
//! displacement.

use vstd::prelude::*;
use vstd::std_specs::ops::MulSpecImpl;
use crate::direction::Direction;
use crate::scalar::Scalar;

verus! {

/// A speed, in world units per second. It is negative for a moment after a
/// split, as a kickback.
#[derive(Clone, Copy, Debug, PartialEq, Eq, PartialOrd, Ord, Hash, Structural)]
pub struct Speed(pub Scalar);

impl Speed {
    /// The speed a player steers with at rest: one fortieth.
    pub open spec fn spec_default() -> Speed {
        Speed(Scalar::spec_from_ratio(1, 40))
    }

    /// The speed times `factor`.
    pub open spec fn spec_scale(self, factor: Scalar) -> Speed {
        Speed(self.0.spec_mul(factor))
    }

    /// The vector `unit` times the speed.
    pub open spec fn spec_along(self, unit: (Scalar, Scalar)) -> (Scalar, Scalar) {
        (unit.0.spec_mul(self.0), unit.1.spec_mul(self.0))
    }

    /// The velocity along `direction`: the direction's unit vector times the
    /// speed.
    pub open spec fn spec_to_vector(self, direction: Direction) -> (Scalar, Scalar) {
        self.spec_along(direction.spec_to_vector())
    }

    /// The length of the vector `(x, y)`.
    pub open spec fn spec_from_vector(x: Scalar, y: Scalar) -> Speed {
        Speed(x.spec_mul(x).spec_add(y.spec_mul(y)).spec_sqrt())
    }

    /// The distance covered in `time` seconds.
    pub open spec fn spec_to_distance(self, time: Scalar) -> Scalar {
        self.0.spec_mul(time)
    }

    /// The vector `unit` times the speed.
    pub fn along(&self, unit: (Scalar, Scalar)) -> (r: (Scalar, Scalar))
        ensures
            r == self.spec_along(unit),
            r == (unit.0.spec_mul(self.0), unit.1.spec_mul(self.0)),
    {
        (unit.0 * self.0, unit.1 * self.0)
    }

    /// The velocity along `direction`.
    pub fn to_vector(&self, direction: &Direction) -> (r: (Scalar, Scalar))
        ensures
            r == self.spec_to_vector(*direction),
    {
        self.along(direction.to_vector())
    }

    /// The length of the vector `(x, y)`.
    pub fn from_vector(x: Scalar, y: Scalar) -> (r: Speed)
        ensures
            r == Speed::spec_from_vector(x, y),
    {
        Speed((x * x + y * y).sqrt())
    }

    pub fn to_speed(&self) -> (r: Scalar)
        ensures
            r == self.0,
    {
        self.0
    }

    pub fn from_speed(speed: Scalar) -> (r: Speed)
        ensures
            r == Speed(speed),
    {
        Speed(speed)
    }

    /// The distance covered in `time` seconds.
    pub fn to_distance(&self, time: Scalar) -> (r: Scalar)
        ensures
            r == self.spec_to_distance(time),
    {
        self.0 * time
    }
}

impl Default for Speed {
    /// One fortieth of a world unit a second.
    fn default() -> (r: Speed)
        ensures
            r == Speed::spec_default(),
    {
        Speed(Scalar::from_ratio(1, 40))
    }
}

impl core::ops::Mul<Scalar> for Speed {
    type Output = Speed;

    fn mul(self, rhs: Scalar) -> (r: Speed) {
        Speed(self.0 * rhs)
    }
}

impl MulSpecImpl<Scalar> for Speed {
    open spec fn obeys_mul_spec() -> bool {
        true
    }

    open spec fn mul_req(self, rhs: Scalar) -> bool {
        true
    }

    open spec fn mul_spec(self, rhs: Scalar) -> Speed {
        self.spec_scale(rhs)
    }
}

} // verus!
