//! Mass, and its relation to a circle's radius and area.

use vstd::prelude::*;
use vstd::std_specs::ops::AddSpecImpl;
use vstd::std_specs::ops::MulSpecImpl;
use crate::error::WorldError;
use crate::scalar::Scalar;
use crate::scalar::ONE_RAW;
use crate::scalar::PI_RAW;
use crate::speed::Speed;

verus! {

/// The mass of a circular body. Its radius is the square root of the mass, its
/// area is π times the mass. A body whose mass is zero or less is dead.
#[derive(Clone, Copy, Debug, PartialEq, Eq, PartialOrd, Ord, Hash, Structural)]
pub struct Mass(pub Scalar);

impl Mass {
    /// The unit of mass: that of a circle of radius 1/1024.
    pub open spec fn spec_default() -> Mass {
        Mass::spec_from_radius(Scalar::spec_from_ratio(1, 1024))
    }

    /// The radius: the square root of the mass, zero for a mass below zero.
    pub open spec fn spec_to_radius(self) -> Scalar {
        self.0.spec_sqrt()
    }

    /// The mass of a circle of the given radius: its square.
    pub open spec fn spec_from_radius(radius: Scalar) -> Mass {
        Mass(radius.spec_mul(radius))
    }

    /// The area: π times the mass.
    pub open spec fn spec_to_area(self) -> Scalar {
        Scalar { raw: PI_RAW }.spec_mul(self.0)
    }

    /// The mass of a circle of the given area: the area over π.
    pub open spec fn spec_from_area(area: Scalar) -> Mass {
        Mass(area.spec_div(Scalar { raw: PI_RAW }))
    }

    /// The two masses together.
    pub open spec fn spec_add(self, rhs: Mass) -> Mass {
        Mass(self.0.spec_add(rhs.0))
    }

    /// The mass times `factor`.
    pub open spec fn spec_scale(self, factor: Scalar) -> Mass {
        Mass(self.0.spec_mul(factor))
    }

    /// How much slower than a body of unit mass this one moves: the square
    /// root of the unit mass over this mass.
    pub open spec fn spec_slowness(self) -> Scalar {
        Mass::spec_default().0.spec_div(self.0).spec_sqrt()
    }

    /// The speed at which a body of this mass moves when steered at `speed`:
    /// five times `speed`, times the slowness.
    pub open spec fn spec_calculate_slowness(self, speed: Speed) -> Speed {
        speed.spec_scale(Scalar::spec_from_int(5)).spec_scale(self.spec_slowness())
    }

    /// The mass with the given value, which must not be below zero.
    pub fn checked(value: Scalar) -> (r: Result<Mass, WorldError>)
        ensures
            value.raw >= 0 ==> r == Ok::<Mass, WorldError>(Mass(value)),
            value.raw < 0 ==> r == Err::<Mass, WorldError>(WorldError::InvalidMass),
    {
        if value.raw < 0 {
            Err(WorldError::InvalidMass)
        } else {
            Ok(Mass(value))
        }
    }

    /// The speed at which a body of this mass moves when steered at `speed`.
    pub fn calculate_slowness(&self, speed: Speed) -> (r: Speed)
        ensures
            r == self.spec_calculate_slowness(speed),
    {
        let default_mass: Scalar = Mass::default().0;
        let slowness: Scalar = (default_mass / self.0).sqrt();
        speed * Scalar::from_int(5) * slowness
    }

    /// The radius of a circle of this mass.
    pub fn to_radius(&self) -> (r: Scalar)
        ensures
            r == self.spec_to_radius(),
            r.raw >= 0,
    {
        self.0.sqrt()
    }

    /// The mass of a circle of the given radius.
    pub fn from_radius(radius: Scalar) -> (r: Mass)
        ensures
            r == Mass::spec_from_radius(radius),
    {
        Mass(radius * radius)
    }

    /// The area of a circle of this mass.
    pub fn to_area(&self) -> (r: Scalar)
        ensures
            r == self.spec_to_area(),
    {
        Scalar::pi() * self.0
    }

    /// The mass of a circle of the given area.
    pub fn from_area(area: Scalar) -> (r: Mass)
        ensures
            r == Mass::spec_from_area(area),
    {
        Mass(area / Scalar::pi())
    }
}

/// The unit of mass has the raw value `2^20`.
pub proof fn lemma_default_mass()
    ensures
        Mass::spec_default().0.raw == 0x10_0000,
{
    let radius = Scalar::spec_from_ratio(1, 1024);
    assert(1 * ONE_RAW == 0x100_0000_0000);
    assert(0x100_0000_0000int / 1024 == 0x4000_0000) by (nonlinear_arith);
    assert(radius.raw == 0x4000_0000);
    assert(0x4000_0000int * 0x4000_0000int == 0x1000_0000_0000_0000) by (nonlinear_arith);
    assert(0x1000_0000_0000_0000int / 0x100_0000_0000int == 0x10_0000) by (nonlinear_arith);
}

impl Default for Mass {
    /// The unit of mass.
    fn default() -> (r: Mass)
        ensures
            r == Mass::spec_default(),
            r.0.raw == 0x10_0000,
    {
        proof {
            lemma_default_mass();
        }
        Mass::from_radius(Scalar::from_ratio(1, 1024))
    }
}

impl core::ops::Add for Mass {
    type Output = Mass;

    fn add(self, rhs: Mass) -> (r: Mass) {
        Mass(self.0 + rhs.0)
    }
}

impl AddSpecImpl for Mass {
    open spec fn obeys_add_spec() -> bool {
        true
    }

    open spec fn add_req(self, rhs: Mass) -> bool {
        true
    }

    open spec fn add_spec(self, rhs: Mass) -> Mass {
        self.spec_add(rhs)
    }
}

impl core::ops::Mul<Scalar> for Mass {
    type Output = Mass;

    fn mul(self, rhs: Scalar) -> (r: Mass) {
        Mass(self.0 * rhs)
    }
}

impl MulSpecImpl<Scalar> for Mass {
    open spec fn obeys_mul_spec() -> bool {
        true
    }

    open spec fn mul_req(self, rhs: Scalar) -> bool {
        true
    }

    open spec fn mul_spec(self, rhs: Scalar) -> Mass {
        self.spec_scale(rhs)
    }
}

} // verus!
