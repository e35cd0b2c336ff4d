//! Points of the plane.

use vstd::prelude::*;
use vstd::std_specs::convert::FromSpecImpl;
use vstd::std_specs::ops::AddSpecImpl;
use vstd::std_specs::ops::MulSpecImpl;
use vstd::std_specs::ops::SubSpecImpl;
use crate::direction::Direction;
use crate::scalar::Scalar;
use crate::scalar::ONE_RAW;

verus! {

/// A point of the plane, by its `x` and `y` coordinates. The world is the
/// square from -1 to 1 on both axes.
#[derive(Clone, Copy, Debug, PartialEq, Eq, PartialOrd, Ord, Hash, Structural)]
pub struct Position(pub Scalar, pub Scalar);

impl Position {
    /// The sum coordinate by coordinate.
    pub open spec fn spec_add(self, rhs: Position) -> Position {
        Position(self.0.spec_add(rhs.0), self.1.spec_add(rhs.1))
    }

    /// The difference coordinate by coordinate.
    pub open spec fn spec_sub(self, rhs: Position) -> Position {
        Position(self.0.spec_sub(rhs.0), self.1.spec_sub(rhs.1))
    }

    /// The product coordinate by coordinate.
    pub open spec fn spec_mul(self, rhs: Position) -> Position {
        Position(self.0.spec_mul(rhs.0), self.1.spec_mul(rhs.1))
    }

    /// Both coordinates times `factor`.
    pub open spec fn spec_scale(self, factor: Scalar) -> Position {
        Position(self.0.spec_mul(factor), self.1.spec_mul(factor))
    }

    /// The sum of the points, added up from the first to the last.
    pub open spec fn spec_sum(positions: Seq<Position>) -> Position
        decreases positions.len(),
    {
        if positions.len() == 0 {
            Position(Scalar::spec_zero(), Scalar::spec_zero())
        } else {
            Position::spec_sum(positions.drop_last()).spec_add(positions.last())
        }
    }

    /// The sum of the points over their number; the origin for no points.
    pub open spec fn spec_average(positions: Seq<Position>) -> Position {
        let sum = Position::spec_sum(positions);
        let count = Scalar::spec_from_count(positions.len() as usize);
        Position(sum.0.spec_div(count), sum.1.spec_div(count))
    }

    /// The Euclidean distance: the root of the sum of the squared differences.
    pub open spec fn spec_distance_to(self, other: Position) -> Scalar {
        let dx = self.0.spec_sub(other.0);
        let dy = self.1.spec_sub(other.1);
        dx.spec_mul(dx).spec_add(dy.spec_mul(dy)).spec_sqrt()
    }

    /// The point moved forward by `distance` times the vector `unit`.
    pub open spec fn spec_shifted(self, unit: (Scalar, Scalar), distance: Scalar) -> Position {
        Position(
            self.0.spec_add(unit.0.spec_mul(distance)),
            self.1.spec_add(unit.1.spec_mul(distance)),
        )
    }

    /// The point moved back by `distance` times the vector `unit`.
    pub open spec fn spec_shifted_back(self, unit: (Scalar, Scalar), distance: Scalar) -> Position {
        Position(
            self.0.spec_sub(unit.0.spec_mul(distance)),
            self.1.spec_sub(unit.1.spec_mul(distance)),
        )
    }

    /// The point `distance` further along `direction`.
    pub open spec fn spec_move_towards(self, direction: Direction, distance: Scalar) -> Position {
        self.spec_shifted(direction.spec_to_vector(), distance)
    }

    /// The point `distance` back along `direction`.
    pub open spec fn spec_move_away(self, direction: Direction, distance: Scalar) -> Position {
        self.spec_shifted_back(direction.spec_to_vector(), distance)
    }

    /// The point on a screen of the given size onto which the world's square
    /// maps this point.
    pub open spec fn spec_project_onto(self, width: Scalar, height: Scalar) -> (Scalar, Scalar) {
        let two = Scalar::spec_from_int(2);
        (
            self.0.spec_add(Scalar::spec_one()).spec_mul(width).spec_div(two),
            self.1.spec_add(Scalar::spec_one()).spec_mul(height).spec_div(two),
        )
    }

    /// Whether the point lies in the world's square.
    pub open spec fn in_bounds(self) -> bool {
        -ONE_RAW <= self.0.raw <= ONE_RAW && -ONE_RAW <= self.1.raw <= ONE_RAW
    }

    /// The nearest point of the world's square.
    pub open spec fn spec_clamped(self) -> Position {
        let low = Scalar { raw: (-ONE_RAW) as i64 };
        let high = Scalar { raw: ONE_RAW };
        Position(self.0.spec_max(low).spec_min(high), self.1.spec_max(low).spec_min(high))
    }

    /// The average of the points; the origin for no points.
    pub fn average(positions: &[Position]) -> (r: Position)
        ensures
            r == Position::spec_average(positions@),
    {
        let mut sum: Position = Position(Scalar::zero(), Scalar::zero());
        let mut i: usize = 0;
        while i < positions.len()
            invariant
                i <= positions.len(),
                sum == Position::spec_sum(positions@.take(i as int)),
            decreases positions.len() - i,
        {
            proof {
                assert(positions@.take(i + 1).drop_last() =~= positions@.take(i as int));
            }
            sum = sum + positions[i];
            i += 1;
        }
        proof {
            assert(positions@.take(i as int) =~= positions@);
        }
        let count: Scalar = Scalar::from_count(positions.len());
        Position(sum.0 / count, sum.1 / count)
    }

    pub fn get_x(&self) -> (r: Scalar)
        ensures
            r == self.0,
    {
        self.0
    }

    pub fn get_y(&self) -> (r: Scalar)
        ensures
            r == self.1,
    {
        self.1
    }

    /// The direction in which `other` lies, seen from here.
    pub fn direction_to(&self, other: Position) -> (r: Direction)
        ensures
            r == Direction::spec_from_positions(*self, other),
    {
        Direction::from_positions(*self, other)
    }

    /// The Euclidean distance to `other`.
    pub fn distance_to(&self, other: Position) -> (r: Scalar)
        ensures
            r == self.spec_distance_to(other),
            r.raw >= 0,
    {
        let dx: Scalar = self.0 - other.0;
        let dy: Scalar = self.1 - other.1;
        (dx * dx + dy * dy).sqrt()
    }

    /// The point moved forward by `distance` times the vector `unit`.
    pub fn shifted(&self, unit: (Scalar, Scalar), distance: Scalar) -> (r: Position)
        ensures
            r == self.spec_shifted(unit, distance),
            r == Position(
                self.0.spec_add(unit.0.spec_mul(distance)),
                self.1.spec_add(unit.1.spec_mul(distance)),
            ),
    {
        Position(self.0 + unit.0 * distance, self.1 + unit.1 * distance)
    }

    /// The point moved back by `distance` times the vector `unit`.
    pub fn shifted_back(&self, unit: (Scalar, Scalar), distance: Scalar) -> (r: Position)
        ensures
            r == self.spec_shifted_back(unit, distance),
            r == Position(
                self.0.spec_sub(unit.0.spec_mul(distance)),
                self.1.spec_sub(unit.1.spec_mul(distance)),
            ),
    {
        Position(self.0 - unit.0 * distance, self.1 - unit.1 * distance)
    }

    /// The point `distance` further along `direction`.
    pub fn move_towards(&self, direction: &Direction, distance: Scalar) -> (r: Position)
        ensures
            r == self.spec_move_towards(*direction, distance),
    {
        self.shifted(direction.to_vector(), distance)
    }

    /// The point `distance` back along `direction`.
    pub fn move_away(&self, direction: &Direction, distance: Scalar) -> (r: Position)
        ensures
            r == self.spec_move_away(*direction, distance),
    {
        self.shifted_back(direction.to_vector(), distance)
    }

    /// The point on a screen of the given size onto which the world's square
    /// maps this point.
    pub fn project_onto(&self, width: Scalar, height: Scalar) -> (r: (Scalar, Scalar))
        ensures
            r == self.spec_project_onto(width, height),
    {
        let two: Scalar = Scalar::from_int(2);
        let x: Scalar = (self.0 + Scalar::one()) * width / two;
        let y: Scalar = (self.1 + Scalar::one()) * height / two;
        (x, y)
    }

    /// The nearest point of the world's square.
    pub fn clamped(&self) -> (r: Position)
        ensures
            r == self.spec_clamped(),
            r.in_bounds(),
    {
        let low: Scalar = Scalar::from_raw(-ONE_RAW);
        let high: Scalar = Scalar::from_raw(ONE_RAW);
        Position(self.0.max(low).min(high), self.1.max(low).min(high))
    }
}

impl From<(Scalar, Scalar)> for Position {
    fn from(pair: (Scalar, Scalar)) -> (r: Position) {
        Position(pair.0, pair.1)
    }
}

impl FromSpecImpl<(Scalar, Scalar)> for Position {
    open spec fn obeys_from_spec() -> bool {
        true
    }

    open spec fn from_spec(pair: (Scalar, Scalar)) -> Position {
        Position(pair.0, pair.1)
    }
}

impl core::ops::Add for Position {
    type Output = Position;

    fn add(self, rhs: Position) -> (r: Position) {
        Position(self.0 + rhs.0, self.1 + rhs.1)
    }
}

impl AddSpecImpl for Position {
    open spec fn obeys_add_spec() -> bool {
        true
    }

    open spec fn add_req(self, rhs: Position) -> bool {
        true
    }

    open spec fn add_spec(self, rhs: Position) -> Position {
        self.spec_add(rhs)
    }
}

impl core::ops::Sub for Position {
    type Output = Position;

    fn sub(self, rhs: Position) -> (r: Position) {
        Position(self.0 - rhs.0, self.1 - rhs.1)
    }
}

impl SubSpecImpl for Position {
    open spec fn obeys_sub_spec() -> bool {
        true
    }

    open spec fn sub_req(self, rhs: Position) -> bool {
        true
    }

    open spec fn sub_spec(self, rhs: Position) -> Position {
        self.spec_sub(rhs)
    }
}

impl core::ops::Mul for Position {
    type Output = Position;

    fn mul(self, rhs: Position) -> (r: Position) {
        Position(self.0 * rhs.0, self.1 * rhs.1)
    }
}

impl MulSpecImpl for Position {
    open spec fn obeys_mul_spec() -> bool {
        true
    }

    open spec fn mul_req(self, rhs: Position) -> bool {
        true
    }

    open spec fn mul_spec(self, rhs: Position) -> Position {
        self.spec_mul(rhs)
    }
}

impl core::ops::Mul<Scalar> for Position {
    type Output = Position;

    fn mul(self, rhs: Scalar) -> (r: Position) {
        Position(self.0 * rhs, self.1 * rhs)
    }
}

impl MulSpecImpl<Scalar> for Position {
    open spec fn obeys_mul_spec() -> bool {
        true
    }

    open spec fn mul_req(self, rhs: Scalar) -> bool {
        true
    }

    open spec fn mul_spec(self, rhs: Scalar) -> Position {
        self.spec_scale(rhs)
    }
}

} // verus!
