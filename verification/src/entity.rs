//! What lives in the world: cells, food and walls.

use vstd::prelude::*;
use crate::chance::is_unit_sample;
use crate::chance::random;
use crate::direction::Direction;
use crate::ident::ID;
use crate::mass::Mass;
use crate::player::Player;
use crate::position::Position;
use crate::scalar::Scalar;
use crate::speed::Speed;
use crate::world::World;

verus! {

/// A morsel: it lies where it is, grows slowly, and is eaten by any cell that
/// touches it.
#[derive(Clone, Copy, Debug, PartialEq, Eq, PartialOrd, Ord, Hash, Structural)]
pub struct Food {
    pub mass: Mass,
    pub position: Position,
}

/// A round obstacle that never moves and is never eaten.
#[derive(Clone, Copy, Debug, PartialEq, Eq, PartialOrd, Ord, Hash, Structural)]
pub struct Wall {
    pub position: Position,
    pub radius: Scalar,
}

/// A cell: a circle of some mass that its owner steers.
#[derive(Clone, Copy, Debug, PartialEq, Eq, PartialOrd, Ord, Hash)]
pub struct Cell {
    /// The mass of the cell.
    pub mass: Mass,
    /// Where its centre is.
    pub position: Position,
    /// Where it is heading.
    pub direction: Direction,
    /// How fast it is steered.
    pub speed: Speed,
    /// The cell's owner, as the player was when the cell got it.
    pub player: Option<Player>,
    /// Seconds since the cell was made or last split.
    pub age: Scalar,
}

/// One entity of the world.
#[derive(Clone, Copy, Debug, PartialEq, Eq, PartialOrd, Ord, Hash)]
pub enum Entity {
    Cell(Cell),
    Food(Food),
    Wall(Wall),
}

/// The age below which a cell does not swallow a cell of its own owner: five
/// seconds.
pub open spec fn grace_period() -> Scalar {
    Scalar::spec_from_int(5)
}

/// The age that a cell must have passed to split: eight seconds.
pub open spec fn maturity() -> Scalar {
    Scalar::spec_from_int(8)
}

impl Food {
    /// The food made from three draws: its mass is the unit mass times one
    /// more than the size of `size`, times ten; it lies at `(x, y)`.
    pub open spec fn spec_seeded(size: Scalar, x: Scalar, y: Scalar) -> Food {
        Food {
            mass: Mass::spec_default().spec_scale(size.spec_abs().spec_add(Scalar::spec_one()))
                .spec_scale(Scalar::spec_from_int(10)),
            position: Position(x, y),
        }
    }

    /// Whether the food can come out of `Food::default`.
    pub open spec fn is_seeded(self) -> bool {
        exists|size: Scalar, x: Scalar, y: Scalar|
            is_unit_sample(size) && is_unit_sample(x) && is_unit_sample(y) && self
                == Food::spec_seeded(size, x, y)
    }

    /// The growth factor over `seconds`: one more than a hundredth of it.
    pub open spec fn growth(seconds: Scalar) -> Scalar {
        Scalar::spec_one().spec_add(Scalar::spec_from_ratio(1, 100).spec_mul(seconds))
    }

    /// The food after `seconds` of growth.
    pub open spec fn spec_tick(self, seconds: Scalar) -> Food {
        Food { mass: self.mass.spec_scale(Food::growth(seconds)), position: self.position }
    }

    pub fn new(mass: Mass, position: Position) -> (r: Food)
        ensures
            r == (Food { mass, position }),
    {
        Food { mass, position }
    }

    /// The food of `spec_seeded`, from draws already made.
    pub fn seeded(size: Scalar, x: Scalar, y: Scalar) -> (r: Food)
        ensures
            r == Food::spec_seeded(size, x, y),
    {
        Food {
            mass: Mass::default() * (size.abs() + Scalar::one()) * Scalar::from_int(10),
            position: Position(x, y),
        }
    }

    pub fn to_mass(&self) -> (r: Mass)
        ensures
            r == self.mass,
    {
        self.mass
    }

    /// The radius of the food.
    pub fn to_radius(&self) -> (r: Scalar)
        ensures
            r == self.mass.spec_to_radius(),
    {
        self.mass.to_radius()
    }

    pub fn get_position(&self) -> (r: Position)
        ensures
            r == self.position,
    {
        self.position
    }

    /// Grows the food by compound interest over the seconds since the last
    /// tick. The world is left as it is.
    pub fn tick(&mut self, my_id: ID, seconds_since_last_tick: Scalar, world: &mut World)
        ensures
            *final(self) == old(self).spec_tick(seconds_since_last_tick),
            *final(world) == *old(world),
    {
        let rate: Scalar = Scalar::from_ratio(1, 100);
        self.mass = self.mass * (Scalar::one() + rate * seconds_since_last_tick);
    }
}

impl Default for Food {
    /// A random food.
    fn default() -> (r: Food)
        ensures
            r.is_seeded(),
    {
        let size: Scalar = random();
        let x: Scalar = random();
        let y: Scalar = random();
        let food: Food = Food::seeded(size, x, y);
        proof {
            assert(is_unit_sample(size) && is_unit_sample(x) && is_unit_sample(y) && food
                == Food::spec_seeded(size, x, y));
        }
        food
    }
}

impl Cell {
    /// The cell made from three draws: ten unit masses at `(x, y)`, heading
    /// `heading` times π radians, steered at the default speed, without
    /// owner.
    pub open spec fn spec_seeded(x: Scalar, y: Scalar, heading: Scalar) -> Cell {
        Cell {
            mass: Mass::spec_default().spec_scale(Scalar::spec_from_int(10)),
            position: Position(x, y),
            direction: Direction::spec_from_radians(
                heading.spec_mul(Scalar { raw: crate::scalar::PI_RAW }),
            ),
            speed: Speed::spec_default(),
            player: None,
            age: Scalar::spec_zero(),
        }
    }

    /// Whether the cell can come out of `Cell::default`.
    pub open spec fn is_seeded(self) -> bool {
        exists|x: Scalar, y: Scalar, heading: Scalar|
            is_unit_sample(x) && is_unit_sample(y) && is_unit_sample(heading) && self
                == Cell::spec_seeded(x, y, heading)
    }

    /// The identifier of the cell's owner.
    pub open spec fn owner(self) -> Option<ID> {
        match self.player {
            Some(player) => Some(player.id),
            None => None,
        }
    }

    /// Whether the cell is owned by the player with identifier `id`.
    pub open spec fn owned_by(self, id: ID) -> bool {
        self.owner() == Some(id)
    }

    /// Whether the two cells have the same owner, or both have none.
    pub open spec fn same_owner(self, other: Cell) -> bool {
        self.owner() == other.owner()
    }

    /// How much of the other cell's radius counts towards reaching it: four
    /// fifths for a cell of the same owner, two thirds for another.
    pub open spec fn reach(self, other: Cell) -> Scalar {
        if self.same_owner(other) {
            Scalar::spec_from_ratio(4, 5)
        } else {
            Scalar::spec_from_ratio(2, 3)
        }
    }

    /// Whether the cell swallows `other`. Not while both have one owner and
    /// either is within its grace period; else when the cell's area is more
    /// than 1.1 times the other's, and the centres are nearer than the cell's
    /// radius and the counted share of the other's together.
    pub open spec fn spec_can_swallow_cell(self, other: Cell) -> bool {
        if self.same_owner(other) && (self.age.raw < grace_period().raw || other.age.raw
            < grace_period().raw) {
            false
        } else {
            self.mass.spec_to_area().raw > other.mass.spec_to_area().spec_mul(
                Scalar::spec_from_ratio(11, 10),
            ).raw && self.position.spec_distance_to(other.position).raw
                < self.mass.spec_to_radius().spec_add(
                other.mass.spec_to_radius().spec_mul(self.reach(other)),
            ).raw
        }
    }

    /// Whether the cell swallows `food`: when their circles overlap.
    pub open spec fn spec_can_swallow_food(self, food: Food) -> bool {
        self.position.spec_distance_to(food.position).raw < self.mass.spec_to_radius().spec_add(
            food.mass.spec_to_radius(),
        ).raw
    }

    /// The cell with `mass` more mass.
    pub open spec fn spec_fed(self, mass: Mass) -> Cell {
        Cell { mass: self.mass.spec_add(mass), ..self }
    }

    /// The cell moved `distance` along `direction`.
    pub open spec fn spec_move_towards(self, direction: Direction, distance: Scalar) -> Cell {
        Cell { position: self.position.spec_move_towards(direction, distance), ..self }
    }

    /// The cell moved `distance` back along `direction`.
    pub open spec fn spec_move_away(self, direction: Direction, distance: Scalar) -> Cell {
        Cell { position: self.position.spec_move_away(direction, distance), ..self }
    }

    /// The factor that friction leaves of a speed over `seconds`: one less a
    /// tenth of it. It is applied once for the whole span, so beyond ten
    /// seconds it is negative and turns the speed around.
    pub open spec fn friction(seconds: Scalar) -> Scalar {
        Scalar::spec_one().spec_sub(Scalar::spec_from_ratio(1, 10).spec_mul(seconds))
    }

    /// The factor that decay leaves of a mass over `seconds`: one less three
    /// hundredths of it.
    pub open spec fn decay(seconds: Scalar) -> Scalar {
        Scalar::spec_one().spec_sub(Scalar::spec_from_ratio(3, 100).spec_mul(seconds))
    }

    /// The cell slowed by the friction over `seconds`.
    pub open spec fn spec_apply_friction(self, seconds: Scalar) -> Cell {
        Cell { speed: self.speed.spec_scale(Cell::friction(seconds)), ..self }
    }

    /// The mass of each half of a split: that of half the area.
    pub open spec fn spec_half_mass(self) -> Mass {
        Mass::spec_from_area(self.mass.spec_to_area().spec_div(Scalar::spec_from_int(2)))
    }

    /// How far from the old centre each half of a split lands: one and a half
    /// radii.
    pub open spec fn spec_split_offset(self) -> Scalar {
        self.mass.spec_to_radius().spec_mul(Scalar::spec_from_ratio(3, 2))
    }

    /// The new cell of a split: half the area, thrown forward at twice the
    /// speed, of age zero.
    pub open spec fn spec_sibling(self) -> Cell {
        Cell {
            mass: self.spec_half_mass(),
            position: self.position.spec_move_towards(self.direction, self.spec_split_offset()),
            direction: self.direction,
            speed: self.speed.spec_scale(Scalar::spec_from_int(2)),
            player: self.player,
            age: Scalar::spec_zero(),
        }
    }

    /// What is left of the cell after a split: half the area, kicked back at
    /// twice the speed, of age zero.
    pub open spec fn spec_remainder(self) -> Cell {
        Cell {
            mass: self.spec_half_mass(),
            position: self.position.spec_move_away(self.direction, self.spec_split_offset()),
            direction: self.direction,
            speed: self.speed.spec_scale(Scalar::spec_from_int((-2) as i64)),
            player: self.player,
            age: Scalar::spec_zero(),
        }
    }

    /// Whether the cell is old enough to split.
    pub open spec fn is_mature(self) -> bool {
        self.age.raw > maturity().raw
    }

    /// A new cell of age zero.
    pub fn new(
        mass: Mass,
        position: Position,
        direction: Direction,
        speed: Speed,
        player: Option<Player>,
    ) -> (r: Cell)
        ensures
            r == (Cell { mass, position, direction, speed, player, age: Scalar::spec_zero() }),
    {
        Cell { mass, position, direction, speed, player, age: Scalar::zero() }
    }

    /// The cell of `spec_seeded`, from draws already made.
    pub fn seeded(x: Scalar, y: Scalar, heading: Scalar) -> (r: Cell)
        ensures
            r == Cell::spec_seeded(x, y, heading),
    {
        Cell {
            mass: Mass::default() * Scalar::from_int(10),
            position: Position(x, y),
            direction: Direction::from_radians(heading * Scalar::pi()),
            speed: Speed::default(),
            player: None,
            age: Scalar::zero(),
        }
    }

    pub fn set_player(&mut self, player: Player)
        ensures
            *final(self) == (Cell { player: Some(player), ..*old(self) }),
    {
        self.player = Some(player);
    }

    pub fn get_mass(&self) -> (r: Mass)
        ensures
            r == self.mass,
    {
        self.mass
    }

    /// The radius of the cell.
    pub fn get_radius(&self) -> (r: Scalar)
        ensures
            r == self.mass.spec_to_radius(),
    {
        self.mass.to_radius()
    }

    /// Takes the food's mass.
    pub fn eat(&mut self, food: &Food)
        ensures
            *final(self) == old(self).spec_fed(food.mass),
    {
        self.mass = self.mass + food.to_mass();
    }

    pub fn get_position(&self) -> (r: Position)
        ensures
            r == self.position,
    {
        self.position
    }

    pub fn set_position(&mut self, position: Position)
        ensures
            *final(self) == (Cell { position, ..*old(self) }),
    {
        self.position = position;
    }

    pub fn get_direction(&self) -> (r: Direction)
        ensures
            r == self.direction,
    {
        self.direction
    }

    /// Moves the cell `distance` along `direction`.
    pub fn move_towards(&mut self, direction: &Direction, distance: Scalar)
        ensures
            *final(self) == old(self).spec_move_towards(*direction, distance),
    {
        self.position = self.position.move_towards(direction, distance);
    }

    /// Moves the cell `distance` back along `direction`.
    pub fn move_away(&mut self, direction: &Direction, distance: Scalar)
        ensures
            *final(self) == old(self).spec_move_away(*direction, distance),
    {
        self.position = self.position.move_away(direction, distance);
    }

    pub fn get_speed(&self) -> (r: Speed)
        ensures
            r == self.speed,
    {
        self.speed
    }

    /// The owner, as the player was when the cell got it.
    pub fn get_player(&self) -> (r: Option<&Player>)
        ensures
            r.is_some() == self.player.is_some(),
            r.is_some() ==> *r.unwrap() == self.player.unwrap(),
    {
        self.player.as_ref()
    }

    /// The identifier of the cell's owner.
    pub fn get_player_id(&self) -> (r: Option<ID>)
        ensures
            r == self.owner(),
    {
        match &self.player {
            Some(player) => Some(player.id),
            None => None,
        }
    }

    /// Whether the cell swallows `other`.
    pub fn can_swallow_cell(&self, other: &Cell) -> (r: bool)
        ensures
            r == self.spec_can_swallow_cell(*other),
    {
        let same: bool = self.get_player_id() == other.get_player_id();
        let grace: Scalar = Scalar::from_int(5);
        if same && (self.age.lt(grace) || other.age.lt(grace)) {
            return false;
        }
        let share: Scalar = if same {
            Scalar::from_ratio(4, 5)
        } else {
            Scalar::from_ratio(2, 3)
        };
        let margin: Scalar = Scalar::from_ratio(11, 10);
        (other.get_mass().to_area() * margin).lt(self.get_mass().to_area())
            && self.get_position().distance_to(other.get_position()).lt(
            self.get_mass().to_radius() + other.get_radius() * share,
        )
    }

    /// Whether the cell swallows `food`.
    pub fn can_swallow_food(&self, food: &Food) -> (r: bool)
        ensures
            r == self.spec_can_swallow_food(*food),
    {
        self.get_position().distance_to(food.get_position()).lt(
            self.get_mass().to_radius() + food.to_radius(),
        )
    }

    /// Takes the food's mass.
    pub fn eat_food(&mut self, food: &Food)
        ensures
            *final(self) == old(self).spec_fed(food.mass),
    {
        self.mass = self.mass + food.to_mass();
    }

    /// Takes the other cell's mass.
    pub fn eat_cell(&mut self, cell: &Cell)
        ensures
            *final(self) == old(self).spec_fed(cell.mass),
    {
        self.mass = self.mass + cell.get_mass();
    }

    pub fn set_velocity(&mut self, direction: Direction, speed: Speed)
        ensures
            *final(self) == (Cell { direction, speed, ..*old(self) }),
    {
        self.direction = direction;
        self.speed = speed;
    }

    /// Slows the cell by the friction over the seconds since the last tick.
    pub fn apply_friction(&mut self, seconds_since_last_tick: Scalar)
        ensures
            *final(self) == old(self).spec_apply_friction(seconds_since_last_tick),
    {
        let drag: Scalar = Scalar::from_ratio(1, 10);
        self.speed = self.speed * (Scalar::one() - drag * seconds_since_last_tick);
    }

    /// Splits the cell in two halves of equal area and returns the new one.
    pub fn mitosis(&mut self) -> (sibling: Cell)
        ensures
            sibling == old(self).spec_sibling(),
            *final(self) == old(self).spec_remainder(),
    {
        let mass: Mass = self.get_mass();
        let radius: Scalar = mass.to_radius();
        let area: Scalar = mass.to_area();
        let position: Position = self.get_position();
        let direction: Direction = self.get_direction();
        let speed: Speed = self.get_speed();
        let player: Option<Player> = self.player;
        let offset: Scalar = radius * Scalar::from_ratio(3, 2);
        let half: Scalar = area / Scalar::from_int(2);

        let mut cell: Cell = Cell::new(
            Mass::from_area(half),
            position,
            direction,
            speed * Scalar::from_int(2),
            player,
        );
        cell.move_towards(&direction, offset);
        self.mass = Mass::from_area(half);
        self.speed = speed * Scalar::from_int(-2);
        self.move_away(&direction, offset);
        self.age = Scalar::zero();
        cell
    }
}

impl Default for Cell {
    /// A cell at a random place with a random heading.
    fn default() -> (r: Cell)
        ensures
            r.is_seeded(),
    {
        let x: Scalar = random();
        let y: Scalar = random();
        let heading: Scalar = random();
        let cell: Cell = Cell::seeded(x, y, heading);
        proof {
            assert(is_unit_sample(x) && is_unit_sample(y) && is_unit_sample(heading) && cell
                == Cell::spec_seeded(x, y, heading));
        }
        cell
    }
}

impl Wall {
    /// How deep the cell's circle reaches into the wall's: the two radii
    /// less the distance of the centres.
    pub open spec fn spec_penetration(self, cell: Cell) -> Scalar {
        cell.mass.spec_to_radius().spec_add(self.radius).spec_sub(
            self.position.spec_distance_to(cell.position),
        )
    }

    /// Whether the cell's circle overlaps the wall's.
    pub open spec fn spec_touches(self, cell: Cell) -> bool {
        self.position.spec_distance_to(cell.position).raw < cell.mass.spec_to_radius().spec_add(
            self.radius,
        ).raw
    }

    /// The cell after the wall has pushed it out: where the two overlap, the
    /// cell has moved away from the wall's centre by the depth of the
    /// overlap.
    pub open spec fn spec_repel(self, cell: Cell) -> Cell {
        if self.spec_touches(cell) {
            cell.spec_move_towards(
                Direction::spec_from_positions(self.position, cell.position),
                self.spec_penetration(cell),
            )
        } else {
            cell
        }
    }

    pub fn new(position: Position, radius: Scalar) -> (r: Wall)
        ensures
            r == (Wall { position, radius }),
    {
        Wall { position, radius }
    }

    pub fn get_position(&self) -> (r: Position)
        ensures
            r == self.position,
    {
        self.position
    }

    pub fn get_radius(&self) -> (r: Scalar)
        ensures
            r == self.radius,
    {
        self.radius
    }

    /// Pushes the cell out of the wall, if it is in it.
    pub fn check_collisions(&self, cell: &mut Cell)
        ensures
            *final(cell) == self.spec_repel(*old(cell)),
    {
        let radius: Scalar = cell.get_mass().to_radius();
        let distance: Scalar = self.position.distance_to(cell.get_position());
        if distance.lt(radius + self.radius) {
            let direction: Direction = Direction::from_positions(
                self.position,
                cell.get_position(),
            );
            cell.move_towards(&direction, radius + self.radius - distance);
        }
    }
}

} // verus!
