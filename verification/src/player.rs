//! Players: who owns the cells, and how they are steered.

use vstd::prelude::*;
use crate::chance::is_unit_sample;
use crate::chance::random;
use crate::color::Color;
use crate::direction::Direction;
use crate::ident::ID;
use crate::scalar::Scalar;
use crate::speed::Speed;

verus! {

/// A competitor: its identity, its look, and the direction and speed that it
/// currently steers its cells with.
#[derive(Clone, Copy, Debug, PartialEq, Eq, PartialOrd, Ord, Hash)]
pub struct Player {
    pub name: [char; 32],
    pub id: ID,
    pub score: u32,
    pub color: Color,
    pub direction: Direction,
    pub speed: Speed,
}

/// Calls `String::from_iter` of std on the characters: the string holds them
/// in their order.
#[verifier::external_body]
fn string_of(chars: &[char]) -> (r: String)
    ensures
        r@ == chars@,
{
    String::from_iter(chars.iter())
}

impl Player {
    /// The new player whose first steering comes from the draws `heading` and
    /// `push`: no score, the direction `heading` times 360 degrees, the speed
    /// `push` times the default speed.
    pub open spec fn spec_seeded(
        name: [char; 32],
        id: ID,
        color: Color,
        heading: Scalar,
        push: Scalar,
    ) -> Player {
        Player {
            name,
            id,
            score: 0,
            color,
            direction: Direction::spec_from_degrees(heading.spec_mul(Scalar::spec_from_int(360))),
            speed: Speed::spec_default().spec_scale(push),
        }
    }

    /// The new player of `spec_seeded`, from draws already made.
    pub fn seeded(name: [char; 32], id: ID, color: Color, heading: Scalar, push: Scalar) -> (r:
        Player)
        ensures
            r == Player::spec_seeded(name, id, color, heading, push),
    {
        Player {
            name,
            id,
            score: 0,
            color,
            direction: Direction::from_degrees(heading * Scalar::from_int(360)),
            speed: Speed::default() * push,
        }
    }

    /// Whether the player can come out of `Player::new` with these arguments.
    pub open spec fn is_new(self, name: [char; 32], id: ID, color: Color) -> bool {
        exists|heading: Scalar, push: Scalar|
            is_unit_sample(heading) && is_unit_sample(push) && self == Player::spec_seeded(
                name,
                id,
                color,
                heading,
                push,
            )
    }

    /// A new player without score, steering in a random direction at a
    /// random share of the default speed.
    pub fn new(name: [char; 32], player_id: ID, color: Color) -> (r: Player)
        ensures
            r.is_new(name, player_id, color),
            r.id == player_id,
    {
        let heading: Scalar = random();
        let push: Scalar = random();
        let player: Player = Player::seeded(name, player_id, color, heading, push);
        proof {
            assert(is_unit_sample(heading) && is_unit_sample(push) && player
                == Player::spec_seeded(name, player_id, color, heading, push));
        }
        player
    }

    /// Sets the direction and speed that the player steers with.
    pub fn set_velocity(&mut self, direction: Direction, speed: Speed)
        ensures
            *final(self) == (Player { direction, speed, ..*old(self) }),
    {
        self.direction = direction;
        self.speed = speed;
    }

    /// The player's name.
    pub fn get_name(&self) -> (r: String)
        ensures
            r@ == self.name@,
    {
        string_of(self.name.as_slice())
    }

    pub fn get_id(&self) -> (r: ID)
        ensures
            r == self.id,
    {
        self.id
    }

    pub fn get_score(&self) -> (r: u32)
        ensures
            r == self.score,
    {
        self.score
    }

    pub fn get_color(&self) -> (r: Color)
        ensures
            r == self.color,
    {
        self.color
    }

    pub fn get_direction(&self) -> (r: Direction)
        ensures
            r == self.direction,
    {
        self.direction
    }

    pub fn get_speed(&self) -> (r: Speed)
        ensures
            r == self.speed,
    {
        self.speed
    }
}

} // verus!
