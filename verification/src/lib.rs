//! A world of circular cells that move, feed, shrink and split on a bounded
//! plane, with all of its arithmetic in fixed point.

use vstd::prelude::*;

pub mod chance;
pub mod color;
pub mod direction;
pub mod entity;
pub mod error;
pub mod ident;
pub mod laws;
pub mod mass;
pub mod player;
pub mod position;
pub mod scalar;
pub mod speed;
pub mod split;
pub mod tick;
pub mod trig;
pub mod world;

pub use chance::random;
pub use color::Color;
pub use direction::Direction;
pub use entity::Cell;
pub use entity::Entity;
pub use entity::Food;
pub use entity::Wall;
pub use error::WorldError;
pub use ident::IdSource;
pub use ident::ID;
pub use mass::Mass;
pub use player::Player;
pub use position::Position;
pub use scalar::Scalar;
pub use speed::Speed;
pub use world::World;
