//! Simulation core of a grid-based rhythm-puzzle game.
//!
//! A player token moves across a tile grid but may only advance when a
//! per-tile musical pulse is within an acceptance window; missing the pulse,
//! or standing on a tile whose pulse is off, ends the attempt.
//!
//! Time is measured in whole microseconds throughout, so that every clock
//! computation is exact integer arithmetic.

pub mod ecs;
pub mod game;
pub mod grid;
pub mod inputs;
pub mod keypress;
pub mod rhythm;
pub mod tiles;

pub use crate::game::Camera;
pub use crate::game::Game;
pub use crate::game::Level;
pub use crate::game::Player;
pub use crate::game::PlayerState;
pub use crate::game::RCError;
pub use crate::game::Scene;
pub use crate::game::TileDimensions;
