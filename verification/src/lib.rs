//! The simulation core of a snake game on a square board whose edges wrap
//! around: the board's geometry, the snake, the reward cell, and the step that
//! advances the game by one tick.

pub mod geometry;
pub mod model;
pub mod world;

pub use geometry::Direction;
pub use model::GameStatus;
pub use world::{SnakeCell, World};
