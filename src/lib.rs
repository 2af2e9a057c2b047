//! Simulation core of a grid-based snake game: direction handling, timed
//! movement, collision detection, growth, food placement and reset.

pub mod direction;
pub mod grid;
pub mod game;

pub use direction::{LatestState, SnakeState};
pub use grid::{Arena, Position, generate_random_position, free_cells, occupied};
pub use game::{DirectionKeys, FoodEvent, Game, GameOverEvent, GrowthEvent, TickEvents};
