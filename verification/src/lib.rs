//! A grid-based snake simulation: a self-extending body on a toroidal grid,
//! with O(1) growth and advance, a bit-packed occupancy structure for O(1)
//! self-collision checks, and a per-step diff describing exactly what changed.

pub mod apple;
pub mod bitmask;
pub mod config;
pub mod point;
pub mod result;
pub mod snake;

pub use apple::Apple;
pub use bitmask::Bitmask;
pub use config::GameConfig;
pub use point::Point;
pub use result::Error;
pub use snake::{CellBuf, Snake, SnakeChange, SnakeStepResult};
