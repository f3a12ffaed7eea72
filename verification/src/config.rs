//! Game configuration: grid dimensions and tick interval.

use vstd::prelude::*;

verus! {

/// Stores config parameters for the game.
///
/// A configuration is `valid` when both grid dimensions are at least 1,
/// each fits in an `i32` (positions are 32-bit), and the total cell count
/// fits in a `usize`.
pub struct GameConfig {
    pub screen_width: usize,
    pub screen_height: usize,
    pub snake_speed: u64,
}

impl GameConfig {
    /// Dimension limits that the simulation relies on: non-degenerate grid,
    /// coordinates representable as `i32`, cell count representable as `usize`.
    pub open spec fn valid(&self) -> bool {
        &&& 1 <= self.screen_width <= i32::MAX
        &&& 1 <= self.screen_height <= i32::MAX
        &&& self.screen_width * self.screen_height <= usize::MAX
    }

    pub fn new(width: usize, height: usize, speed: u64) -> (c: GameConfig)
        requires
            1 <= width <= i32::MAX,
            1 <= height <= i32::MAX,
            width * height <= usize::MAX,
        ensures
            c.screen_width == width,
            c.screen_height == height,
            c.snake_speed == speed,
            c.valid(),
    {
        GameConfig { screen_width: width, screen_height: height, snake_speed: speed }
    }

    /// Get the total number of cells in the screen.
    pub fn total_cells(&self) -> (n: usize)
        requires
            self.valid(),
        ensures
            n == self.screen_width * self.screen_height,
    {
        self.screen_width * self.screen_height
    }
}

impl Default for GameConfig {
    fn default() -> (c: Self)
        ensures
            c.screen_width == 20,
            c.screen_height == 20,
            c.snake_speed == 150,
            c.valid(),
    {
        GameConfig { screen_width: 20, screen_height: 20, snake_speed: 150 }
    }
}

} // verus!
