//! The apple: the food item, and its relocation to a cell the snake does
//! not occupy.

use vstd::prelude::*;

use crate::config::GameConfig;
use crate::point::{in_bounds, Point};
use crate::snake::Snake;
use rand::Rng;
use vstd::arithmetic::div_mod::{
    lemma_div_pos_is_pos, lemma_fundamental_div_mod, lemma_mod_division_less_than_divisor,
    lemma_multiply_divide_lt,
};
use vstd::set_lib::{lemma_int_range, lemma_len_subset, set_int_range};

verus! {

/// Represents an apple in the game.
pub struct Apple {
    position: Point,
}

impl Apple {
    /// The stored position.
    pub closed spec fn spec_position(&self) -> Point {
        self.position
    }

    pub fn new(pos: Point) -> (a: Apple)
        ensures
            a.spec_position() == pos,
    {
        Apple { position: pos }
    }

    /// Move the apple to a new position.
    pub fn move_to(&mut self, point: Point)
        ensures
            final(self).spec_position() == point,
    {
        self.position = point;
    }

    /// Get the position of the apple.
    pub fn position(&self) -> (p: Point)
        ensures
            p == self.spec_position(),
    {
        self.position
    }
}

/// Relies on rand's `Rng::gen_range` on `rand::thread_rng()`: for the
/// non-empty range `0..n` it returns a value drawn from that range
/// (uniformly, which nothing here depends on).
#[verifier::external_body]
fn random_below(n: usize) -> (r: usize)
    requires
        1 <= n,
    ensures
        r < n,
{
    rand::thread_rng().gen_range(0..n)
}

/// The cell with linear index `idx` on a grid `w` cells wide.
pub open spec fn cell_at(idx: int, w: int) -> Point {
    Point { x: (idx % w) as i32, y: (idx / w) as i32 }
}

/// Pigeonhole over grid cells: a body with fewer segments than the grid
/// has cells leaves some cell free.
proof fn lemma_free_cell_exists(body: Seq<Point>, w: int, h: int)
    requires
        1 <= w <= i32::MAX,
        1 <= h <= i32::MAX,
        body.len() < w * h,
    ensures
        exists|j: int| 0 <= j < w * h && !body.contains(cell_at(j, w)),
{
    broadcast use vstd::seq_lib::seq_to_set_is_finite;

    if forall|j: int| 0 <= j < w * h ==> body.contains(cell_at(j, w)) {
        // then the linear indices of the body segments would cover the
        // whole range [0, w * h), although there are too few of them
        let idxs = body.map_values(|p: Point| p.y * w + p.x);
        assert forall|j: int| set_int_range(0, w * h).contains(j) implies idxs.to_set().contains(
            j,
        ) by {
            assert(body.contains(cell_at(j, w)));
            let i = choose|i: int| 0 <= i < body.len() && body[i] == cell_at(j, w);
            lemma_fundamental_div_mod(j, w);
            lemma_mod_division_less_than_divisor(j, w);
            lemma_div_pos_is_pos(j, w);
            lemma_multiply_divide_lt(j, w, h);
            assert(body[i].x as int == j % w);
            assert(body[i].y as int == j / w);
            assert(idxs[i] == body[i].y * w + body[i].x);
            assert(idxs[i] == (j / w) * w + (j % w));
            assert((j / w) * w == w * (j / w)) by (nonlinear_arith);
            assert(idxs[i] == j);
            assert(idxs.contains(j));
        }
        assert(set_int_range(0, w * h).subset_of(idxs.to_set()));
        idxs.lemma_cardinality_of_set();
        lemma_int_range(0, w * h);
        lemma_len_subset(set_int_range(0, w * h), idxs.to_set());
        assert(false);
    }
}

/// Move the apple to a cell the snake does not occupy. Random cells are
/// sampled first; if every sample lands on the snake, the grid is scanned
/// for a free cell, which must exist as long as the snake has not filled
/// the whole grid — which is why the caller must check the win condition
/// before relocating the apple.
pub fn randomize_apple_pos(snake: &Snake, config: &GameConfig, apple: &mut Apple)
    requires
        snake.wf(),
        config.valid(),
        config.screen_width == snake.grid_w(),
        config.screen_height == snake.grid_h(),
        snake.body_seq().len() < snake.grid_w() * snake.grid_h(),
    ensures
        in_bounds(final(apple).spec_position(), snake.grid_w(), snake.grid_h()),
        !snake.body_seq().contains(final(apple).spec_position()),
{
    let w = config.screen_width;
    let h = config.screen_height;
    let total = config.total_cells();

    let mut tries: usize = 0;
    while tries < total
        invariant
            snake.wf(),
            1 <= w <= i32::MAX,
            1 <= h <= i32::MAX,
            w == snake.grid_w(),
            h == snake.grid_h(),
        decreases total - tries,
    {
        let x = random_below(w);
        let y = random_below(h);
        let p = Point { x: x as i32, y: y as i32 };
        if !snake.overlaps(p) {
            apple.move_to(p);
            return;
        }
        tries = tries + 1;
    }

    proof {
        lemma_free_cell_exists(snake.body_seq(), snake.grid_w(), snake.grid_h());
    }
    let mut idx: usize = 0;
    loop
        invariant
            snake.wf(),
            1 <= w <= i32::MAX,
            1 <= h <= i32::MAX,
            w == snake.grid_w(),
            h == snake.grid_h(),
            total == w * h,
            idx < total,
            exists|j: int|
                idx <= j < total && !snake.body_seq().contains(cell_at(j, w as int)),
        decreases total - idx,
    {
        proof {
            lemma_mod_division_less_than_divisor(idx as int, w as int);
            lemma_div_pos_is_pos(idx as int, w as int);
            lemma_multiply_divide_lt(idx as int, w as int, h as int);
        }
        let x = idx % w;
        let y = idx / w;
        let p = Point { x: x as i32, y: y as i32 };
        proof {
            assert(p == cell_at(idx as int, w as int));
        }
        if !snake.overlaps(p) {
            apple.move_to(p);
            return;
        }
        proof {
            let j = choose|j: int|
                idx <= j < total && !snake.body_seq().contains(cell_at(j, w as int));
            assert(j != idx);
        }
        idx = idx + 1;
    }
}

} // verus!
