use constant_snake::{Apple, GameConfig, Point, Snake, SnakeChange, SnakeStepResult};
use constant_snake::apple::randomize_apple_pos;

fn p(x: i32, y: i32) -> Point {
    Point::new(x, y)
}

/// Feed the snake an apple directly ahead and assert it grows by one.
fn eat(snake: &mut Snake, apple: Point) {
    let before = snake.len();
    let r = snake.step(apple);
    assert_eq!(
        r,
        SnakeStepResult::AppleEaten(SnakeChange { cell_added: apple, cell_removed: None })
    );
    assert_eq!(snake.len(), before + 1);
}

#[test]
fn advance_scenario() {
    // head at (5,5), direction (1,0), tail at (2,5) on a 10x10 grid
    let config = GameConfig::new(10, 10, 150);
    let mut snake = Snake::new(p(2, 5), &config);
    eat(&mut snake, p(3, 5));
    eat(&mut snake, p(4, 5));
    eat(&mut snake, p(5, 5));
    assert_eq!(snake.len(), 4);

    let r = snake.step(p(9, 9));
    assert_eq!(
        r,
        SnakeStepResult::Advanced(SnakeChange {
            cell_added: p(6, 5),
            cell_removed: Some(p(2, 5)),
        })
    );
    assert_eq!(snake.len(), 4);
}

#[test]
fn growth_scenario() {
    // food directly ahead of the head
    let config = GameConfig::new(10, 10, 150);
    let mut snake = Snake::new(p(4, 4), &config);
    let r = snake.step(p(5, 4));
    assert_eq!(
        r,
        SnakeStepResult::AppleEaten(SnakeChange { cell_added: p(5, 4), cell_removed: None })
    );
    assert_eq!(snake.len(), 2);
}

#[test]
fn collision_scenario() {
    // a snake of length 5 turned back into its own body (not the tail)
    let config = GameConfig::new(10, 10, 150);
    let mut snake = Snake::new(p(2, 5), &config);
    eat(&mut snake, p(3, 5));
    eat(&mut snake, p(4, 5));
    eat(&mut snake, p(5, 5));
    eat(&mut snake, p(6, 5));
    assert_eq!(snake.len(), 5);

    snake.set_direction(p(0, 1));
    let r = snake.step(p(9, 9));
    assert_eq!(
        r,
        SnakeStepResult::Advanced(SnakeChange {
            cell_added: p(6, 6),
            cell_removed: Some(p(2, 5)),
        })
    );
    snake.set_direction(p(-1, 0));
    let r = snake.step(p(9, 9));
    assert_eq!(
        r,
        SnakeStepResult::Advanced(SnakeChange {
            cell_added: p(5, 6),
            cell_removed: Some(p(3, 5)),
        })
    );
    // next cell up is (5,5): a live segment, and not the current tail (4,5)
    snake.set_direction(p(0, -1));
    let r = snake.step(p(9, 9));
    assert_eq!(r, SnakeStepResult::GameOver);
    assert_eq!(snake.len(), 5);
}

#[test]
fn collision_with_tail_cell_counts() {
    // the cell just vacated by the tail is still a collision on this tick
    let config = GameConfig::new(10, 10, 150);
    let mut snake = Snake::new(p(2, 5), &config);
    eat(&mut snake, p(3, 5));
    eat(&mut snake, p(4, 5));
    eat(&mut snake, p(5, 5));
    snake.set_direction(p(0, 1));
    snake.step(p(9, 9));
    snake.set_direction(p(-1, 0));
    snake.step(p(9, 9));
    // body is now {(4,5),(5,5),(5,6),(4,6)}, head (4,6); up is the tail (4,5)
    snake.set_direction(p(0, -1));
    assert_eq!(snake.step(p(9, 9)), SnakeStepResult::GameOver);
}

#[test]
fn win_boundary() {
    // on a 2x2 grid a snake of length 3 that eats reaches the full length 4
    let config = GameConfig::new(2, 2, 150);
    assert_eq!(config.total_cells(), 4);
    let mut snake = Snake::new(p(0, 0), &config);
    eat(&mut snake, p(1, 0));
    snake.set_direction(p(0, 1));
    eat(&mut snake, p(1, 1));
    snake.set_direction(p(-1, 0));
    assert_eq!(snake.len(), 3);
    eat(&mut snake, p(0, 1));
    // the caller-level win check fires here, before any food placement
    assert_eq!(snake.len(), config.total_cells());
    // with the grid full, any further step collides
    assert_eq!(snake.step(p(0, 0)), SnakeStepResult::GameOver);
}

#[test]
fn reversal_is_rejected() {
    // asking for the exact opposite direction leaves the course unchanged
    let config = GameConfig::new(10, 10, 150);
    let mut snake = Snake::new(p(5, 5), &config);
    snake.set_direction(p(-1, 0));
    let r = snake.step(p(9, 9));
    assert_eq!(
        r,
        SnakeStepResult::Advanced(SnakeChange {
            cell_added: p(6, 5),
            cell_removed: Some(p(5, 5)),
        })
    );
}

#[test]
fn other_directions_are_accepted() {
    let config = GameConfig::new(10, 10, 150);
    let mut snake = Snake::new(p(5, 5), &config);
    snake.set_direction(p(0, 1));
    let r = snake.step(p(9, 9));
    assert_eq!(
        r,
        SnakeStepResult::Advanced(SnakeChange {
            cell_added: p(5, 6),
            cell_removed: Some(p(5, 5)),
        })
    );
    snake.set_direction(p(1, 0));
    let r = snake.step(p(9, 9));
    assert_eq!(
        r,
        SnakeStepResult::Advanced(SnakeChange {
            cell_added: p(6, 6),
            cell_removed: Some(p(5, 6)),
        })
    );
}

#[test]
fn wraparound_right_edge() {
    let config = GameConfig::new(10, 10, 150);
    let mut snake = Snake::new(p(9, 3), &config);
    let r = snake.step(p(4, 4));
    assert_eq!(
        r,
        SnakeStepResult::Advanced(SnakeChange {
            cell_added: p(0, 3),
            cell_removed: Some(p(9, 3)),
        })
    );
}

#[test]
fn wraparound_uses_height_on_vertical_axis() {
    // on a non-square 3x2 grid, moving down from the bottom row must wrap
    // to row 0, reduced modulo the height
    let config = GameConfig::new(3, 2, 150);
    let mut snake = Snake::new(p(1, 1), &config);
    snake.set_direction(p(0, 1));
    let r = snake.step(p(2, 0));
    assert_eq!(
        r,
        SnakeStepResult::Advanced(SnakeChange {
            cell_added: p(1, 0),
            cell_removed: Some(p(1, 1)),
        })
    );
}

#[test]
fn wraparound_full_cycle_returns_home() {
    // width * height steps in one direction bring the head back to where
    // it started, never leaving the grid
    let config = GameConfig::new(3, 2, 150);
    let mut snake = Snake::new(p(1, 1), &config);
    let mut head = p(1, 1);
    for _ in 0..6 {
        let r = snake.step(p(0, 0));
        match r {
            SnakeStepResult::Advanced(change) => {
                head = change.cell_added;
                assert!(0 <= head.x && head.x < 3);
                assert!(0 <= head.y && head.y < 2);
            }
            other => panic!("expected Advanced, got {:?}", other),
        }
    }
    assert_eq!(head, p(1, 1));
}

#[test]
fn overlaps_tracks_the_body() {
    let config = GameConfig::new(10, 10, 150);
    let mut snake = Snake::new(p(2, 5), &config);
    assert!(snake.overlaps(p(2, 5)));
    assert!(!snake.overlaps(p(3, 5)));
    eat(&mut snake, p(3, 5));
    assert!(snake.overlaps(p(2, 5)));
    assert!(snake.overlaps(p(3, 5)));
    let r = snake.step(p(9, 9));
    assert_eq!(
        r,
        SnakeStepResult::Advanced(SnakeChange {
            cell_added: p(4, 5),
            cell_removed: Some(p(2, 5)),
        })
    );
    assert!(!snake.overlaps(p(2, 5)));
    assert!(snake.overlaps(p(3, 5)));
    assert!(snake.overlaps(p(4, 5)));
}

#[test]
fn apple_lands_on_the_only_free_cell() {
    // on a 2x1 grid with the single cell (0,0) occupied, the apple can
    // only be placed on (1,0), whatever the random samples do
    let config = GameConfig::new(2, 1, 150);
    let snake = Snake::new(p(0, 0), &config);
    let mut apple = Apple::new(p(0, 0));
    randomize_apple_pos(&snake, &config, &mut apple);
    assert_eq!(apple.position(), p(1, 0));
}

#[test]
fn apple_avoids_the_snake() {
    let config = GameConfig::new(4, 4, 150);
    let mut snake = Snake::new(p(0, 0), &config);
    eat(&mut snake, p(1, 0));
    eat(&mut snake, p(2, 0));
    let mut apple = Apple::new(p(2, 0));
    for _ in 0..32 {
        randomize_apple_pos(&snake, &config, &mut apple);
        let pos = apple.position();
        assert!(!snake.overlaps(pos));
        assert!(0 <= pos.x && pos.x < 4 && 0 <= pos.y && pos.y < 4);
    }
}
