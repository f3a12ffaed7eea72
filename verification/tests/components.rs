use constant_snake::{Apple, Bitmask, Error, GameConfig, Point};

fn p(x: i32, y: i32) -> Point {
    Point::new(x, y)
}

#[test]
fn config_total_cells() {
    let config = GameConfig::new(20, 20, 150);
    assert_eq!(config.total_cells(), 400);
    let config = GameConfig::new(3, 2, 10);
    assert_eq!(config.total_cells(), 6);
}

#[test]
fn config_default_values() {
    let config = GameConfig::default();
    assert_eq!(config.screen_width, 20);
    assert_eq!(config.screen_height, 20);
    assert_eq!(config.snake_speed, 150);
}

#[test]
fn point_equality_and_fields() {
    let a = Point::new(3, -7);
    assert_eq!(a.x, 3);
    assert_eq!(a.y, -7);
    assert_eq!(a, p(3, -7));
    assert_ne!(a, p(3, 7));
    let b = a.plus(p(-1, 2));
    assert_eq!(b, p(2, -5));
    assert_eq!(p(1, 0).negated(), p(-1, 0));
}

#[test]
fn bitmask_set_and_get() {
    let config = GameConfig::new(9, 5, 150);
    let mut mask = Bitmask::new(&config);
    for y in 0..5 {
        for x in 0..9 {
            assert!(!mask.get(p(x, y)));
        }
    }
    mask.set(p(4, 3), true);
    mask.set(p(8, 0), true);
    mask.set(p(0, 4), true);
    for y in 0..5 {
        for x in 0..9 {
            let expected = (x, y) == (4, 3) || (x, y) == (8, 0) || (x, y) == (0, 4);
            assert_eq!(mask.get(p(x, y)), expected, "at ({}, {})", x, y);
        }
    }
    mask.set(p(4, 3), false);
    assert!(!mask.get(p(4, 3)));
    assert!(mask.get(p(8, 0)));
    assert!(mask.get(p(0, 4)));
}

#[test]
fn bitmask_neighbouring_bits_are_independent() {
    // cells 8 apart share nothing; cells next to each other share a byte
    let config = GameConfig::new(16, 1, 150);
    let mut mask = Bitmask::new(&config);
    mask.set(p(7, 0), true);
    assert!(mask.get(p(7, 0)));
    assert!(!mask.get(p(6, 0)));
    assert!(!mask.get(p(8, 0)));
    mask.set(p(8, 0), true);
    mask.set(p(7, 0), false);
    assert!(!mask.get(p(7, 0)));
    assert!(mask.get(p(8, 0)));
}

#[test]
fn apple_moves_where_told() {
    let mut apple = Apple::new(p(1, 0));
    assert_eq!(apple.position(), p(1, 0));
    apple.move_to(p(7, 3));
    assert_eq!(apple.position(), p(7, 3));
}

#[test]
fn io_errors_convert() {
    let io_err = std::io::Error::new(std::io::ErrorKind::Other, "terminal gone");
    let err = Error::from(io_err);
    assert!(matches!(err, Error::Io(_)));
}
