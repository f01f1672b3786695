//! Tests of the game construction and of the movement engine. All values are
//! fixed-point subunits: 10_000_000 subunits are one world unit.

use snake_engine::num::SCALE;
use snake_engine::{Game, Segment, Vector};

fn head(game: &Game) -> Vector {
    let snake = game.get_snake();
    snake[snake.len() - 1]
}

fn path_length(game: &Game) -> i64 {
    let snake = game.get_snake();
    let mut total: i64 = 0;
    for i in 0..snake.len() - 1 {
        total += Segment::new(&snake[i], &snake[i + 1]).length();
    }
    total
}

#[test]
fn construction_centers_the_head() {
    // A 10 x 10 field centres the head at (4.5, 4.5).
    let game = Game::new(10, 10, SCALE, 1, Vector::new(SCALE, 0));
    let h = head(&game);
    assert_eq!(h.x, 45_000_000);
    assert_eq!(h.y, 45_000_000);
}

#[test]
fn construction_rounds_odd_extents() {
    // round(9 / 2) = 5 and round(7 / 2) = 4, so the head sits at (4.5, 3.5).
    let game = Game::new(9, 7, SCALE, 1, Vector::new(SCALE, 0));
    let h = head(&game);
    assert_eq!(h.x, 45_000_000);
    assert_eq!(h.y, 35_000_000);
}

#[test]
fn construction_places_tail_behind_head() {
    // The tail tip lies snake_length units behind the head, against the
    // direction of travel.
    let game = Game::new(10, 10, SCALE, 3, Vector::new(SCALE, 0));
    let snake = game.get_snake();
    assert_eq!(snake.len(), 2);
    assert_eq!(snake[0].x, 15_000_000);
    assert_eq!(snake[0].y, 45_000_000);
}

#[test]
fn construction_sets_the_plain_fields() {
    let game = Game::new(10, 12, 2 * SCALE, 1, Vector::new(0, SCALE));
    assert_eq!(game.width, 10);
    assert_eq!(game.height, 12);
    assert_eq!(game.speed, 2 * SCALE);
    assert_eq!(game.score, 0);
    assert!(game.revert);
    assert_eq!(game.food.x, 5_000_000);
    assert_eq!(game.food.y, 5_000_000);
    assert_eq!(game.get_width(), 10);
}

#[test]
fn zero_timespan_changes_nothing() {
    let mut game = Game::new(10, 10, SCALE, 1, Vector::new(SCALE, 0));
    let before = game.get_snake();
    let revert_before = game.revert;
    let score_before = game.score;
    game.process(0);
    let after = game.get_snake();
    assert_eq!(before.len(), after.len());
    for i in 0..before.len() {
        assert_eq!(before[i].x, after[i].x);
        assert_eq!(before[i].y, after[i].y);
    }
    assert_eq!(game.revert, revert_before);
    assert_eq!(game.score, score_before);
}

#[test]
fn one_tick_advances_the_whole_body() {
    // Speed 1, timespan 1: every vertex advances one unit along +x while the
    // sweep runs in its `revert == true` mode.
    let mut game = Game::new(10, 10, SCALE, 1, Vector::new(SCALE, 0));
    game.process(SCALE);
    let snake = game.get_snake();
    assert_eq!(snake[0].x, 45_000_000);
    assert_eq!(snake[0].y, 45_000_000);
    assert_eq!(snake[1].x, 55_000_000);
    assert_eq!(snake[1].y, 45_000_000);
}

#[test]
fn right_boundary_flips_the_sweep() {
    // The head starts at x = 4.5 and walks right one unit per tick. Once it
    // stands past x = width, the next tick flips the sweep flag and the
    // head's motion reverses in x.
    let mut game = Game::new(10, 10, SCALE, 1, Vector::new(SCALE, 0));
    for _ in 0..6 {
        game.process(SCALE);
    }
    assert!(game.revert);
    assert_eq!(head(&game).x, 105_000_000);
    game.process(SCALE);
    assert!(!game.revert);
    assert_eq!(head(&game).x, 95_000_000);
}

#[test]
fn left_boundary_flips_the_sweep_back() {
    // After the right-boundary turn the head walks left; once it stands at
    // x <= 0, the next tick flips the sweep again and the head turns around.
    let mut game = Game::new(10, 10, SCALE, 1, Vector::new(SCALE, 0));
    for _ in 0..7 {
        game.process(SCALE);
    }
    assert!(!game.revert);
    for _ in 0..10 {
        game.process(SCALE);
    }
    assert_eq!(head(&game).x, -5_000_000);
    game.process(SCALE);
    assert!(game.revert);
    assert_eq!(head(&game).x, 5_000_000);
}

#[test]
fn path_length_stays_conserved_over_many_ticks() {
    // A 5-unit body on a 20 x 20 field, speed 1: over 100 ticks the total
    // path length stays within 0.001 world units of 5.
    let mut game = Game::new(20, 20, SCALE, 5, Vector::new(SCALE, 0));
    let initial = path_length(&game);
    assert_eq!(initial, 5 * SCALE);
    for _ in 0..100 {
        game.process(SCALE);
        let len = path_length(&game);
        assert!((len - initial).abs() <= 10_000, "path length drifted to {}", len);
    }
}

#[test]
fn trim_consumes_vertices_and_bends_the_tail() {
    // A three-vertex body: 3 units along +x, then 2 units along +y. A tick
    // of 4 units eats the first vertex and puts the tail one unit up the
    // second segment; the head advances 4 units along the direction.
    let mut game = Game::new(10, 10, SCALE, 1, Vector::new(SCALE, 0));
    game.snake = vec![
        Vector::new(0, 0),
        Vector::new(30_000_000, 0),
        Vector::new(30_000_000, 20_000_000),
    ];
    game.process(4 * SCALE);
    let snake = game.get_snake();
    assert_eq!(snake.len(), 2);
    assert_eq!(snake[0].x, 30_000_000);
    assert_eq!(snake[0].y, 10_000_000);
    assert_eq!(snake[1].x, 70_000_000);
    assert_eq!(snake[1].y, 20_000_000);
}

#[test]
fn overlong_tick_shrinks_the_body_to_the_head() {
    // A travel distance beyond the whole body length consumes every tail
    // vertex; only the moved head remains.
    let mut game = Game::new(10, 10, SCALE, 1, Vector::new(SCALE, 0));
    game.process(100 * SCALE);
    let snake = game.get_snake();
    assert_eq!(snake.len(), 1);
    assert_eq!(snake[0].x, 45_000_000 + 100 * SCALE);
    assert_eq!(snake[0].y, 45_000_000);
}

#[test]
fn duplicate_vertices_are_consumed_without_harm() {
    // Two coincident vertices form a zero-length segment; a positive tick
    // consumes it rather than dividing by zero.
    let mut game = Game::new(10, 10, SCALE, 1, Vector::new(SCALE, 0));
    game.snake = vec![Vector::new(45_000_000, 45_000_000), Vector::new(45_000_000, 45_000_000)];
    game.process(SCALE);
    let snake = game.get_snake();
    assert_eq!(snake.len(), 1);
    assert_eq!(snake[0].x, 55_000_000);
    assert_eq!(snake[0].y, 45_000_000);
}

#[test]
fn direction_is_never_mutated() {
    let mut game = Game::new(10, 10, SCALE, 1, Vector::new(SCALE, 0));
    for _ in 0..25 {
        game.process(SCALE);
    }
    assert_eq!(game.direction.x, SCALE);
    assert_eq!(game.direction.y, 0);
}

#[test]
fn negative_speed_walks_backwards() {
    // Negative speed is not rejected: the travel distance is negative and
    // the body slides the other way.
    let mut game = Game::new(10, 10, -SCALE, 1, Vector::new(SCALE, 0));
    game.process(SCALE);
    let h = head(&game);
    assert_eq!(h.x, 35_000_000);
    assert_eq!(h.y, 45_000_000);
}
