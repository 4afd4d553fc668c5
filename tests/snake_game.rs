use snake::{Direction, GameError, Position, SnakeGame};
use std::collections::VecDeque;

fn body(g: &SnakeGame) -> Vec<Position> {
    g.snake.iter().copied().collect()
}

fn game(width: i32, height: i32, snake: Vec<Position>, direction: Direction, food: Position) -> SnakeGame {
    SnakeGame::with_state(width, height, VecDeque::from(snake), direction, food, 0)
}

#[test]
fn test() {
    println!("{:?}", SnakeGame::new(15, 15));
}

#[test]
fn new_game_starts_in_the_middle_row() {
    let g = SnakeGame::new(15, 15);
    assert_eq!(body(&g), vec![(12, 7)]);
    assert_eq!(g.direction, Direction::Left);
    assert_eq!(g.next_direction(), Direction::Left);
    assert_eq!(g.food, (2, 7));
    assert_eq!(g.score, 0);
    assert!(!g.finished);
}

#[test]
fn new_game_on_a_narrow_board_clamps_positions() {
    let g = SnakeGame::new(2, 5);
    assert_eq!(body(&g), vec![(0, 2)]);
    assert_eq!(g.food, (1, 2));
    let g = SnakeGame::new(1, 1);
    assert_eq!(body(&g), vec![(0, 0)]);
    assert_eq!(g.food, (0, 0));
}

#[test]
fn try_new_rejects_a_board_without_cells() {
    assert_eq!(SnakeGame::try_new(0, 5).err(), Some(GameError::InvalidSize));
    assert_eq!(SnakeGame::try_new(5, -1).err(), Some(GameError::InvalidSize));
    let g = SnakeGame::try_new(15, 15).unwrap();
    assert_eq!(body(&g), vec![(12, 7)]);
}

#[test]
fn first_tick_moves_left_without_growing() {
    let mut g = SnakeGame::new(15, 15);
    g.tick();
    assert_eq!(body(&g), vec![(11, 7)]);
    assert_eq!(g.score, 0);
    assert!(!g.finished);
}

#[test]
fn reversal_and_repeat_requests_are_ignored() {
    let mut g = SnakeGame::new(15, 15);
    g.change_direction(Direction::Right);
    assert_eq!(g.next_direction(), Direction::Left);
    g.change_direction(Direction::Left);
    assert_eq!(g.next_direction(), Direction::Left);
    g.tick();
    assert_eq!(g.direction, Direction::Left);
    assert_eq!(body(&g), vec![(11, 7)]);
}

#[test]
fn last_valid_request_wins() {
    let mut g = SnakeGame::new(15, 15);
    g.change_direction(Direction::Up);
    g.change_direction(Direction::Down);
    assert_eq!(g.next_direction(), Direction::Down);
    assert_eq!(g.direction, Direction::Left);
    g.tick();
    assert_eq!(g.direction, Direction::Down);
    assert_eq!(body(&g), vec![(12, 8)]);
}

#[test]
fn wraps_at_the_left_edge() {
    let mut g = game(5, 4, vec![(0, 2), (1, 2)], Direction::Left, (3, 0));
    g.tick();
    assert_eq!(body(&g), vec![(4, 2), (0, 2)]);
    assert!(!g.finished);
}

#[test]
fn wraps_at_the_right_edge() {
    let mut g = game(5, 4, vec![(4, 1), (3, 1)], Direction::Right, (2, 3));
    g.tick();
    assert_eq!(body(&g), vec![(0, 1), (4, 1)]);
}

#[test]
fn wraps_at_the_top_edge() {
    let mut g = game(5, 4, vec![(2, 0), (2, 1)], Direction::Up, (0, 0));
    g.tick();
    assert_eq!(body(&g), vec![(2, 3), (2, 0)]);
}

#[test]
fn wraps_at_the_bottom_edge() {
    let mut g = game(5, 4, vec![(3, 3), (3, 2)], Direction::Down, (0, 0));
    g.tick();
    assert_eq!(body(&g), vec![(3, 0), (3, 3)]);
}

#[test]
fn eating_grows_and_scores_with_chosen_food() {
    let mut g = SnakeGame::new(15, 15);
    for _ in 0..9 {
        g.tick_with(0);
    }
    assert_eq!(body(&g), vec![(3, 7)]);
    g.tick_with(0);
    assert_eq!(body(&g), vec![(2, 7), (3, 7)]);
    assert_eq!(g.score, 1);
    assert_eq!(g.food, (0, 0));
    g.tick_with(0);
    assert_eq!(body(&g), vec![(1, 7), (2, 7)]);
    assert_eq!(g.score, 1);
}

#[test]
fn food_index_counts_free_cells_in_row_major_order() {
    let mut g = game(3, 2, vec![(1, 0)], Direction::Left, (0, 0));
    // free of the grown body: (2,0) (0,1) (1,1) (2,1)
    g.tick_with(7);
    assert_eq!(body(&g), vec![(0, 0), (1, 0)]);
    assert_eq!(g.food, (2, 1));
    assert_eq!(g.score, 1);
}

#[test]
fn eating_with_random_food_lands_on_a_free_cell() {
    let mut g = SnakeGame::new(15, 15);
    for _ in 0..10 {
        g.tick();
    }
    assert_eq!(body(&g), vec![(2, 7), (3, 7)]);
    assert_eq!(g.score, 1);
    assert!(g.is_valid(g.food));
    assert!(!g.snake.contains(&g.food));
    assert!(!g.finished);
}

#[test]
fn free_positions_skip_the_snake() {
    let g = game(2, 2, vec![(0, 0)], Direction::Left, (1, 1));
    assert_eq!(g.free_positions(), vec![(1, 0), (0, 1), (1, 1)]);
}

#[test]
fn is_valid_checks_both_axes() {
    let g = SnakeGame::new(4, 3);
    assert!(g.is_valid((0, 0)));
    assert!(g.is_valid((3, 2)));
    assert!(!g.is_valid((4, 0)));
    assert!(!g.is_valid((0, 3)));
    assert!(!g.is_valid((-1, 1)));
    assert!(!g.is_valid((1, -1)));
}

#[test]
fn eating_the_last_free_cell_wins() {
    let snake = vec![(2, 1), (2, 0), (1, 0), (0, 0), (0, 1), (1, 1), (1, 2), (0, 2)];
    let mut g = game(3, 3, snake.clone(), Direction::Down, (2, 2));
    g.tick();
    assert!(g.finished);
    assert_eq!(g.score, 1);
    assert_eq!(body(&g), snake);
    assert_eq!(g.food, (2, 2));
    g.tick();
    assert_eq!(g.score, 1);
    assert_eq!(body(&g), snake);
}

#[test]
fn eating_the_last_food_cell_of_a_two_cell_board_wins() {
    let mut g = game(2, 1, vec![(1, 0)], Direction::Left, (0, 0));
    g.tick_with(0);
    assert!(g.finished);
    assert_eq!(g.score, 1);
    assert_eq!(body(&g), vec![(1, 0)]);
}

#[test]
fn with_state_has_no_turn_pending() {
    let g = game(4, 4, vec![(1, 1)], Direction::Up, (3, 3));
    assert_eq!(g.direction, Direction::Up);
    assert_eq!(g.next_direction(), Direction::Up);
    assert!(!g.finished);
    assert_eq!(g.score, 0);
}

#[test]
fn moving_into_the_body_ends_the_game() {
    let snake = vec![(1, 1), (2, 1), (2, 0), (1, 0), (0, 0)];
    let mut g = game(4, 4, snake.clone(), Direction::Up, (3, 3));
    g.tick();
    assert!(g.finished);
    assert_eq!(body(&g), snake);
    assert_eq!(g.score, 0);
    assert_eq!(g.food, (3, 3));
}

#[test]
fn moving_into_the_tail_ends_the_game() {
    let snake = vec![(1, 1), (2, 1), (2, 0), (1, 0)];
    let mut g = game(4, 4, snake.clone(), Direction::Up, (3, 3));
    g.tick();
    assert!(g.finished);
    assert_eq!(body(&g), snake);
}

#[test]
fn finished_game_ignores_ticks_and_turns() {
    let snake = vec![(1, 1), (2, 1), (2, 0), (1, 0), (0, 0)];
    let mut g = game(4, 4, snake.clone(), Direction::Up, (3, 3));
    g.tick();
    assert!(g.finished);
    for _ in 0..3 {
        g.change_direction(Direction::Left);
        g.tick();
        g.tick_with(5);
    }
    assert!(g.finished);
    assert_eq!(body(&g), snake);
    assert_eq!(g.score, 0);
    assert_eq!(g.food, (3, 3));
    assert_eq!(g.direction, Direction::Up);
    assert_eq!(g.next_direction(), Direction::Up);
}
