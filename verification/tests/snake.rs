use yggdrasil::snake::{SnakeSession, HEIGHT, WIDTH};

fn new_session() -> SnakeSession {
    let mut s = SnakeSession::default();
    s.init();
    s
}

// --- Initialization ---

#[test]
fn initial_state_not_over_score_zero() {
    let s = new_session();
    assert!(!s.is_over);
    assert_eq!(s.score, 0);
    assert_eq!(s.snake.len(), 3);
    assert_eq!(s.snake[0], [20, 10]);
}

#[test]
fn process_empty_input_returns_valid_state() {
    let mut s = SnakeSession::default();
    s.process_action(Some(None));
    assert_eq!(WIDTH, 40);
    assert_eq!(HEIGHT, 20);
    assert_eq!(s.score, 0);
    assert!(!s.is_over);
}

// --- Movement ---

#[test]
fn move_right_advances_head() {
    let mut s = new_session();
    s.process_action(Some(Some("right")));
    // head was [20,10], moves to [21,10]
    assert_eq!(s.snake[0][0], 21);
    assert_eq!(s.snake[0][1], 10);
    assert!(!s.is_over);
}

#[test]
fn move_up_changes_direction() {
    let mut s = new_session();
    s.process_action(Some(Some("up")));
    // head was [20,10], moves to [20,9]
    assert_eq!(s.snake[0][0], 20);
    assert_eq!(s.snake[0][1], 9);
}

// --- 180° reversal prevention ---

#[test]
fn no_reverse_180_right_to_left() {
    let mut s = new_session();
    // Going right, trying left — ignored, the snake continues right.
    s.process_action(Some(Some("left")));
    assert_eq!(s.snake[0][0], 21);
    assert!(!s.is_over);
}

// --- Wall collision ---

#[test]
fn lib_wall_collision_ends_game() {
    let mut s = new_session();
    // After 18 right moves the head reaches [38,10]; the next one hits the wall at x=39.
    for _ in 0..19 {
        s.process_action(Some(Some("right")));
    }
    assert!(s.is_over);
}

// --- Quit ---

#[test]
fn quit_action_sets_game_over() {
    let mut s = new_session();
    s.process_action(Some(Some("quit")));
    assert!(s.is_over);
}

#[test]
fn process_after_quit_does_not_advance() {
    let mut s = new_session();
    s.process_action(Some(Some("quit")));
    s.process_action(Some(None));
    let before = s.snake.clone();
    s.process_action(Some(Some("right")));
    assert_eq!(before, s.snake);
}

// --- Food / scoring ---

#[test]
fn food_eaten_increases_score_and_grows_snake() {
    let mut s = new_session();
    s.food = [21, 10];
    let initial_len = s.snake.len();
    s.process_action(Some(Some("right")));
    assert_eq!(s.score, 10);
    assert_eq!(s.snake.len(), initial_len + 1);
}

#[test]
fn food_not_eaten_keeps_score_zero() {
    let mut s = new_session();
    s.process_action(Some(Some("right")));
    assert_eq!(s.score, 0);
}

// --- Self-collision ---

#[test]
fn self_collision_ends_game() {
    let mut s = new_session();
    s.snake = vec![[5, 10], [6, 10], [7, 10]];
    s.dir = [0, 1];
    s.next_dir = [0, 1];
    s.dir = [0, 1];
    s.next_dir = [1, 0]; // queue right
    s.process_action(Some(Some("right")));
    assert!(s.is_over);
}

// --- Invalid input ---

#[test]
fn invalid_json_returns_error() {
    let mut s = new_session();
    let before = s.snake.clone();
    s.process_action(None);
    assert_eq!(s.snake, before);
    assert!(!s.is_over);
}

#[test]
fn output_contains_all_required_fields() {
    let mut s = SnakeSession::default();
    s.process_action(Some(None));
    assert_eq!(s.snake.len(), 3);
    assert_eq!(s.food, [10, 5]);
    assert_eq!(s.score, 0);
    assert!(!s.is_over);
}

// --- Food placement ---

#[test]
fn new_food_goes_to_first_free_interior_cell() {
    let mut s = new_session();
    s.snake = vec![[2, 1], [1, 1], [1, 2]];
    s.dir = [1, 0];
    s.next_dir = [1, 0];
    s.food = [3, 1];
    s.process_action(Some(None));
    assert_eq!(s.score, 10);
    assert_eq!(s.snake[0], [3, 1]);
    // (1,1), (2,1) and (3,1) are body now; (4,1) is the first free cell.
    assert_eq!(s.food, [4, 1]);
}

#[test]
fn place_food_skips_covered_cells() {
    let mut s = new_session();
    s.snake = vec![[1, 1], [2, 1], [3, 1]];
    s.place_food();
    assert_eq!(s.food, [4, 1]);
    assert!(s.covers(2, 1));
    assert!(!s.covers(4, 1));
}

#[test]
fn unknown_word_keeps_heading() {
    let mut s = new_session();
    s.process_action(Some(Some("jump")));
    assert_eq!(s.snake[0], [21, 10]);
    assert_eq!(s.dir, [1, 0]);
}

#[test]
fn down_then_left_turns_twice() {
    let mut s = new_session();
    s.process_action(Some(Some("down")));
    assert_eq!(s.snake[0], [20, 11]);
    s.process_action(Some(Some("left")));
    assert_eq!(s.snake[0], [19, 11]);
    assert_eq!(s.snake.len(), 3);
}
