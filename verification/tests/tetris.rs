use yggdrasil::tetris::{piece_shape, rotate_cw, TetrisSession, BOARD_H, BOARD_W};

fn new_session() -> TetrisSession {
    let mut s = TetrisSession::default();
    // Bypass get_random() in tests by setting the seed directly.
    s.rng_state = 12345;
    s.board = vec![vec![0u8; BOARD_W]; BOARD_H];
    s.spawn_piece();
    s.initialized = true;
    s
}

// --- Spawn ---

#[test]
fn spawn_piece_places_piece_at_top() {
    let s = new_session();
    assert_eq!(s.piece_y, 0);
    assert!(s.piece_x >= 0 && s.piece_x < BOARD_W as i32);
    assert!(!s.piece_shape.is_empty());
}

#[test]
fn new_session_not_over_score_zero() {
    let s = new_session();
    assert!(!s.is_over);
    assert_eq!(s.score, 0);
    assert_eq!(s.lines_cleared, 0);
    assert_eq!(s.level, 1);
}

// --- Movement ---

#[test]
fn move_left_decreases_x_when_not_blocked() {
    let mut s = new_session();
    // Force piece to centre so left is always valid.
    s.piece_x = 4;
    let before = s.piece_x;
    s.apply_action("left");
    assert_eq!(s.piece_x, before - 1);
}

#[test]
fn move_right_increases_x_when_not_blocked() {
    let mut s = new_session();
    s.piece_x = 3;
    let before = s.piece_x;
    s.apply_action("right");
    assert_eq!(s.piece_x, before + 1);
}

#[test]
fn move_left_clamped_by_wall() {
    let mut s = new_session();
    // Use O-piece (2×2, all cells filled) so piece_x=0 is truly the wall.
    s.piece_type = 2;
    s.piece_shape = piece_shape(2);
    s.piece_x = 0;
    s.piece_y = 5;
    s.apply_action("left");
    assert_eq!(s.piece_x, 0);
}

#[test]
fn move_right_clamped_by_wall() {
    let mut s = new_session();
    s.piece_type = 2;
    s.piece_shape = piece_shape(2); // 2×2
    s.piece_x = (BOARD_W - 2) as i32; // rightmost valid x
    s.apply_action("right");
    assert_eq!(s.piece_x, (BOARD_W - 2) as i32);
}

// --- Rotate ---

#[test]
fn rotate_changes_shape() {
    let mut s = new_session();
    s.piece_type = 3; // T-piece — asymmetric
    s.piece_shape = piece_shape(3);
    s.piece_x = 3;
    s.piece_y = 5;
    let before = s.piece_shape.clone();
    s.apply_action("rotate");
    assert_ne!(s.piece_shape, before);
}

#[test]
fn rotate_four_times_returns_to_original() {
    let original = piece_shape(3);
    let mut shape = original.clone();
    for _ in 0..4 {
        shape = rotate_cw(&shape);
    }
    assert_eq!(shape, original);
}

// --- Gravity / drop ---

#[test]
fn gravity_moves_piece_down() {
    let mut s = new_session();
    let before_y = s.piece_y;
    s.apply_action("down");
    // Piece either moved down or locked (if it was already at bottom).
    assert!(s.piece_y >= before_y);
}

#[test]
fn hard_drop_locks_piece_immediately() {
    let mut s = new_session();
    let before_type = s.piece_type;
    s.apply_action("drop");
    // After hard drop, the piece is locked and a new one spawned.
    // Score/lines may or may not change, but the board should have
    // at least one non-zero cell.
    let has_locked = s.board.iter().flatten().any(|&c| c != 0) || s.piece_type != before_type;
    assert!(has_locked || !s.is_over);
}

#[test]
fn unknown_action_treated_as_tick() {
    let mut s = new_session();
    let before_y = s.piece_y;
    s.apply_action("bogus");
    // Gravity tick happened (or piece locked if already at bottom row).
    assert!(s.piece_y >= before_y);
}

// --- Line clear ---

#[test]
fn clear_one_line_scores_100_at_level_1() {
    let mut s = new_session();
    s.board[BOARD_H - 1] = vec![1u8; BOARD_W];
    s.clear_lines();
    assert_eq!(s.score, 100);
    assert_eq!(s.lines_cleared, 1);
    assert_eq!(s.level, 1);
}

#[test]
fn clear_two_lines_scores_300() {
    let mut s = new_session();
    for row in &mut s.board[BOARD_H - 2..] {
        *row = vec![1u8; BOARD_W];
    }
    s.clear_lines();
    assert_eq!(s.score, 300);
    assert_eq!(s.lines_cleared, 2);
}

#[test]
fn clear_three_lines_scores_500() {
    let mut s = new_session();
    for row in &mut s.board[BOARD_H - 3..] {
        *row = vec![1u8; BOARD_W];
    }
    s.clear_lines();
    assert_eq!(s.score, 500);
    assert_eq!(s.lines_cleared, 3);
}

#[test]
fn clear_four_lines_scores_800() {
    let mut s = new_session();
    for row in &mut s.board[BOARD_H - 4..] {
        *row = vec![1u8; BOARD_W];
    }
    s.clear_lines();
    assert_eq!(s.score, 800);
    assert_eq!(s.lines_cleared, 4);
}

#[test]
fn clear_lines_inserts_empty_rows_at_top() {
    let mut s = new_session();
    s.board[BOARD_H - 1] = vec![1u8; BOARD_W];
    s.clear_lines();
    assert_eq!(s.board.len(), BOARD_H);
    assert_eq!(s.board[0], vec![0u8; BOARD_W]);
}

#[test]
fn level_advances_at_10_lines() {
    let mut s = new_session();
    for _ in 0..10 {
        s.lines_cleared += 1;
    }
    s.level = s.lines_cleared / 10 + 1;
    assert_eq!(s.level, 2);
}

// --- Game over ---

#[test]
fn game_over_when_piece_spawns_into_occupied_cell() {
    let mut s = new_session();
    // Fill the top two rows so the spawn position is always occupied.
    for row in &mut s.board[0..4] {
        *row = vec![1u8; BOARD_W];
    }
    s.spawn_piece();
    assert!(s.is_over);
}

#[test]
fn lib_actions_ignored_when_game_is_over() {
    let mut s = new_session();
    s.is_over = true;
    let score_before = s.score;
    s.apply_action("left");
    s.apply_action("right");
    assert_eq!(s.score, score_before);
}

// --- Process / JSON ---





// --- Collides ---

#[test]
fn collides_with_left_wall() {
    let mut s = new_session();
    s.piece_type = 2;
    s.piece_shape = piece_shape(2);
    s.piece_x = 0;
    s.piece_y = 5;
    assert!(s.collides_at(-1, 0, &s.piece_shape.clone()));
}

#[test]
fn collides_with_floor() {
    let mut s = new_session();
    s.piece_type = 2;
    s.piece_shape = piece_shape(2);
    s.piece_x = 4;
    s.piece_y = BOARD_H as i32 - 1;
    assert!(s.collides_at(0, 1, &s.piece_shape.clone()));
}

// --- Requests ---

#[test]
fn lib_process_invalid_json_returns_error_session_alive() {
    let mut s = new_session();
    let before = s.piece_y;
    s.process_action(None, 7);
    assert!(!s.is_over, "session should stay alive after invalid input");
    assert_eq!(s.piece_y, before);
}

#[test]
fn lib_process_initializes_on_first_call() {
    let mut s = TetrisSession::default();
    assert!(!s.initialized);
    s.process_action(Some(""), 0);
    assert!(s.initialized);
    assert_eq!(s.board.len(), BOARD_H);
    assert!(s.board.iter().all(|row| row.len() == BOARD_W));
}

#[test]
fn zero_seed_is_replaced_by_the_fixed_seed() {
    let mut a = TetrisSession::default();
    a.init(0);
    let mut b = TetrisSession::default();
    b.init(0xdead_beef_cafe_babe);
    assert_eq!(a.rng_state, b.rng_state);
    assert_eq!(a.piece_type, b.piece_type);
}

#[test]
fn spawn_centres_each_shape() {
    for t in 1..=7u8 {
        let shape = piece_shape(t);
        let x = (BOARD_W as i32 - shape[0].len() as i32) / 2;
        assert!(x == 3 || x == 4);
    }
    assert!(piece_shape(0).is_empty());
    assert!(piece_shape(8).is_empty());
}

#[test]
fn piece_shapes_are_the_classic_seven() {
    assert_eq!(piece_shape(2), vec![vec![1, 1], vec![1, 1]]);
    assert_eq!(piece_shape(4), vec![vec![0, 1, 1], vec![1, 1, 0], vec![0, 0, 0]]);
    assert_eq!(piece_shape(7), vec![vec![0, 0, 1], vec![1, 1, 1], vec![0, 0, 0]]);
    assert_eq!(piece_shape(1).len(), 4);
}

#[test]
fn rotate_turns_the_i_piece_on_its_side() {
    let r = rotate_cw(&piece_shape(1));
    assert_eq!(r, vec![vec![0, 0, 0, 0], vec![1, 1, 1, 1], vec![0, 0, 0, 0], vec![0, 0, 0, 0]]);
}

#[test]
fn rotate_non_square_swaps_dimensions() {
    let shape = vec![vec![1, 2, 3], vec![4, 5, 6]];
    assert_eq!(rotate_cw(&shape), vec![vec![4, 1], vec![5, 2], vec![6, 3]]);
}

#[test]
fn lock_piece_writes_piece_type_into_board() {
    let mut s = new_session();
    s.piece_type = 2;
    s.piece_shape = piece_shape(2);
    s.piece_x = 4;
    s.piece_y = 18;
    s.lock_piece();
    assert_eq!(s.board[18][4], 2);
    assert_eq!(s.board[19][5], 2);
    assert_eq!(s.board[17][4], 0);
}

#[test]
fn clear_keeps_rows_above_in_order() {
    let mut s = new_session();
    s.board[17][0] = 3;
    s.board[18] = vec![1u8; BOARD_W];
    s.board[19][9] = 5;
    s.clear_lines();
    assert_eq!(s.board[18][0], 3);
    assert_eq!(s.board[19][9], 5);
    assert_eq!(s.score, 100);
}

#[test]
fn clear_at_level_three_multiplies_points() {
    let mut s = new_session();
    s.level = 3;
    s.lines_cleared = 20;
    s.board[BOARD_H - 1] = vec![1u8; BOARD_W];
    s.board[BOARD_H - 2] = vec![1u8; BOARD_W];
    s.clear_lines();
    assert_eq!(s.score, 900);
    assert_eq!(s.lines_cleared, 22);
    assert_eq!(s.level, 3);
}

#[test]
fn drop_settles_o_piece_on_floor() {
    let mut s = new_session();
    s.piece_type = 2;
    s.piece_shape = piece_shape(2);
    s.piece_x = 0;
    s.piece_y = 0;
    s.apply_action("drop");
    assert_eq!(s.board[18][0], 2);
    assert_eq!(s.board[19][1], 2);
    assert_eq!(s.piece_y, 0);
}

#[test]
fn game_over_state_ignores_requests() {
    let mut s = new_session();
    s.is_over = true;
    let y = s.piece_y;
    let x = s.piece_x;
    s.process_action(Some("drop"), 1);
    s.process_action(Some("left"), 1);
    assert_eq!(s.piece_y, y);
    assert_eq!(s.piece_x, x);
}
