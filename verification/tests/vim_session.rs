use yggdrasil::vim::VimSession;



#[test]
fn test_session_new_starts_level1() {
    let s = VimSession::new();
    assert_eq!(s.level, 1);
    assert_eq!(s.score, 0);
}

#[test]
fn test_session_state_initial() {
    let s = VimSession::new();
    let state = s.state();
    assert_eq!(state.level, 1);
    assert_eq!(state.score, 0);
    assert!(!state.game_completed);
}

#[test]
fn test_send_key_h_moves_left_but_stays() {
    let mut s = VimSession::new();
    let state = s.send_key("h");
    // cursor at (0,0) — h stays put
    assert_eq!(state.cursor, (0, 0));
}

#[test]
fn test_level1_completion() {
    let mut s = VimSession::new();
    // Level 1: navigate to (2, 4) then :w
    // j j = row 2
    s.send_key("j");
    s.send_key("j");
    // l l l l = col 4
    s.send_key("l");
    s.send_key("l");
    s.send_key("l");
    s.send_key("l");
    // :w
    s.send_key(":");
    s.send_key("w");
    let state = s.send_key("Enter");
    assert_eq!(state.completed_level, Some(1));
    assert_eq!(state.level, 2);
}

#[test]
fn test_level1_no_completion_wrong_position() {
    let mut s = VimSession::new();
    s.send_key(":");
    s.send_key("w");
    let state = s.send_key("Enter");
    assert_eq!(state.completed_level, None);
    assert_eq!(state.level, 1);
}

#[test]
fn test_score_increases_on_level_completion() {
    let mut s = VimSession::new();
    s.send_key("j");
    s.send_key("j");
    s.send_key("l");
    s.send_key("l");
    s.send_key("l");
    s.send_key("l");
    s.send_key(":");
    s.send_key("w");
    let state = s.send_key("Enter");
    // Level 1 reward = 10, no hints = +50% = 15
    assert!(state.score > 0);
}

#[test]
fn test_level2_completion() {
    let mut s = VimSession::new();
    // Skip to level 2 by completing level 1
    s.send_key("j");
    s.send_key("j");
    s.send_key("l");
    s.send_key("l");
    s.send_key("l");
    s.send_key("l");
    s.send_key(":");
    s.send_key("w");
    s.send_key("Enter");
    assert_eq!(s.level, 2);

    // Level 2: delete the 'x' on line 0 col 14
    // Navigate to position of 'x'
    s.send_key("$"); // go to end of line
    // Last char should be 'x'
    s.send_key("x"); // delete it

    s.send_key(":");
    s.send_key("w");
    let state = s.send_key("Enter");
    assert_eq!(state.completed_level, Some(2));
}

#[test]
fn test_quit_ends_game() {
    let mut s = VimSession::new();
    s.send_key(":");
    s.send_key("q");
    let state = s.send_key("Enter");
    assert!(state.game_completed);
}

#[test]
fn test_hint_in_state() {
    let s = VimSession::new();
    let state = s.state();
    assert!(state.hint.is_some());
}
