use yggdrasil::invaders::{
    Bullet, InvadersSession, ALIEN_GAP, ALIEN_W, COLS, H, PLAYER_STEP, PLAYER_W, ROWS, W,
};

/// The seed the host hands out when it has no random source.
const SEED: u64 = 0xdead_beef_cafe_babe;


fn new_session() -> InvadersSession {
    let mut s = InvadersSession::default();
    s.rng_state = 42; // deterministic
    s.player_x = W / 2 - PLAYER_W / 2;
    s.spawn_aliens();
    s.initialized = true;
    s
}

// --- Initial state ---

#[test]
fn initial_state_not_over() {
    let s = new_session();
    assert!(!s.is_over);
    assert!(!s.won);
    assert_eq!(s.score, 0);
    assert_eq!(s.lives, 3);
}

#[test]
fn initial_aliens_count() {
    let s = new_session();
    assert_eq!(s.aliens.len(), ROWS * COLS);
    assert_eq!(s.alive_count(), ROWS * COLS);
}

#[test]
fn initial_alien_positions() {
    let s = new_session();
    // First alien: row 0, col 0
    assert_eq!(s.aliens[0].x, 30);
    assert_eq!(s.aliens[0].y, 50);
    assert_eq!(s.aliens[0].row, 0);
    // Second alien: row 0, col 1
    assert_eq!(s.aliens[1].x, 30 + (ALIEN_W + ALIEN_GAP));
}

// --- Player movement ---

#[test]
fn player_moves_left() {
    let mut s = new_session();
    let before = s.player_x;
    s.move_left();
    assert_eq!(s.player_x, before - PLAYER_STEP);
}

#[test]
fn player_moves_right() {
    let mut s = new_session();
    let before = s.player_x;
    s.move_right();
    assert_eq!(s.player_x, before + PLAYER_STEP);
}

#[test]
fn player_clamped_at_left_wall() {
    let mut s = new_session();
    s.player_x = 0;
    s.move_left();
    assert_eq!(s.player_x, 0);
}

#[test]
fn player_clamped_at_right_wall() {
    let mut s = new_session();
    s.player_x = W - PLAYER_W;
    s.move_right();
    assert_eq!(s.player_x, W - PLAYER_W);
}

// --- Shooting ---

#[test]
fn fire_adds_player_bullet() {
    let mut s = new_session();
    let before = s.bullets.iter().filter(|b| !b.alien).count();
    s.fire();
    assert_eq!(s.bullets.iter().filter(|b| !b.alien).count(), before + 1);
}

#[test]
fn fire_bullet_has_correct_vy() {
    let mut s = new_session();
    s.fire();
    let b = s.bullets.iter().find(|b| !b.alien).unwrap();
    assert_eq!(b.vy, -8);
    assert!(!b.alien);
}

#[test]
fn fire_bullet_centered_on_player() {
    let mut s = new_session();
    s.fire();
    let b = s.bullets.iter().find(|b| !b.alien).unwrap();
    assert_eq!(b.x, s.player_x + PLAYER_W / 2);
}

#[test]
fn max_three_player_bullets() {
    let mut s = new_session();
    for _ in 0..5 {
        s.fire();
    }
    assert!(s.bullets.iter().filter(|b| !b.alien).count() <= 3);
}

// --- Alien movement ---

#[test]
fn alien_move_interval_decreases_as_aliens_die() {
    let mut s = new_session();
    let initial = s.alien_move_interval();
    // Kill half the aliens.
    for a in s.aliens.iter_mut().take(ROWS * COLS / 2) {
        a.alive = false;
    }
    let after = s.alien_move_interval();
    assert!(
        after <= initial,
        "interval should decrease or stay when aliens die"
    );
}

#[test]
fn alien_shoot_interval_decreases_as_aliens_die() {
    let mut s = new_session();
    let initial = s.alien_shoot_interval();
    for a in s.aliens.iter_mut().take(20) {
        a.alive = false;
    }
    let after = s.alien_shoot_interval();
    assert!(after <= initial);
}

#[test]
fn aliens_move_horizontally_on_tick() {
    let mut s = new_session();
    // Force enough ticks to trigger at least one alien move.
    let interval = s.alien_move_interval();
    let initial_x = s.aliens[0].x;
    for _ in 0..interval {
        s.alien_ticks += 1;
    }
    // Manually trigger the move logic via advance_tick.
    s.advance_tick();
    // With alien_ticks == interval at start of advance, the move fires once
    // and resets to 0. Aliens should have moved.
    let moved_x = s.aliens[0].x;
    // They started at initial_x + (interval ticks of advance_tick increments).
    // After the tick that triggers, they should move ALIEN_SPEED.
    assert_ne!(moved_x, initial_x, "aliens should have moved");
}

// --- Collision detection ---

#[test]
fn player_bullet_kills_alien() {
    let mut s = new_session();
    // Bullets move by vy=-8 before collision check.
    // Place the bullet 8 pixels below the alien so after moving it lands
    // inside the alien AABB.
    let ax = s.aliens[0].x;
    let ay = s.aliens[0].y;
    s.bullets.push(Bullet {
        x: ax + 1,
        y: ay + 9, // after vy=-8 → y becomes ay+1, inside AABB [ay, ay+ALIEN_H]
        vy: -8,
        alien: false,
    });
    s.advance_tick();
    assert!(!s.aliens[0].alive, "alien should be killed");
    assert!(s.score > 0, "score should increase");
}

#[test]
fn alien_bullet_hits_player_reduces_lives() {
    let mut s = new_session();
    let lives_before = s.lives;
    // Alien bullets move by vy=+3 before collision check.
    // Place bullet 3 pixels above the player rect so after movement
    // it lands inside [py, py+PLAYER_H].
    let px = s.player_x;
    let py = InvadersSession::player_y();
    s.bullets.push(Bullet {
        x: px + 1,
        y: py - 2, // after vy=+3 → py+1, inside [py, py+PLAYER_H=10]
        vy: 3,
        alien: true,
    });
    s.advance_tick();
    assert_eq!(s.lives, lives_before - 1);
}

#[test]
fn losing_all_lives_ends_game() {
    let mut s = new_session();
    s.lives = 1;
    let px = s.player_x;
    let py = InvadersSession::player_y();
    s.bullets.push(Bullet {
        x: px + 1,
        y: py - 2, // after vy=+3 → py+1, inside player rect
        vy: 3,
        alien: true,
    });
    s.advance_tick();
    assert!(s.is_over);
    assert!(!s.won);
}

#[test]
fn killing_all_aliens_wins() {
    let mut s = new_session();
    for a in &mut s.aliens {
        a.alive = false;
    }
    let ended = s.advance_tick();
    assert!(ended);
    assert!(s.won);
    assert!(s.is_over);
}

#[test]
fn score_by_row_top_row_worth_more() {
    let mut s = new_session();
    // Shoot a row-0 alien (top row = ROWS - row = 4 × 10 = 40 pts).
    // Bullets move by vy=-8 before collision, so offset y by +9 so
    // after movement the bullet is at ay+1 (inside AABB).
    let ax = s.aliens[0].x; // row 0, col 0
    let ay = s.aliens[0].y;
    let row = s.aliens[0].row;
    assert_eq!(row, 0);
    s.bullets.push(Bullet {
        x: ax + 1,
        y: ay + 9,
        vy: -8,
        alien: false,
    });
    s.advance_tick();
    // (ROWS - 0) * 10 = 40
    assert_eq!(s.score, 40);
}

#[test]
fn score_by_row_bottom_row_worth_less() {
    let mut s = new_session();
    // Row 3 (bottom) alien.
    let bottom_ai = (ROWS - 1) * COLS;
    let ax = s.aliens[bottom_ai].x;
    let ay = s.aliens[bottom_ai].y;
    let row = s.aliens[bottom_ai].row;
    assert_eq!(row, ROWS - 1);
    s.bullets.push(Bullet {
        x: ax + 1,
        y: ay + 9, // after vy=-8 → ay+1, inside AABB
        vy: -8,
        alien: false,
    });
    s.advance_tick();
    // (ROWS - 3) * 10 = 10
    assert_eq!(s.score, 10);
}

// --- Process / JSON ---

#[test]
fn process_empty_returns_valid_json() {
    let mut s = new_session();
    s.process_action(Some(""), SEED);
    let _player_x: i32 = s.player_x;
    assert_eq!(s.aliens.len(), ROWS * COLS);
    assert_eq!(s.score, 0);
    assert_eq!(s.lives, 3);
    assert!(!s.is_over);
    assert!(!s.won);
    assert_eq!(W, 480);
    assert_eq!(H, 480);
}

#[test]
fn process_fire_action() {
    let mut s = new_session();
    s.process_action(Some("fire"), SEED);
    assert!(s.bullets.iter().any(|b| !b.alien));
}

#[test]
fn process_invalid_json_returns_error_session_alive() {
    let mut s = new_session();
    // input that cannot be read reaches the session as no action
    let before = s.bullets.len();
    s.process_action(None, SEED);
    assert_eq!(s.bullets.len(), before);
    assert!(!s.is_over);
}

#[test]
fn process_initializes_on_first_call() {
    let mut s = InvadersSession::default();
    assert!(!s.initialized);
    s.process_action(Some(""), SEED);
    assert!(s.initialized);
    assert_eq!(s.aliens.len(), ROWS * COLS);
}

#[test]
fn actions_ignored_when_game_is_over() {
    let mut s = new_session();
    s.is_over = true;
    let score_before = s.score;
    s.process_action(Some("fire"), SEED);
    s.process_action(Some("left"), SEED);
    assert_eq!(s.score, score_before);
}
