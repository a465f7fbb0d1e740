use yggdrasil::invaders::{COLS, PLAYER_W, ROWS, W};
use yggdrasil::core_game::{GameAction, Input};
use yggdrasil::ygg_invaders::{InvadersOptions, YggInvaders};

fn make_game() -> YggInvaders {
    YggInvaders::new()
}

fn player_bullets(g: &YggInvaders) -> usize {
    g.game.bullets.iter().filter(|b| !b.alien).count()
}

#[test]
fn invaders_new_game_not_over_and_score_zero() {
    let g = make_game();
    assert!(!g.is_over());
    assert_eq!(g.score(), 0);
}

#[test]
fn invaders_quit_input_ends_game() {
    let mut g = make_game();
    let action = g.tick(Input::Quit);
    assert_eq!(action, GameAction::Quit);
    assert!(g.is_over());
}

#[test]
fn invaders_tick_after_game_over_returns_quit() {
    let mut g = make_game();
    g.tick(Input::Quit);
    assert_eq!(g.tick(Input::Idle), GameAction::Quit);
}

#[test]
fn tick_returns_continue() {
    let mut g = make_game();
    assert_eq!(g.tick(Input::Idle), GameAction::Continue);
}

#[test]
fn invaders_render_has_expected_fields() {
    let g = make_game();
    let r = g.render();
    assert_eq!(r.player_x, W / 2 - PLAYER_W / 2);
    assert_eq!(r.aliens.len(), ROWS * COLS);
    assert_eq!(r.score, 0);
    assert_eq!(r.lives, 3);
    assert!(!r.game_over);
    assert!(!r.won);
}

#[test]
fn invaders_player_moves_left() {
    let mut g = make_game();
    let initial_x = g.game.player_x;
    g.tick(Input::Left);
    assert!(g.game.player_x < initial_x);
}

#[test]
fn invaders_player_moves_right() {
    let mut g = make_game();
    let initial_x = g.game.player_x;
    g.tick(Input::Right);
    assert!(g.game.player_x > initial_x);
}

#[test]
fn player_cannot_go_below_zero() {
    let mut g = make_game();
    g.game.player_x = 0;
    g.tick(Input::Left);
    assert_eq!(g.game.player_x, 0);
}

#[test]
fn player_cannot_go_past_right_bound() {
    let mut g = make_game();
    g.game.player_x = W - PLAYER_W;
    g.tick(Input::Right);
    assert_eq!(g.game.player_x, W - PLAYER_W);
}

#[test]
fn shoot_adds_player_bullet() {
    let mut g = make_game();
    let before = player_bullets(&g);
    g.tick(Input::Action);
    assert_eq!(player_bullets(&g), before + 1);
}

#[test]
fn invaders_max_three_player_bullets() {
    let mut g = make_game();
    for _ in 0..5 {
        g.tick(Input::Action);
    }
    assert!(player_bullets(&g) <= 3);
}

#[test]
fn all_aliens_alive_on_start() {
    let g = make_game();
    assert_eq!(g.alive_count(), ROWS * COLS);
}

#[test]
fn invaders_killing_all_aliens_wins() {
    let mut g = make_game();
    for a in &mut g.game.aliens {
        a.alive = false;
    }
    let action = g.tick(Input::Idle);
    assert_eq!(action, GameAction::Quit);
    assert!(g.game.won);
    assert!(!g.render().game_over);
}

#[test]
fn options_set_the_lives() {
    let g = YggInvaders::with_options(InvadersOptions { lives: Some(5) });
    assert_eq!(g.render().lives, 5);
    let g = YggInvaders::with_options(InvadersOptions::default());
    assert_eq!(g.render().lives, 3);
}

#[test]
fn aliens_march_to_the_edge_and_drop_sixteen() {
    let mut g = make_game();
    let y0 = g.game.aliens[0].y;
    // Moving right by 8 every 20 ticks, the right column (x = 390) reaches
    // the edge (x + 32 >= 480) on its 8th move: x = 454.
    let mut ticks = 0;
    while g.game.alien_dir == 1 {
        g.tick(Input::Idle);
        ticks += 1;
        assert!(ticks < 1000);
    }
    assert_eq!(g.game.aliens[9].x, 454);
    assert_eq!(g.game.aliens[0].y, y0 + 16);
}
