use yggdrasil::core_game::{GameAction, Input};
use yggdrasil::ygg_snake::YggSnake;

fn make_game() -> YggSnake {
    YggSnake::new(40, 20)
}

#[test]
fn snake_new_game_not_over_and_score_zero() {
    let g = make_game();
    assert!(!g.is_over());
    assert_eq!(g.score(), 0);
}

#[test]
fn quit_input_ends_game_with_quit_action() {
    let mut g = make_game();
    let action = g.tick(Input::Quit);
    assert_eq!(action, GameAction::Quit);
    assert!(g.is_over());
}

#[test]
fn snake_tick_after_game_over_returns_quit() {
    let mut g = make_game();
    g.tick(Input::Quit);
    let action = g.tick(Input::Right);
    assert_eq!(action, GameAction::Quit);
}

#[test]
fn continue_on_valid_move() {
    let mut g = make_game();
    let action = g.tick(Input::Right);
    assert_eq!(action, GameAction::Continue);
    assert!(!g.is_over());
}

#[test]
fn snake_wall_collision_ends_game() {
    let mut g = make_game();
    // Snake starts at (20, 10) going right; right wall is x=39
    let mut action = GameAction::Continue;
    for _ in 0..25 {
        action = g.tick(Input::Right);
        if action == GameAction::Quit {
            break;
        }
    }
    assert_eq!(action, GameAction::Quit);
    assert!(g.is_over());
}

#[test]
fn no_reverse_180_turn() {
    let mut g = make_game();
    // Going right, trying to go left is ignored
    g.tick(Input::Right);
    let action = g.tick(Input::Left);
    // Should still be going right, not crash immediately
    assert_eq!(action, GameAction::Continue);
}

#[test]
fn eating_grows_scores_and_moves_the_food() {
    let mut g = make_game();
    // Food at (10, 5): go up five rows, then left ten columns.
    assert_eq!(g.food, (10, 5));
    for _ in 0..5 {
        assert_eq!(g.tick(Input::Up), GameAction::Continue);
    }
    for _ in 0..10 {
        assert_eq!(g.tick(Input::Left), GameAction::Continue);
    }
    assert_eq!(g.score(), 10);
    assert_eq!(g.snake_body.len(), 4);
    assert_eq!(g.snake_body[0], (10, 5));
    // The next food is the first free cell, row by row.
    assert_eq!(g.food, (1, 1));
}
