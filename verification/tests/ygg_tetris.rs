use yggdrasil::core_game::{GameAction, Input};
use yggdrasil::ygg_tetris::{TetrisOptions, YggTetris};

fn make_game() -> YggTetris {
    YggTetris::new()
}

#[test]
fn tetris_new_game_not_over_and_score_zero() {
    let g = make_game();
    assert!(!g.is_over());
    assert_eq!(g.score(), 0);
}

#[test]
fn sprint_limit_encerra_jogo_ao_atingir_n_linhas() {
    let mut g = YggTetris::with_options(TetrisOptions { sprint_lines: Some(3) });
    // Força clear_lines diretamente preenchendo o board com 3 linhas cheias.
    for y in 17..20 {
        g.game.board[y] = vec![1u8; 10];
    }
    g.clear_lines();
    assert_eq!(g.game.lines_cleared, 3);
    assert!(g.game.is_over, "sprint deveria encerrar ao atingir o limite de linhas");
}

#[test]
fn marathon_mode_nao_encerra_ao_limpar_linhas() {
    let mut g = make_game(); // sprint_limit = None
    for y in 17..20 {
        g.game.board[y] = vec![1u8; 10];
    }
    g.clear_lines();
    assert_eq!(g.game.lines_cleared, 3);
    assert!(!g.game.is_over, "marathon não deve encerrar por linhas limpas");
}

#[test]
fn tetris_quit_input_ends_game() {
    let mut g = make_game();
    let action = g.tick(Input::Quit);
    assert_eq!(action, GameAction::Quit);
    assert!(g.is_over());
}

#[test]
fn tetris_tick_after_game_over_returns_quit() {
    let mut g = make_game();
    g.tick(Input::Quit);
    let action = g.tick(Input::Idle);
    assert_eq!(action, GameAction::Quit);
}

#[test]
fn drop_tick_returns_continue() {
    let mut g = make_game();
    let action = g.tick(Input::Idle);
    assert_eq!(action, GameAction::Continue);
    assert!(!g.is_over());
}

#[test]
fn tetris_render_has_expected_fields() {
    let g = make_game();
    let r = g.render();
    assert_eq!(r.board.len(), 20);
    assert_eq!(r.piece.y, 0);
    assert!(r.piece.x >= 0);
    assert_eq!(r.score, 0);
    assert_eq!(r.level, 1);
    assert!(!r.game_over);
}

#[test]
fn line_clear_increases_score() {
    let mut g = make_game();
    // Fill bottom row completely; lock it via clear_lines
    g.game.board[19] = vec![1u8; 10];
    g.clear_lines();
    assert_eq!(g.game.score, 100); // 100 pts × level 1
    assert_eq!(g.game.lines_cleared, 1);
    assert_eq!(g.game.level, 1);
}

#[test]
fn four_line_clear_scores_800() {
    let mut g = make_game();
    for row in &mut g.game.board[16..20] {
        *row = vec![1u8; 10];
    }
    g.clear_lines();
    assert_eq!(g.game.score, 800);
    assert_eq!(g.game.lines_cleared, 4);
}

#[test]
fn left_right_moves_return_continue() {
    let mut g = make_game();
    assert_eq!(g.tick(Input::Left), GameAction::Continue);
    assert_eq!(g.tick(Input::Right), GameAction::Continue);
    assert!(!g.is_over());
}
