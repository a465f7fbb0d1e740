use yggdrasil::vim::levels::{all_levels, base_reward};



fn strs(v: &[&str]) -> Vec<String> {
    v.iter().map(|s| s.to_string()).collect()
}

// ── Nível 1: hjkl ────────────────────────────────────────────────────────

#[test]
fn level1_success_at_correct_position() {
    let levels = all_levels();
    let l = &levels[0];
    let lines = strs(&[
        "Mova o cursor",
        "até a posição",
        ".... AQUI",
        "e pressione :w",
    ]);
    assert!(l.check_success(&lines, (2, 4)));
}

#[test]
fn level1_fail_wrong_position() {
    let levels = all_levels();
    let l = &levels[0];
    let lines = strs(&[
        "Mova o cursor",
        "até a posição",
        ".... AQUI",
        "e pressione :w",
    ]);
    assert!(!l.check_success(&lines, (0, 0)));
}

#[test]
fn level1_fail_correct_row_wrong_col() {
    let levels = all_levels();
    let l = &levels[0];
    let lines = strs(&[
        "Mova o cursor",
        "até a posição",
        ".... AQUI",
        "e pressione :w",
    ]);
    assert!(!l.check_success(&lines, (2, 3)));
}

// ── Nível 2: x ───────────────────────────────────────────────────────────

#[test]
fn level2_success_no_x_in_line0() {
    let levels = all_levels();
    let l = &levels[1];
    let lines = strs(&["Corrija o erro", "nesta linha", "pressione :w"]);
    assert!(l.check_success(&lines, (0, 0)));
}

#[test]
fn level2_fail_x_still_present() {
    let levels = all_levels();
    let l = &levels[1];
    let lines = strs(&["Corrija o errox", "nesta linha", "pressione :w"]);
    assert!(!l.check_success(&lines, (0, 0)));
}

#[test]
fn level2_alternative_any_removal_works() {
    let levels = all_levels();
    let l = &levels[1];
    // Linha sem nenhum x também é válida
    let lines = strs(&["Corrigido", "nesta linha", "pressione :w"]);
    assert!(l.check_success(&lines, (0, 0)));
}

// ── Nível 3: dd ──────────────────────────────────────────────────────────

#[test]
fn level3_success_line_removed() {
    let levels = all_levels();
    let l = &levels[2];
    let lines = strs(&["linha 1", "linha 3", "pressione :w"]);
    assert!(l.check_success(&lines, (0, 0)));
}

#[test]
fn level3_fail_line_still_present() {
    let levels = all_levels();
    let l = &levels[2];
    let lines = strs(&["linha 1", "REMOVA ESTA LINHA", "linha 3", "pressione :w"]);
    assert!(!l.check_success(&lines, (0, 0)));
}

#[test]
fn level3_alternative_any_removal() {
    let levels = all_levels();
    let l = &levels[2];
    let lines = strs(&["linha 1", "linha 3"]);
    assert!(l.check_success(&lines, (0, 0)));
}

// ── Nível 4: w/b ─────────────────────────────────────────────────────────

#[test]
fn level4_success_cursor_at_destino() {
    let levels = all_levels();
    let l = &levels[3];
    let lines = strs(&["va para o destino", "sem hjkl", "pressione :w"]);
    // "destino" começa na col 10
    assert!(l.check_success(&lines, (0, 10)));
}

#[test]
fn level4_fail_wrong_col() {
    let levels = all_levels();
    let l = &levels[3];
    let lines = strs(&["va para o destino", "sem hjkl", "pressione :w"]);
    assert!(!l.check_success(&lines, (0, 0)));
}

#[test]
fn level4_fail_wrong_row() {
    let levels = all_levels();
    let l = &levels[3];
    let lines = strs(&["va para o destino", "sem hjkl", "pressione :w"]);
    assert!(!l.check_success(&lines, (1, 0)));
}

// ── Nível 5: i ───────────────────────────────────────────────────────────

#[test]
fn level5_success_sol_present() {
    let levels = all_levels();
    let l = &levels[4];
    let lines = strs(&["O sol brilha", "pressione :w"]);
    assert!(l.check_success(&lines, (0, 0)));
}

#[test]
fn level5_fail_no_sol() {
    let levels = all_levels();
    let l = &levels[4];
    let lines = strs(&["O  brilha", "pressione :w"]);
    assert!(!l.check_success(&lines, (0, 0)));
}

#[test]
fn level5_alternative_sol_anywhere() {
    let levels = all_levels();
    let l = &levels[4];
    let lines = strs(&["sol brilha", "pressione :w"]);
    assert!(l.check_success(&lines, (0, 0)));
}

// ── Nível 6: A ───────────────────────────────────────────────────────────

#[test]
fn level6_success_exact_match() {
    let levels = all_levels();
    let l = &levels[5];
    let lines = strs(&["Olá mundo", "pressione :w"]);
    assert!(l.check_success(&lines, (0, 0)));
}

#[test]
fn level6_fail_missing_mundo() {
    let levels = all_levels();
    let l = &levels[5];
    let lines = strs(&["Olá", "pressione :w"]);
    assert!(!l.check_success(&lines, (0, 0)));
}

#[test]
fn level6_fail_partial_match() {
    let levels = all_levels();
    let l = &levels[5];
    let lines = strs(&["Olá mun", "pressione :w"]);
    assert!(!l.check_success(&lines, (0, 0)));
}

// ── Nível 7: dw ──────────────────────────────────────────────────────────

#[test]
fn level7_success_lixo_removed() {
    let levels = all_levels();
    let l = &levels[6];
    let lines = strs(&["apagar aqui", "pressione :w"]);
    assert!(l.check_success(&lines, (0, 0)));
}

#[test]
fn level7_fail_lixo_present() {
    let levels = all_levels();
    let l = &levels[6];
    let lines = strs(&["apagar LIXO aqui", "pressione :w"]);
    assert!(!l.check_success(&lines, (0, 0)));
}

#[test]
fn level7_alternative_any_removal() {
    let levels = all_levels();
    let l = &levels[6];
    let lines = strs(&["apagar aqui"]);
    assert!(l.check_success(&lines, (0, 0)));
}

// ── Nível 8: yy/p ────────────────────────────────────────────────────────

#[test]
fn level8_success_duplicated() {
    let levels = all_levels();
    let l = &levels[7];
    let lines = strs(&["copie esta linha", "copie esta linha", "pressione :w"]);
    assert!(l.check_success(&lines, (0, 0)));
}

#[test]
fn level8_fail_not_duplicated() {
    let levels = all_levels();
    let l = &levels[7];
    let lines = strs(&["copie esta linha", "pressione :w"]);
    assert!(!l.check_success(&lines, (0, 0)));
}

#[test]
fn level8_fail_wrong_content() {
    let levels = all_levels();
    let l = &levels[7];
    let lines = strs(&["copie esta linha", "outra linha", "pressione :w"]);
    assert!(!l.check_success(&lines, (0, 0)));
}

// ── Nível 9: /search ─────────────────────────────────────────────────────

#[test]
fn level9_success_cursor_at_alvo() {
    let levels = all_levels();
    let l = &levels[8];
    let lines = strs(&["linha um", "linha dois", "alvo encontrado", "pressione :w"]);
    assert!(l.check_success(&lines, (2, 0)));
}

#[test]
fn level9_success_cursor_mid_alvo_line() {
    let levels = all_levels();
    let l = &levels[8];
    // Se "alvo" está mais à frente na linha
    let lines = strs(&[
        "linha um",
        "linha dois",
        "xx alvo encontrado",
        "pressione :w",
    ]);
    assert!(l.check_success(&lines, (2, 3)));
}

#[test]
fn level9_fail_cursor_not_at_alvo() {
    let levels = all_levels();
    let l = &levels[8];
    let lines = strs(&["linha um", "linha dois", "alvo encontrado", "pressione :w"]);
    assert!(!l.check_success(&lines, (0, 0)));
}

// ── Nível 10: :s ─────────────────────────────────────────────────────────

#[test]
fn level10_success_certo_no_errado() {
    let levels = all_levels();
    let l = &levels[9];
    let lines = strs(&["texto certo aqui", "pressione :w"]);
    assert!(l.check_success(&lines, (0, 0)));
}

#[test]
fn level10_fail_errado_still_present() {
    let levels = all_levels();
    let l = &levels[9];
    let lines = strs(&["texto errado aqui", "pressione :w"]);
    assert!(!l.check_success(&lines, (0, 0)));
}

#[test]
fn level10_fail_no_certo() {
    let levels = all_levels();
    let l = &levels[9];
    let lines = strs(&["texto aqui", "pressione :w"]);
    assert!(!l.check_success(&lines, (0, 0)));
}

// ── Recompensas ──────────────────────────────────────────────────────────

#[test]
fn test_base_reward_tiers() {
    assert_eq!(base_reward(1), 10);
    assert_eq!(base_reward(2), 10);
    assert_eq!(base_reward(3), 10);
    assert_eq!(base_reward(4), 20);
    assert_eq!(base_reward(5), 20);
    assert_eq!(base_reward(6), 20);
    assert_eq!(base_reward(7), 20);
    assert_eq!(base_reward(8), 30);
    assert_eq!(base_reward(9), 30);
    assert_eq!(base_reward(10), 30);
}

#[test]
fn test_all_levels_count() {
    assert_eq!(all_levels().len(), 10);
}

#[test]
fn test_all_levels_have_correct_numbers() {
    for (i, l) in all_levels().iter().enumerate() {
        assert_eq!(l.number, i + 1);
    }
}

#[test]
fn nenhum_nivel_comeca_resolvido() {
    for l in all_levels() {
        let lines: Vec<String> = l.initial_text.lines().map(String::from).collect();
        assert!(!l.check_success(&lines, l.cursor_start), "nível {}", l.number);
    }
}
