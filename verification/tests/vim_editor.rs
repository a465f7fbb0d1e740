use yggdrasil::vim::editor::{find_in_line, find_in_line_backward, CommandResult, Editor, Mode};



fn ed(text: &str) -> Editor {
    Editor::new(text, (0, 0))
}

fn ed_at(text: &str, row: usize, col: usize) -> Editor {
    Editor::new(text, (row, col))
}

// ── Movement tests ───────────────────────────────────────────────────────

#[test]
fn test_h_moves_left() {
    let mut e = ed_at("hello", 0, 2);
    e.send_key("h");
    assert_eq!(e.cursor, (0, 1));
}

#[test]
fn test_h_at_col0_stays() {
    let mut e = ed("hello");
    e.send_key("h");
    assert_eq!(e.cursor, (0, 0));
}

#[test]
fn test_l_moves_right() {
    let mut e = ed("hello");
    e.send_key("l");
    assert_eq!(e.cursor, (0, 1));
}

#[test]
fn test_l_at_end_stays() {
    let mut e = ed_at("hello", 0, 4);
    e.send_key("l");
    assert_eq!(e.cursor, (0, 4));
}

#[test]
fn test_j_moves_down() {
    let mut e = ed("line1\nline2");
    e.send_key("j");
    assert_eq!(e.cursor.0, 1);
}

#[test]
fn test_k_moves_up() {
    let mut e = ed_at("line1\nline2", 1, 0);
    e.send_key("k");
    assert_eq!(e.cursor.0, 0);
}

#[test]
fn test_k_at_first_line_stays() {
    let mut e = ed("line1");
    e.send_key("k");
    assert_eq!(e.cursor.0, 0);
}

#[test]
fn test_j_at_last_line_stays() {
    let mut e = ed("line1");
    e.send_key("j");
    assert_eq!(e.cursor.0, 0);
}

#[test]
fn test_col0_move() {
    let mut e = ed_at("hello world", 0, 5);
    e.send_key("0");
    assert_eq!(e.cursor.1, 0);
}

#[test]
fn test_dollar_move_to_end() {
    let mut e = ed("hello");
    e.send_key("$");
    assert_eq!(e.cursor.1, 4);
}

#[test]
fn test_caret_first_nonblank() {
    let mut e = ed_at("  hello", 0, 0);
    e.send_key("^");
    assert_eq!(e.cursor.1, 2);
}

#[test]
fn test_gg_goes_to_first_line() {
    let mut e = ed_at("line1\nline2\nline3", 2, 0);
    e.send_key("gg");
    assert_eq!(e.cursor.0, 0);
}

#[test]
fn test_big_g_goes_to_last_line() {
    let mut e = ed("line1\nline2\nline3");
    e.send_key("G");
    assert_eq!(e.cursor.0, 2);
}

#[test]
fn test_w_moves_to_next_word() {
    let mut e = ed("hello world");
    e.send_key("w");
    assert_eq!(e.cursor.1, 6);
}

#[test]
fn test_w_at_end_moves_to_next_line() {
    let mut e = ed_at("hello\nworld", 0, 4);
    e.send_key("w");
    assert_eq!(e.cursor.0, 1);
}

#[test]
fn test_b_moves_to_prev_word() {
    let mut e = ed_at("hello world", 0, 6);
    e.send_key("b");
    assert_eq!(e.cursor.1, 0);
}

#[test]
fn test_b_at_start_moves_to_prev_line() {
    let mut e = ed_at("hello\nworld", 1, 0);
    e.send_key("b");
    assert_eq!(e.cursor.0, 0);
}

#[test]
fn test_e_moves_to_end_of_word() {
    let mut e = ed("hello world");
    e.send_key("e");
    assert_eq!(e.cursor.1, 4);
}

// ── x delete char ────────────────────────────────────────────────────────

#[test]
fn test_x_deletes_char() {
    let mut e = ed("hello");
    e.send_key("x");
    assert_eq!(e.lines[0], "ello");
}

#[test]
fn test_x_at_middle() {
    let mut e = ed_at("hello", 0, 2);
    e.send_key("x");
    assert_eq!(e.lines[0], "helo");
}

#[test]
fn test_x_empty_line_does_nothing() {
    let mut e = ed("");
    e.send_key("x");
    assert_eq!(e.lines[0], "");
}

// ── dd delete line ───────────────────────────────────────────────────────

#[test]
fn test_dd_deletes_line() {
    let mut e = ed("line1\nline2\nline3");
    e.send_key("dd");
    assert_eq!(e.lines, vec!["line2", "line3"]);
}

#[test]
fn test_dd_middle_line() {
    let mut e = ed_at("line1\nline2\nline3", 1, 0);
    e.send_key("dd");
    assert_eq!(e.lines, vec!["line1", "line3"]);
}

#[test]
fn test_dd_only_line_leaves_empty() {
    let mut e = ed("only line");
    e.send_key("dd");
    assert_eq!(e.lines, vec![""]);
}

// ── dw delete word ───────────────────────────────────────────────────────

#[test]
fn test_dw_deletes_word_and_space() {
    let mut e = ed("hello world");
    e.send_key("d");
    e.send_key("w");
    assert_eq!(e.lines[0], "world");
}

#[test]
fn test_dw_middle_word() {
    let mut e = ed_at("foo bar baz", 0, 4);
    e.send_key("d");
    e.send_key("w");
    assert_eq!(e.lines[0], "foo baz");
}

// ── d$ delete to end ─────────────────────────────────────────────────────

#[test]
fn test_d_dollar_deletes_to_end() {
    let mut e = ed_at("hello world", 0, 5);
    e.send_key("d");
    e.send_key("$");
    assert_eq!(e.lines[0], "hello");
}

#[test]
fn test_d_dollar_from_start() {
    let mut e = ed("hello world");
    e.send_key("d");
    e.send_key("$");
    assert_eq!(e.lines[0], "");
}

// ── yy / p / P ───────────────────────────────────────────────────────────

#[test]
fn test_yy_p_duplicates_line() {
    let mut e = ed("hello\nworld");
    e.send_key("yy");
    e.send_key("p");
    assert_eq!(e.lines[0], "hello");
    assert_eq!(e.lines[1], "hello");
    assert_eq!(e.lines[2], "world");
}

#[test]
fn test_yy_big_p_pastes_before() {
    let mut e = ed("hello\nworld");
    e.send_key("yy");
    e.send_key("P");
    assert_eq!(e.lines[0], "hello");
    assert_eq!(e.lines[1], "hello");
}

// ── u undo ──────────────────────────────────────────────────────────────

#[test]
fn test_u_undoes_delete_char() {
    let mut e = ed("hello");
    e.send_key("x");
    e.send_key("u");
    assert_eq!(e.lines[0], "hello");
}

#[test]
fn test_u_undoes_dd() {
    let mut e = ed("line1\nline2");
    e.send_key("dd");
    e.send_key("u");
    assert_eq!(e.lines, vec!["line1", "line2"]);
}

#[test]
fn test_u_multiple_undoes() {
    let mut e = ed("hello");
    e.send_key("x");
    e.send_key("x");
    e.send_key("u");
    assert_eq!(e.lines[0], "ello");
    e.send_key("u");
    assert_eq!(e.lines[0], "hello");
}

// ── . repeat ────────────────────────────────────────────────────────────

#[test]
fn test_dot_repeats_delete_char() {
    let mut e = ed("hello");
    e.send_key("x");
    e.send_key(".");
    assert_eq!(e.lines[0], "llo");
}

#[test]
fn test_dot_repeats_dd() {
    let mut e = ed("line1\nline2\nline3");
    e.send_key("dd");
    e.send_key(".");
    assert_eq!(e.lines, vec!["line3"]);
}

// ── Insert mode ──────────────────────────────────────────────────────────

#[test]
fn test_i_enters_insert_and_types() {
    let mut e = ed("hello");
    e.send_key("i");
    e.send_key("X");
    e.send_key("Esc");
    assert_eq!(e.lines[0], "Xhello");
}

#[test]
fn test_a_appends_after_cursor() {
    let mut e = ed_at("hello", 0, 4);
    e.send_key("a");
    e.send_key("!");
    e.send_key("Esc");
    assert_eq!(e.lines[0], "hello!");
}

#[test]
fn test_big_a_appends_at_end() {
    let mut e = ed("hello");
    e.send_key("A");
    e.send_key(" mundo");
    // Sending each char individually
    let mut e2 = ed("hello");
    e2.send_key("A");
    for ch in " mundo".chars() {
        e2.send_key(&ch.to_string());
    }
    e2.send_key("Esc");
    assert_eq!(e2.lines[0], "hello mundo");
}

#[test]
fn test_big_i_inserts_at_first_nonblank() {
    let mut e = ed("  hello");
    e.send_key("I");
    e.send_key("X");
    e.send_key("Esc");
    assert_eq!(e.lines[0], "  Xhello");
}

#[test]
fn test_o_opens_line_below() {
    let mut e = ed("hello\nworld");
    e.send_key("o");
    e.send_key("new");
    // send each char
    let mut e2 = ed("hello\nworld");
    e2.send_key("o");
    for ch in "new".chars() {
        e2.send_key(&ch.to_string());
    }
    e2.send_key("Esc");
    assert_eq!(e2.lines[0], "hello");
    assert_eq!(e2.lines[1], "new");
    assert_eq!(e2.lines[2], "world");
}

#[test]
fn test_big_o_opens_line_above() {
    let mut e = ed_at("hello\nworld", 1, 0);
    e.send_key("O");
    for ch in "new".chars() {
        e.send_key(&ch.to_string());
    }
    e.send_key("Esc");
    assert_eq!(e.lines[0], "hello");
    assert_eq!(e.lines[1], "new");
    assert_eq!(e.lines[2], "world");
}

#[test]
fn test_backspace_in_insert() {
    let mut e = ed("hello");
    e.send_key("A");
    e.send_key("x");
    e.send_key("Backspace");
    e.send_key("Esc");
    assert_eq!(e.lines[0], "hello");
}

#[test]
fn test_insert_then_esc_back_to_normal() {
    let mut e = ed("hello");
    e.send_key("i");
    assert_eq!(e.mode, Mode::Insert);
    e.send_key("Esc");
    assert_eq!(e.mode, Mode::Normal);
}

#[test]
fn test_insert_multiple_chars() {
    let mut e = ed("world");
    e.send_key("i");
    for ch in "hello ".chars() {
        e.send_key(&ch.to_string());
    }
    e.send_key("Esc");
    assert_eq!(e.lines[0], "hello world");
}

// ── Visual mode ──────────────────────────────────────────────────────────

#[test]
fn test_v_enters_visual() {
    let mut e = ed("hello");
    e.send_key("v");
    assert_eq!(e.mode, Mode::Visual);
}

#[test]
fn test_visual_d_deletes_selection() {
    let mut e = ed("hello world");
    e.send_key("v");
    e.send_key("l");
    e.send_key("l");
    e.send_key("l");
    e.send_key("l");
    e.send_key("d");
    assert_eq!(e.lines[0], " world");
}

#[test]
fn test_visual_y_yanks_selection() {
    let mut e = ed("hello world");
    e.send_key("v");
    e.send_key("l");
    e.send_key("l");
    e.send_key("l");
    e.send_key("l");
    e.send_key("y");
    assert_eq!(e.yank_buffer, Some("hello".to_string()));
}

#[test]
fn test_visual_esc_back_to_normal() {
    let mut e = ed("hello");
    e.send_key("v");
    e.send_key("Esc");
    assert_eq!(e.mode, Mode::Normal);
}

// ── Command mode ─────────────────────────────────────────────────────────

#[test]
fn test_colon_enters_command() {
    let mut e = ed("hello");
    e.send_key(":");
    assert!(matches!(e.mode, Mode::Command(_)));
}

#[test]
fn test_colon_w_returns_save() {
    let mut e = ed("hello");
    e.send_key(":");
    e.send_key("w");
    let result = e.send_key("Enter");
    assert_eq!(result, CommandResult::Save);
}

#[test]
fn test_colon_q_returns_quit() {
    let mut e = ed("hello");
    e.send_key(":");
    e.send_key("q");
    let result = e.send_key("Enter");
    assert_eq!(result, CommandResult::Quit);
}

#[test]
fn test_colon_esc_back_to_normal() {
    let mut e = ed("hello");
    e.send_key(":");
    e.send_key("Esc");
    assert_eq!(e.mode, Mode::Normal);
}

// ── Substitute :s/find/replace/ ──────────────────────────────────────────

#[test]
fn test_substitute_replaces_first_occurrence() {
    let mut e = ed("hello world hello");
    e.send_key(":");
    for ch in "s/hello/bye/".chars() {
        e.send_key(&ch.to_string());
    }
    e.send_key("Enter");
    assert_eq!(e.lines[0], "bye world hello");
}

#[test]
fn test_substitute_no_match_noop() {
    let mut e = ed("hello world");
    e.send_key(":");
    for ch in "s/xyz/abc/".chars() {
        e.send_key(&ch.to_string());
    }
    e.send_key("Enter");
    assert_eq!(e.lines[0], "hello world");
}

#[test]
fn test_substitute_on_current_line_only() {
    let mut e = ed_at("hello\nhello", 1, 0);
    e.send_key(":");
    for ch in "s/hello/bye/".chars() {
        e.send_key(&ch.to_string());
    }
    e.send_key("Enter");
    assert_eq!(e.lines[0], "hello");
    assert_eq!(e.lines[1], "bye");
}

// ── Search / ─────────────────────────────────────────────────────────────

#[test]
fn test_search_moves_cursor() {
    let mut e = ed("foo bar baz");
    e.send_key("/");
    for ch in "bar".chars() {
        e.send_key(&ch.to_string());
    }
    e.send_key("Enter");
    assert_eq!(e.cursor.1, 4);
}

#[test]
fn test_search_multiline() {
    let mut e = ed("linha um\nlinha dois\nalvo encontrado");
    e.send_key("/");
    for ch in "alvo".chars() {
        e.send_key(&ch.to_string());
    }
    e.send_key("Enter");
    assert_eq!(e.cursor.0, 2);
    assert_eq!(e.cursor.1, 0);
}

#[test]
fn test_n_finds_next_match() {
    // Buffer: "foo bar foo baz" (2 occurrências de "foo")
    // Após /foo, o cursor está na segunda ocorrência (col 8), pois a busca
    // avança a partir de col+1=1 e encontra col 8.
    // Após n (wrap-around), volta para col 0 (primeira ocorrência).
    let mut e = ed("foo bar foo baz");
    e.send_key("/");
    for ch in "foo".chars() {
        e.send_key(&ch.to_string());
    }
    e.send_key("Enter");
    // Após a busca, cursor deve estar em alguma ocorrência de "foo"
    let line = e.lines[0].clone();
    assert!(
        line[e.cursor.1..].starts_with("foo"),
        "cursor deve estar em 'foo'"
    );
    let first_pos = e.cursor.1;
    e.send_key("n");
    // n deve ter avançado para outra ocorrência (diferente ou mesmo wrap)
    let second_pos = e.cursor.1;
    assert!(
        line[second_pos..].starts_with("foo"),
        "cursor após n deve estar em 'foo'"
    );
    // As duas posições devem ser diferentes (há 2 ocorrências)
    assert_ne!(
        first_pos, second_pos,
        "n deve ter avançado para outra ocorrência"
    );
}

#[test]
fn test_big_n_finds_prev_match() {
    // Buffer: "foo bar foo baz"
    // /foo → col 8 (segunda ocorrência, pois busca avança de 0+1=1)
    // n → col 0 (wrap-around para primeira)
    // N → col 8 (volta para segunda)
    let mut e = ed("foo bar foo baz");
    e.send_key("/");
    for ch in "foo".chars() {
        e.send_key(&ch.to_string());
    }
    e.send_key("Enter");
    let after_search = e.cursor.1;
    e.send_key("n"); // wrap-around para a outra ocorrência
    let after_n = e.cursor.1;
    e.send_key("N"); // volta para a ocorrência anterior
    let after_big_n = e.cursor.1;
    // Após N, deve ter voltado para after_search
    assert_eq!(
        after_big_n, after_search,
        "N deve retornar ao ponto após /search"
    );
    // Confirma que n e N alternam posições
    assert_ne!(after_n, after_search);
}

// ── Pending operator edge cases ──────────────────────────────────────────

#[test]
fn test_d_pending_then_esc_clears() {
    let mut e = ed("hello");
    e.send_key("d");
    assert_eq!(e.pending_op, Some('d'));
    e.send_key("Esc");
    assert_eq!(e.pending_op, None);
}

#[test]
fn test_dd_is_same_as_d_then_d() {
    let mut e1 = ed("line1\nline2");
    e1.send_key("dd");

    let mut e2 = ed("line1\nline2");
    e2.send_key("d");
    e2.send_key("d");

    assert_eq!(e1.lines, e2.lines);
}

// ── Cursor clamping ──────────────────────────────────────────────────────

#[test]
fn test_cursor_clamped_after_dd() {
    let mut e = ed_at("a\nb", 0, 0);
    e.lines[0] = "longline".to_string();
    e.cursor.1 = 7;
    e.send_key("dd");
    assert!(e.cursor.1 <= e.lines[e.cursor.0].len().saturating_sub(1).max(0));
}

#[test]
fn test_j_clamps_col_on_shorter_line() {
    let mut e = ed_at("hello world\nhi", 0, 10);
    e.send_key("j");
    assert_eq!(e.cursor.0, 1);
    assert!(e.cursor.1 <= 1);
}

// ── Insert mode at end of line ───────────────────────────────────────────

#[test]
fn test_insert_a_at_last_char() {
    let mut e = ed_at("abc", 0, 2);
    e.send_key("a");
    e.send_key("d");
    e.send_key("Esc");
    assert_eq!(e.lines[0], "abcd");
}

// ── yy then paste multiple times ─────────────────────────────────────────

#[test]
fn test_yy_paste_twice() {
    let mut e = ed("original\nother");
    e.send_key("yy");
    e.send_key("p");
    e.send_key("p");
    assert_eq!(e.lines[0], "original");
    assert_eq!(e.lines[1], "original");
    assert_eq!(e.lines[2], "original");
    assert_eq!(e.lines[3], "other");
}

// ── Mode name strings ────────────────────────────────────────────────────

#[test]
fn test_mode_names() {
    assert_eq!(Mode::Normal.name(), "NORMAL");
    assert_eq!(Mode::Insert.name(), "INSERT");
    assert_eq!(Mode::Visual.name(), "VISUAL");
    assert_eq!(Mode::Command(String::new()).name(), "COMMAND");
}

// ── find_in_line helpers ─────────────────────────────────────────────────

#[test]
fn test_find_in_line_found() {
    assert_eq!(find_in_line("hello world", "world", 0), Some(6));
}

#[test]
fn test_find_in_line_from_offset() {
    assert_eq!(find_in_line("hello hello", "hello", 5), Some(6));
}

#[test]
fn test_find_in_line_not_found() {
    assert_eq!(find_in_line("hello", "xyz", 0), None);
}

#[test]
fn test_find_in_line_backward_found() {
    assert_eq!(find_in_line_backward("hello hello", "hello", 11), Some(6));
}

#[test]
fn test_find_in_line_backward_first() {
    assert_eq!(find_in_line_backward("hello hello", "hello", 5), Some(0));
}

// ── Insert mode: dot repeat of insert ───────────────────────────────────

#[test]
fn test_dot_repeats_insert() {
    let mut e = ed("ab");
    e.send_key("i");
    e.send_key("X");
    e.send_key("Esc");
    // Move right and repeat
    e.send_key("l");
    e.send_key("l");
    e.send_key(".");
    assert!(e.lines[0].contains('X'));
}

// ── G and gg movement ────────────────────────────────────────────────────

#[test]
fn test_g_key_alone_does_nothing_harmful() {
    let mut e = ed("hello\nworld");
    e.send_key("g");
    // Should not crash
    assert_eq!(e.lines[0], "hello");
}

// ── Multi-line visual delete ─────────────────────────────────────────────

#[test]
fn test_visual_multiline_delete() {
    let mut e = ed("line1\nline2\nline3");
    e.send_key("v");
    e.send_key("j");
    e.send_key("d");
    // line1 and line2 deleted
    assert!(e.lines.iter().all(|l| l != "line1" && l != "line2") || e.lines.len() <= 2);
}

// ── Undo after insert ────────────────────────────────────────────────────

#[test]
fn test_undo_after_insert() {
    let mut e = ed("hello");
    e.send_key("A");
    e.send_key(" world");
    // send each char
    let mut e2 = ed("hello");
    e2.send_key("A");
    for ch in " world".chars() {
        e2.send_key(&ch.to_string());
    }
    e2.send_key("Esc");
    e2.send_key("u");
    assert_eq!(e2.lines[0], "hello");
}

// ── Search wrap-around ───────────────────────────────────────────────────

#[test]
fn test_search_wraps_around() {
    let mut e = ed_at("foo bar\nbaz foo", 1, 4);
    e.send_key("/");
    for ch in "foo".chars() {
        e.send_key(&ch.to_string());
    }
    e.send_key("Enter");
    // Should wrap to line 0
    assert_eq!(e.cursor.0, 0);
    assert_eq!(e.cursor.1, 0);
}

// ── Empty buffer edge cases ──────────────────────────────────────────────

#[test]
fn test_empty_buffer_operations() {
    let mut e = ed("");
    e.send_key("h");
    e.send_key("l");
    e.send_key("j");
    e.send_key("k");
    e.send_key("$");
    e.send_key("0");
    assert_eq!(e.lines[0], "");
}

// ── Command backspace ────────────────────────────────────────────────────

#[test]
fn test_command_backspace() {
    let mut e = ed("hello");
    e.send_key(":");
    e.send_key("w");
    e.send_key("q");
    e.send_key("Backspace");
    let result = e.send_key("Enter");
    assert_eq!(result, CommandResult::Save);
}

// ── wq command ───────────────────────────────────────────────────────────

#[test]
fn test_colon_wq_save_and_quit() {
    let mut e = ed("hello");
    e.send_key(":");
    e.send_key("w");
    e.send_key("q");
    let result = e.send_key("Enter");
    assert_eq!(result, CommandResult::SaveAndQuit);
}

// ── Cursor stays in normal mode ──────────────────────────────────────────

#[test]
fn test_cursor_at_col0_on_empty_normal() {
    let mut e = ed("x");
    e.send_key("x"); // delete the char
    assert_eq!(e.cursor.1, 0);
}

// ── Insert newline ───────────────────────────────────────────────────────

#[test]
fn test_insert_enter_creates_new_line() {
    let mut e = ed("hello world");
    e.cursor.1 = 5;
    e.send_key("i");
    e.send_key("Enter");
    e.send_key("Esc");
    assert_eq!(e.lines[0], "hello");
    assert_eq!(e.lines[1], " world");
}

// ── Visual selection boundaries ──────────────────────────────────────────

#[test]
fn test_visual_selection_reversed_anchor() {
    let mut e = ed_at("hello world", 0, 5);
    e.send_key("v");
    e.send_key("h");
    e.send_key("h");
    let sel = e.visual_selection();
    assert!(sel.is_some());
    let (s, end) = sel.unwrap();
    assert!(s.1 <= end.1);
}

#[test]
fn execute_command_runs_with_a_visual_anchor_set() {
    let mut e = Editor::new("abc\nabd", (0, 0));
    e.visual_anchor = Some((0, 1));
    let r = e.execute_command("s/a/x/");
    assert_eq!(r, CommandResult::Nothing);
    assert_eq!(e.lines[0], "xbc");
    assert_eq!(e.lines[1], "abd");
    assert_eq!(e.visual_anchor, Some((0, 1)));
    assert_eq!(e.execute_command("wq"), CommandResult::SaveAndQuit);
}
