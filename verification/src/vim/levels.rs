//! The ten levels of the Vim universe, each teaching a few commands.
use vstd::prelude::*;

use crate::text::{str_chars, str_eq};
use super::editor::{find_in_line, lines_view};
use crate::text::{find_from, index_of_from, lemma_find_from_ge, lemma_index_of_at, lemma_index_of_bounds, lemma_index_of_none, matches_at, opt_usize_v};
use super::model::join_lines;
use crate::comunicacao::pack_from_lexicon::{lines_from, lines_of, without_cr};

verus! {

/// One level: the text it starts from, what it asks, and its reward.
pub struct Level {
    pub number: usize,
    pub title: &'static str,
    pub description: &'static str,
    pub initial_text: &'static str,
    pub cursor_start: (usize, usize),
    pub hint: &'static str,
    pub seed_reward: u64,
}

/// Title of level `n`.
pub open spec fn level_title(n: int) -> Seq<char> {
    if n == 1 {
        "Movimento básico — hjkl"@
    } else if n == 2 {
        "Apagar caractere — x"@
    } else if n == 3 {
        "Apagar linha — dd"@
    } else if n == 4 {
        "Movimento por palavras — w/b"@
    } else if n == 5 {
        "Modo inserção — i"@
    } else if n == 6 {
        "Acrescentar ao final — A"@
    } else if n == 7 {
        "Apagar palavra — dw"@
    } else if n == 8 {
        "Copiar e colar — yy / p"@
    } else if n == 9 {
        "Busca — /texto"@
    } else if n == 10 {
        "Substituição — :s/errado/certo/"@
    } else {
        Seq::empty()
    }
}

/// Task of level `n`.
pub open spec fn level_description(n: int) -> Seq<char> {
    if n == 1 {
        "Mova o cursor até a posição marcada e pressione :w"@
    } else if n == 2 {
        "Apague o 'x' extra na primeira linha"@
    } else if n == 3 {
        "Apague a linha 'REMOVA ESTA LINHA'"@
    } else if n == 4 {
        "Mova o cursor até o início da palavra 'destino'"@
    } else if n == 5 {
        "Insira 'sol' na primeira linha para que fique 'O sol brilha'"@
    } else if n == 6 {
        "Acrescente ' mundo' ao final de 'Olá'"@
    } else if n == 7 {
        "Apague a palavra 'LIXO' da primeira linha"@
    } else if n == 8 {
        "Duplique a linha 'copie esta linha'"@
    } else if n == 9 {
        "Use / para encontrar e posicionar o cursor em 'alvo'"@
    } else if n == 10 {
        "Substitua 'errado' por 'certo' na primeira linha"@
    } else {
        Seq::empty()
    }
}

/// Text that level `n` opens on.
pub open spec fn level_initial_text(n: int) -> Seq<char> {
    if n == 1 {
        "Mova o cursor\naté a posição\n.... AQUI\ne pressione :w"@
    } else if n == 2 {
        "Corrija o errox\nnesta linha\npressione :w"@
    } else if n == 3 {
        "linha 1\nREMOVA ESTA LINHA\nlinha 3\npressione :w"@
    } else if n == 4 {
        "va para o destino\nsem hjkl\npressione :w"@
    } else if n == 5 {
        "O  brilha\npressione :w"@
    } else if n == 6 {
        "Olá\npressione :w"@
    } else if n == 7 {
        "apagar LIXO aqui\npressione :w"@
    } else if n == 8 {
        "copie esta linha\npressione :w"@
    } else if n == 9 {
        "linha um\nlinha dois\nalvo encontrado\npressione :w"@
    } else if n == 10 {
        "texto errado aqui\npressione :w"@
    } else {
        Seq::empty()
    }
}

/// Hint shown during level `n`.
pub open spec fn level_hint(n: int) -> Seq<char> {
    if n == 1 {
        "Use j para descer linhas e l para avançar colunas. Chegue à linha 3, coluna 5."@
    } else if n == 2 {
        "Navegue até o 'x' extra e pressione x para apagá-lo."@
    } else if n == 3 {
        "Mova o cursor para a linha com 'REMOVA ESTA LINHA' e pressione dd."@
    } else if n == 4 {
        "Pressione w repetidamente para avançar por palavras até chegar em 'destino'."@
    } else if n == 5 {
        "Mova o cursor para o espaço entre 'O' e 'brilha', pressione i e digite 'sol'."@
    } else if n == 6 {
        "Pressione A para entrar em modo Insert no final da linha e digite ' mundo'."@
    } else if n == 7 {
        "Mova até 'LIXO' com w, depois pressione dw para apagar a palavra."@
    } else if n == 8 {
        "Pressione yy para copiar a linha, depois p para colar abaixo."@
    } else if n == 9 {
        "Digite /alvo e pressione Enter para saltar ao 'alvo'."@
    } else if n == 10 {
        "Digite :s/errado/certo/ e pressione Enter."@
    } else {
        Seq::empty()
    }
}

/// Reward tier of a level number (no bonus for playing without hints).
pub open spec fn reward_for(n: int) -> u64 {
    if 1 <= n <= 3 {
        10
    } else if 4 <= n <= 7 {
        20
    } else if 8 <= n <= 10 {
        30
    } else {
        0
    }
}

/// `line` contains `pat`.
pub open spec fn contains_seq(line: Seq<char>, pat: Seq<char>) -> bool {
    find_from(line, pat, 0) is Some
}

/// What counts as solving level `n` with the buffer `lines` and the cursor.
pub open spec fn level_success(n: int, lines: Seq<Seq<char>>, cursor: (int, int)) -> bool {
    if n == 1 {
        cursor == (2int, 4int)
    } else if n == 2 {
        !contains_seq(lines[0], "x"@)
    } else if n == 3 {
        !contains_seq(join_lines(lines), "REMOVA ESTA LINHA"@)
    } else if n == 4 {
        cursor.0 == 0 && cursor.1 < lines[0].len() && matches_at(lines[0], "destino"@, cursor.1)
    } else if n == 5 {
        contains_seq(lines[0], "sol"@)
    } else if n == 6 {
        lines[0] == "Olá mundo"@
    } else if n == 7 {
        !contains_seq(lines[0], "LIXO"@)
    } else if n == 8 {
        lines.len() >= 2 && lines[0] == "copie esta linha"@ && lines[1] == "copie esta linha"@
    } else if n == 9 {
        0 <= cursor.0 < lines.len() && cursor.1 < lines[cursor.0].len() && matches_at(
            lines[cursor.0],
            "alvo"@,
            cursor.1,
        )
    } else if n == 10 {
        contains_seq(lines[0], "certo"@) && !contains_seq(lines[0], "errado"@)
    } else {
        false
    }
}

/// Level `n` as `all_levels` lists it.
pub open spec fn is_level(l: Level, n: int) -> bool {
    &&& l.number == n
    &&& l.title@ == level_title(n)
    &&& l.description@ == level_description(n)
    &&& l.initial_text@ == level_initial_text(n)
    &&& l.cursor_start == (0usize, 0usize)
    &&& l.hint@ == level_hint(n)
    &&& l.seed_reward == reward_for(n)
}

/// Level number `n` (1 to 10).
pub fn level(n: usize) -> (l: Level)
    requires
        1 <= n <= 10,
    ensures
        is_level(l, n as int),
{
    if n == 1 {
        Level {
            number: 1,
            title: "Movimento básico — hjkl",
            description: "Mova o cursor até a posição marcada e pressione :w",
            initial_text: "Mova o cursor\naté a posição\n.... AQUI\ne pressione :w",
            cursor_start: (0, 0),
            hint: "Use j para descer linhas e l para avançar colunas. Chegue à linha 3, coluna 5.",
            seed_reward: 10,
        }
    } else if n == 2 {
        Level {
            number: 2,
            title: "Apagar caractere — x",
            description: "Apague o 'x' extra na primeira linha",
            initial_text: "Corrija o errox\nnesta linha\npressione :w",
            cursor_start: (0, 0),
            hint: "Navegue até o 'x' extra e pressione x para apagá-lo.",
            seed_reward: 10,
        }
    } else if n == 3 {
        Level {
            number: 3,
            title: "Apagar linha — dd",
            description: "Apague a linha 'REMOVA ESTA LINHA'",
            initial_text: "linha 1\nREMOVA ESTA LINHA\nlinha 3\npressione :w",
            cursor_start: (0, 0),
            hint: "Mova o cursor para a linha com 'REMOVA ESTA LINHA' e pressione dd.",
            seed_reward: 10,
        }
    } else if n == 4 {
        Level {
            number: 4,
            title: "Movimento por palavras — w/b",
            description: "Mova o cursor até o início da palavra 'destino'",
            initial_text: "va para o destino\nsem hjkl\npressione :w",
            cursor_start: (0, 0),
            hint: "Pressione w repetidamente para avançar por palavras até chegar em 'destino'.",
            seed_reward: 20,
        }
    } else if n == 5 {
        Level {
            number: 5,
            title: "Modo inserção — i",
            description: "Insira 'sol' na primeira linha para que fique 'O sol brilha'",
            initial_text: "O  brilha\npressione :w",
            cursor_start: (0, 0),
            hint: "Mova o cursor para o espaço entre 'O' e 'brilha', pressione i e digite 'sol'.",
            seed_reward: 20,
        }
    } else if n == 6 {
        Level {
            number: 6,
            title: "Acrescentar ao final — A",
            description: "Acrescente ' mundo' ao final de 'Olá'",
            initial_text: "Olá\npressione :w",
            cursor_start: (0, 0),
            hint: "Pressione A para entrar em modo Insert no final da linha e digite ' mundo'.",
            seed_reward: 20,
        }
    } else if n == 7 {
        Level {
            number: 7,
            title: "Apagar palavra — dw",
            description: "Apague a palavra 'LIXO' da primeira linha",
            initial_text: "apagar LIXO aqui\npressione :w",
            cursor_start: (0, 0),
            hint: "Mova até 'LIXO' com w, depois pressione dw para apagar a palavra.",
            seed_reward: 20,
        }
    } else if n == 8 {
        Level {
            number: 8,
            title: "Copiar e colar — yy / p",
            description: "Duplique a linha 'copie esta linha'",
            initial_text: "copie esta linha\npressione :w",
            cursor_start: (0, 0),
            hint: "Pressione yy para copiar a linha, depois p para colar abaixo.",
            seed_reward: 30,
        }
    } else if n == 9 {
        Level {
            number: 9,
            title: "Busca — /texto",
            description: "Use / para encontrar e posicionar o cursor em 'alvo'",
            initial_text: "linha um\nlinha dois\nalvo encontrado\npressione :w",
            cursor_start: (0, 0),
            hint: "Digite /alvo e pressione Enter para saltar ao 'alvo'.",
            seed_reward: 30,
        }
    } else {
        Level {
            number: 10,
            title: "Substituição — :s/errado/certo/",
            description: "Substitua 'errado' por 'certo' na primeira linha",
            initial_text: "texto errado aqui\npressione :w",
            cursor_start: (0, 0),
            hint: "Digite :s/errado/certo/ e pressione Enter.",
            seed_reward: 30,
        }
    }
}

/// All ten levels, in order; none is solved by the buffer and cursor it
/// opens on.
pub fn all_levels() -> (r: Vec<Level>)
    ensures
        r@.len() == 10,
        forall|i: int| 0 <= i < 10 ==> is_level(#[trigger] r@[i], i + 1),
        forall|i: int|
            0 <= i < 10 ==> !level_success(
                i + 1,
                lines_of(#[trigger] r@[i].initial_text@),
                (r@[i].cursor_start.0 as int, r@[i].cursor_start.1 as int),
            ),
{
    let mut r: Vec<Level> = Vec::new();
    let mut n: usize = 1;
    while n <= 10
        invariant
            1 <= n <= 11,
            r@.len() == n - 1,
            forall|i: int| 0 <= i < n - 1 ==> is_level(#[trigger] r@[i], i + 1),
        decreases 11 - n,
    {
        r.push(level(n));
        n = n + 1;
    }
    proof {
        assert forall|i: int| 0 <= i < 10 implies !level_success(
            i + 1,
            lines_of(#[trigger] r@[i].initial_text@),
            (r@[i].cursor_start.0 as int, r@[i].cursor_start.1 as int),
        ) by {
            lemma_no_level_starts_solved(r@[i], i + 1);
        }
    }
    r
}

/// Reward for completing a level, before the no-hint bonus.
pub fn base_reward(level_number: usize) -> (r: u64)
    ensures
        r == reward_for(level_number as int),
{
    if 1 <= level_number && level_number <= 3 {
        10
    } else if 4 <= level_number && level_number <= 7 {
        20
    } else if 8 <= level_number && level_number <= 10 {
        30
    } else {
        0
    }
}

impl Level {
    /// Whether `lines` with `cursor` solves this level.
    pub fn check_success(&self, lines: &[String], cursor: (usize, usize)) -> (r: bool)
        requires
            self.number != 1 ==> lines@.len() >= 1,
        ensures
            r == level_success(self.number as int, lines_view(lines@), (cursor.0 as int, cursor.1 as int)),
    {
        check_level(self.number, lines, cursor)
    }
}

/// Whether `lines` with `cursor` solves level `n`.
pub fn check_level(n: usize, lines: &[String], cursor: (usize, usize)) -> (r: bool)
    requires
        n != 1 ==> lines@.len() >= 1,
    ensures
        r == level_success(n as int, lines_view(lines@), (cursor.0 as int, cursor.1 as int)),
{
    let ghost ls = lines_view(lines@);
    if n == 1 {
        cursor.0 == 2 && cursor.1 == 4
    } else if n == 2 {
        find_in_line(lines[0].as_str(), "x", 0).is_none()
    } else if n == 3 {
        let joined = join_strings(lines);
        find_in_line(joined.as_str(), "REMOVA ESTA LINHA", 0).is_none()
    } else if n == 4 {
        let l0 = str_chars(lines[0].as_str());
        cursor.0 == 0 && cursor.1 < l0.len() && match_here(lines[0].as_str(), "destino", cursor.1)
    } else if n == 5 {
        find_in_line(lines[0].as_str(), "sol", 0).is_some()
    } else if n == 6 {
        str_eq(lines[0].as_str(), "Olá mundo")
    } else if n == 7 {
        find_in_line(lines[0].as_str(), "LIXO", 0).is_none()
    } else if n == 8 {
        lines.len() >= 2 && str_eq(lines[0].as_str(), "copie esta linha") && str_eq(
            lines[1].as_str(),
            "copie esta linha",
        )
    } else if n == 9 {
        if cursor.0 < lines.len() {
            let l = str_chars(lines[cursor.0].as_str());
            cursor.1 < l.len() && match_here(lines[cursor.0].as_str(), "alvo", cursor.1)
        } else {
            false
        }
    } else if n == 10 {
        find_in_line(lines[0].as_str(), "certo", 0).is_some() && find_in_line(
            lines[0].as_str(),
            "errado",
            0,
        ).is_none()
    } else {
        false
    }
}

/// `pat` occurs in `line` at character `at` (`line[at..].starts_with(pat)`).
fn match_here(line: &str, pat: &str, at: usize) -> (r: bool)
    ensures
        r == matches_at(line@, pat@, at as int),
{
    proof {
        lemma_find_from_ge(line@, pat@, at as int + 1);
    }
    match find_in_line(line, pat, at) {
        Some(i) => i == at,
        None => false,
    }
}

/// The lines joined with newlines (`[String]::join("\n")`).
fn join_strings(lines: &[String]) -> (r: String)
    ensures
        r@ == join_lines(lines_view(lines@)),
{
    let mut acc: Vec<char> = Vec::new();
    let mut i: usize = 0;
    while i < lines.len()
        invariant
            i <= lines@.len(),
            acc@ == join_lines(lines_view(lines@).subrange(0, i as int)),
        decreases lines@.len() - i,
    {
        let ghost prev = lines_view(lines@).subrange(0, i as int);
        if i > 0 {
            acc.push('\n');
        }
        let l = str_chars(lines[i].as_str());
        crate::text::extend_chars(&mut acc, l.as_slice());
        assert(lines_view(lines@).subrange(0, i + 1).drop_last() =~= prev);
        assert(i == 0 ==> lines_view(lines@).subrange(0, i + 1) =~= seq![l@]);
        i = i + 1;
    }
    assert(lines_view(lines@).subrange(0, lines@.len() as int) =~= lines_view(lines@));
    crate::text::string_of(acc.as_slice())
}

proof fn lemma_find_some(line: Seq<char>, pat: Seq<char>, from: int, i: int)
    requires
        0 <= from <= i,
        matches_at(line, pat, i),
    ensures
        find_from(line, pat, from) is Some,
    decreases i - from,
{
    if from < i && !matches_at(line, pat, from) {
        lemma_find_some(line, pat, from + 1, i);
    }
}

proof fn lemma_find_none(line: Seq<char>, pat: Seq<char>, from: int)
    requires
        0 <= from,
        pat.len() > 0,
        forall|j: int| 0 <= j < line.len() ==> line[j] != pat[0],
    ensures
        find_from(line, pat, from) is None,
    decreases line.len() + 1 - from,
{
    if from <= line.len() {
        if matches_at(line, pat, from) {
            assert(line.subrange(from, from + pat.len())[0] == line[from]);
        }
        lemma_find_none(line, pat, from + 1);
    }
}

/// The line that starts at `pos` and ends at the line break at `m`.
proof fn lemma_line_at(s: Seq<char>, pos: int, m: int)
    requires
        0 <= pos < m < s.len(),
        s[m] == '\n',
        s[m - 1] != '\r',
        forall|j: int| pos <= j < m ==> s[j] != '\n',
    ensures
        lines_from(s, pos) == seq![s.subrange(pos, m)] + lines_from(s, m + 1),
{
    lemma_index_of_at(s, '\n', pos, m);
}

/// The last line, from `pos` to the end.
proof fn lemma_last_line(s: Seq<char>, pos: int)
    requires
        0 <= pos < s.len(),
        forall|j: int| pos <= j < s.len() ==> s[j] != '\n',
    ensures
        lines_from(s, pos) == seq![s.subrange(pos, s.len() as int)],
{
    lemma_index_of_none(s, '\n', pos);
}

proof fn lemma_join_cons(a: Seq<char>, rest: Seq<Seq<char>>)
    requires
        rest.len() > 0,
    ensures
        join_lines(seq![a] + rest) == a + seq!['\n'] + join_lines(rest),
    decreases rest.len(),
{
    let l = seq![a] + rest;
    assert(l.last() == rest.last());
    if rest.len() == 1 {
        assert(l.drop_last() =~= seq![a]);
        assert(join_lines(seq![a]) == a);
        assert(join_lines(rest) == rest[0]);
    } else {
        assert(l.drop_last() =~= seq![a] + rest.drop_last());
        lemma_join_cons(a, rest.drop_last());
        assert(a + seq!['\n'] + join_lines(rest.drop_last()) + seq!['\n'] + rest.last() =~= a
            + seq!['\n'] + (join_lines(rest.drop_last()) + seq!['\n'] + rest.last()));
    }
}

/// Joining the lines of a text without carriage returns and without a final
/// line break gives the text back.
proof fn lemma_join_lines_from(s: Seq<char>, pos: int)
    requires
        0 <= pos < s.len(),
        forall|j: int| 0 <= j < s.len() ==> s[j] != '\r',
        s.last() != '\n',
    ensures
        join_lines(lines_from(s, pos)) == s.subrange(pos, s.len() as int),
    decreases s.len() - pos,
{
    lemma_index_of_bounds(s, '\n', pos);
    match index_of_from(s, '\n', pos) {
        None => {},
        Some(i) => {
            let a = s.subrange(pos, i);
            assert(without_cr(a) == a) by {
                if a.len() > 0 {
                    assert(a[a.len() - 1] == s[i - 1]);
                }
            }
            lemma_join_lines_from(s, i + 1);
            lemma_index_of_bounds(s, '\n', i + 1);
            assert(lines_from(s, i + 1).len() > 0);
            lemma_join_cons(a, lines_from(s, i + 1));
            assert(a + seq!['\n'] + s.subrange(i + 1, s.len() as int) =~= s.subrange(
                pos,
                s.len() as int,
            ));
        },
    }
}

/// No level is solved by the buffer and cursor it opens on: the lines of
/// its starting text, with the cursor at its starting place.
pub proof fn lemma_no_level_starts_solved(l: Level, n: int)
    requires
        1 <= n <= 10,
        is_level(l, n),
    ensures
        !level_success(
            n,
            lines_of(l.initial_text@),
            (l.cursor_start.0 as int, l.cursor_start.1 as int),
        ),
{
    let t = level_initial_text(n);
    if n == 2 {
        reveal_strlit("Corrija o errox\nnesta linha\npressione :w");
        reveal_strlit("x");
        assert forall|j: int| 0 <= j < 15 implies t[j] != '\n' by {}
        lemma_line_at(t, 0, 15);
        let l0 = lines_of(t)[0];
        assert(matches_at(l0, "x"@, 14)) by {
            assert(l0.subrange(14, 15) =~= "x"@);
        }
        lemma_find_some(l0, "x"@, 0, 14);
    } else if n == 3 {
        reveal_strlit("linha 1\nREMOVA ESTA LINHA\nlinha 3\npressione :w");
        reveal_strlit("REMOVA ESTA LINHA");
        assert forall|j: int| 0 <= j < t.len() implies t[j] != '\r' by {}
        lemma_join_lines_from(t, 0);
        assert(t.subrange(0, t.len() as int) =~= t);
        assert(matches_at(t, "REMOVA ESTA LINHA"@, 8)) by {
            assert(t.subrange(8, 25) =~= "REMOVA ESTA LINHA"@);
        }
        lemma_find_some(t, "REMOVA ESTA LINHA"@, 0, 8);
    } else if n == 4 {
        reveal_strlit("va para o destino\nsem hjkl\npressione :w");
        reveal_strlit("destino");
        assert forall|j: int| 0 <= j < 17 implies t[j] != '\n' by {}
        lemma_line_at(t, 0, 17);
        let l0 = lines_of(t)[0];
        if matches_at(l0, "destino"@, 0) {
            assert(l0.subrange(0, 7)[0] == l0[0]);
        }
    } else if n == 5 {
        reveal_strlit("O  brilha\npressione :w");
        reveal_strlit("sol");
        assert forall|j: int| 0 <= j < 9 implies t[j] != '\n' by {}
        lemma_line_at(t, 0, 9);
        let l0 = lines_of(t)[0];
        assert forall|j: int| 0 <= j < l0.len() implies l0[j] != 's' by {}
        lemma_find_none(l0, "sol"@, 0);
    } else if n == 6 {
        reveal_strlit("Olá\npressione :w");
        reveal_strlit("Olá mundo");
        assert forall|j: int| 0 <= j < 3 implies t[j] != '\n' by {}
        lemma_line_at(t, 0, 3);
    } else if n == 7 {
        reveal_strlit("apagar LIXO aqui\npressione :w");
        reveal_strlit("LIXO");
        assert forall|j: int| 0 <= j < 16 implies t[j] != '\n' by {}
        lemma_line_at(t, 0, 16);
        let l0 = lines_of(t)[0];
        assert(matches_at(l0, "LIXO"@, 7)) by {
            assert(l0.subrange(7, 11) =~= "LIXO"@);
        }
        lemma_find_some(l0, "LIXO"@, 0, 7);
    } else if n == 8 {
        reveal_strlit("copie esta linha\npressione :w");
        reveal_strlit("copie esta linha");
        assert forall|j: int| 0 <= j < 16 implies t[j] != '\n' by {}
        lemma_line_at(t, 0, 16);
        assert forall|j: int| 17 <= j < t.len() implies t[j] != '\n' by {}
        lemma_last_line(t, 17);
        assert(lines_of(t)[1] == t.subrange(17, t.len() as int));
    } else if n == 9 {
        reveal_strlit("linha um\nlinha dois\nalvo encontrado\npressione :w");
        reveal_strlit("alvo");
        assert forall|j: int| 0 <= j < 8 implies t[j] != '\n' by {}
        lemma_line_at(t, 0, 8);
        let l0 = lines_of(t)[0];
        if matches_at(l0, "alvo"@, 0) {
            assert(l0.subrange(0, 4)[0] == l0[0]);
        }
    } else if n == 10 {
        reveal_strlit("texto errado aqui\npressione :w");
        reveal_strlit("certo");
        assert forall|j: int| 0 <= j < 17 implies t[j] != '\n' by {}
        lemma_line_at(t, 0, 17);
        let l0 = lines_of(t)[0];
        assert forall|j: int| 0 <= j < l0.len() implies l0[j] != 'c' by {}
        lemma_find_none(l0, "certo"@, 0);
    }
}

} // verus!
