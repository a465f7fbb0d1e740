//! Mathematical model of the modal editor: the state as sequences of
//! characters, and the effect of every command on it.
use vstd::prelude::*;

use crate::text::{
    find_from, index_of_from, is_single_byte_key, is_ws, lemma_index_of_bounds, matches_at,
    rskip_ws, skip_ws, trim,
};
use super::editor::{CommandResult, InsertEntry};

verus! {

/// A saved buffer with its cursor, as kept on the undo stack.
#[verifier::ext_equal]
pub struct SnapV {
    pub lines: Seq<Seq<char>>,
    pub cursor: (int, int),
}

/// The editor's mode; `Command` and `Search` carry the text typed so far.
#[verifier::ext_equal]
pub enum ModeV {
    Normal,
    Insert,
    Visual,
    Command(Seq<char>),
    Search(Seq<char>),
}

/// The last change, as remembered for the `.` command.
#[verifier::ext_equal]
pub enum ChangeV {
    DeleteChar,
    DeleteLine,
    DeleteWord,
    DeleteToEndOfLine,
    DeleteVisualSelection { start: (int, int), end: (int, int) },
    YankLine,
    YankVisualSelection { start: (int, int), end: (int, int) },
    PasteAfter,
    PasteBefore,
    InsertText { text: Seq<char>, entry: InsertEntry },
    Substitute { find: Seq<char>, replace: Seq<char> },
}

/// The whole editor state.
#[verifier::ext_equal]
pub struct EdState {
    pub lines: Seq<Seq<char>>,
    pub cursor: (int, int),
    pub mode: ModeV,
    pub pending_op: Option<char>,
    pub yank: Option<Seq<char>>,
    pub undo: Seq<SnapV>,
    pub last_change: Option<ChangeV>,
    pub search: Option<Seq<char>>,
    pub anchor: Option<(int, int)>,
    pub status: Seq<char>,
    pub hint: Option<Seq<char>>,
    pub error: Option<Seq<char>>,
    pub ins_text: Seq<char>,
    pub ins_entry: Option<InsertEntry>,
}

// ── Character-sequence helpers ─────────────────────────────────────────────

/// `n - 1`, but never below zero.
pub open spec fn dec0(n: int) -> int {
    if n > 0 {
        n - 1
    } else {
        0
    }
}

pub open spec fn min(a: int, b: int) -> int {
    if a <= b {
        a
    } else {
        b
    }
}

/// First index at or after `c` that is not a non-blank character.
pub open spec fn skip_nonws(s: Seq<char>, c: int) -> int
    decreases s.len() - c,
{
    if 0 <= c < s.len() && !is_ws(s[c]) {
        skip_nonws(s, c + 1)
    } else {
        c
    }
}

/// Moving left from `c` while `s[c]` is blank (stopping at 0).
pub open spec fn back_ws(s: Seq<char>, c: int) -> int
    decreases c,
{
    if c > 0 && is_ws(s[c]) {
        back_ws(s, c - 1)
    } else {
        c
    }
}

/// Moving left from `c` while the character before it is not blank.
pub open spec fn back_word(s: Seq<char>, c: int) -> int
    decreases c,
{
    if c > 0 && !is_ws(s[c - 1]) {
        back_word(s, c - 1)
    } else {
        c
    }
}

/// Moving right from `c` while the next character is not blank.
pub open spec fn word_end_from(s: Seq<char>, c: int) -> int
    decreases s.len() - c,
{
    if 0 <= c && c + 1 < s.len() && !is_ws(s[c + 1]) {
        word_end_from(s, c + 1)
    } else {
        c
    }
}

/// Index of the first non-blank character, or 0 when the line is all blank.
pub open spec fn first_nonblank(s: Seq<char>) -> int {
    if skip_ws(s, 0) < s.len() {
        skip_ws(s, 0)
    } else {
        0
    }
}

/// The last occurrence of `pat` in `line` starting at or before `i`.
pub open spec fn rfind_at_most(line: Seq<char>, pat: Seq<char>, i: int) -> Option<int>
    decreases i + 1,
{
    if i < 0 {
        None
    } else if matches_at(line, pat, i) {
        Some(i)
    } else {
        rfind_at_most(line, pat, i - 1)
    }
}

/// Backward search: the last occurrence of `pat` lying wholly within the
/// first `before` characters of `line`. An empty pattern lands one place
/// before that bound (or at 0).
pub open spec fn find_backward(line: Seq<char>, pat: Seq<char>, before: int) -> Option<int> {
    let end = min(before, line.len() as int);
    if end < pat.len() {
        None
    } else if pat.len() == 0 {
        Some(dec0(end))
    } else {
        rfind_at_most(line.subrange(0, end), pat, end - pat.len())
    }
}

/// Lines joined by newline characters.
pub open spec fn join_lines(ls: Seq<Seq<char>>) -> Seq<char>
    decreases ls.len(),
{
    if ls.len() == 0 {
        Seq::empty()
    } else if ls.len() == 1 {
        ls[0]
    } else {
        join_lines(ls.drop_last()) + seq!['\n'] + ls.last()
    }
}

/// A line with one trailing carriage return removed.
pub open spec fn strip_cr(l: Seq<char>) -> Seq<char> {
    if l.len() > 0 && l.last() == '\r' {
        l.drop_last()
    } else {
        l
    }
}

/// The lines of `s` from position `st` on, as `str::lines` yields them: split
/// at `\n`, a `\r` before the `\n` dropped, no empty line after a final
/// line break.
pub open spec fn lines_from(s: Seq<char>, st: int) -> Seq<Seq<char>>
    decreases s.len() - st,
{
    proof {
        lemma_index_of_bounds(s, '\n', st);
    }
    if st < 0 || st >= s.len() {
        Seq::empty()
    } else {
        match index_of_from(s, '\n', st) {
            None => seq![s.subrange(st, s.len() as int)],
            Some(i) => seq![strip_cr(s.subrange(st, i))] + lines_from(s, i + 1),
        }
    }
}

/// The buffer that an editor opens on `text`: its lines, or one empty line.
pub open spec fn initial_buffer(text: Seq<char>) -> Seq<Seq<char>> {
    if lines_from(text, 0).len() == 0 {
        seq![Seq::empty()]
    } else {
        lines_from(text, 0)
    }
}

/// The two fields of `s/find/replace/`: `rest` is what follows `s/`.
/// `None` when `rest` holds no `/`.
pub open spec fn substitute_fields(rest: Seq<char>) -> Option<(Seq<char>, Seq<char>)> {
    match index_of_from(rest, '/', 0) {
        None => None,
        Some(i) => {
            let after = rest.subrange(i + 1, rest.len() as int);
            let replace = match index_of_from(after, '/', 0) {
                Some(j) => after.subrange(0, j),
                None => after,
            };
            Some((rest.subrange(0, i), replace))
        },
    }
}

pub open spec fn entry_key(e: InsertEntry) -> Seq<char> {
    match e {
        InsertEntry::LittleI => seq!['i'],
        InsertEntry::BigI => seq!['I'],
        InsertEntry::LittleA => seq!['a'],
        InsertEntry::BigA => seq!['A'],
        InsertEntry::LittleO => seq!['o'],
        InsertEntry::BigO => seq!['O'],
    }
}

// ── The model's operations ─────────────────────────────────────────────────

impl EdState {
    pub open spec fn row(self) -> int {
        self.cursor.0
    }

    pub open spec fn col(self) -> int {
        self.cursor.1
    }

    pub open spec fn cur_line(self) -> Seq<char> {
        self.lines[self.cursor.0]
    }

    /// The states that the editor can be in: at least one line, the cursor on
    /// a line and at most one past its end, every saved buffer non-empty,
    /// and a selection anchor only in Visual mode, on a real position.
    pub open spec fn wf(self) -> bool {
        &&& self.wf_lines()
        &&& 0 <= self.cursor.0 < self.lines.len()
        &&& 0 <= self.cursor.1 <= self.lines[self.cursor.0].len()
    }

    /// Everything of [`EdState::wf`] but the cursor's position.
    pub open spec fn wf_lines(self) -> bool {
        &&& self.lines.len() >= 1
        &&& forall|i: int| 0 <= i < self.undo.len() ==> #[trigger] self.undo[i].lines.len() >= 1
        &&& !(self.mode is Visual) ==> self.anchor is None
        &&& self.anchor matches Some(a) ==> 0 <= a.0 < self.lines.len() && 0 <= a.1
            <= self.lines[a.0].len()
    }

    pub open spec fn with_cursor(self, r: int, c: int) -> EdState {
        EdState { cursor: (r, c), ..self }
    }

    pub open spec fn with_col(self, c: int) -> EdState {
        EdState { cursor: (self.cursor.0, c), ..self }
    }

    pub open spec fn with_lines(self, ls: Seq<Seq<char>>) -> EdState {
        EdState { lines: ls, ..self }
    }

    pub open spec fn with_change(self, ch: ChangeV) -> EdState {
        EdState { last_change: Some(ch), ..self }
    }

    pub open spec fn with_mode(self, m: ModeV) -> EdState {
        EdState { mode: m, ..self }
    }

    /// Pulls the cursor back onto the buffer; past the last character only in
    /// Insert mode.
    pub open spec fn clamp(self) -> EdState {
        let row = min(self.cursor.0, dec0(self.lines.len() as int));
        let len = self.lines[row].len() as int;
        let max_col = if self.mode is Insert {
            len
        } else {
            dec0(len)
        };
        self.with_cursor(row, min(self.cursor.1, max_col))
    }

    pub open spec fn push_undo(self) -> EdState {
        EdState { undo: self.undo.push(SnapV { lines: self.lines, cursor: self.cursor }), ..self }
    }

    /// The selection between anchor and cursor, in reading order.
    pub open spec fn selection(self) -> Option<((int, int), (int, int))> {
        match self.anchor {
            None => None,
            Some(a) => {
                let c = self.cursor;
                if a.0 < c.0 || (a.0 == c.0 && a.1 <= c.1) {
                    Some((a, c))
                } else {
                    Some((c, a))
                }
            },
        }
    }

    // Movement

    pub open spec fn move_left(self) -> EdState {
        if self.col() > 0 {
            self.with_col(self.col() - 1)
        } else {
            self
        }
    }

    pub open spec fn move_right(self) -> EdState {
        if self.col() < dec0(self.cur_line().len() as int) {
            self.with_col(self.col() + 1)
        } else {
            self
        }
    }

    pub open spec fn move_down(self) -> EdState {
        if self.row() + 1 < self.lines.len() {
            self.with_cursor(self.row() + 1, self.col()).clamp()
        } else {
            self
        }
    }

    pub open spec fn move_up(self) -> EdState {
        if self.row() > 0 {
            self.with_cursor(self.row() - 1, self.col()).clamp()
        } else {
            self
        }
    }

    pub open spec fn move_col_end(self) -> EdState {
        self.with_col(dec0(self.cur_line().len() as int))
    }

    pub open spec fn move_first_nonblank(self) -> EdState {
        self.with_col(first_nonblank(self.cur_line()))
    }

    pub open spec fn move_gg(self) -> EdState {
        self.with_cursor(0, 0).move_first_nonblank()
    }

    pub open spec fn move_big_g(self) -> EdState {
        self.with_cursor(dec0(self.lines.len() as int), self.col()).move_first_nonblank()
    }

    pub open spec fn word_forward(self) -> EdState {
        let s = self.cur_line();
        let c = skip_ws(s, skip_nonws(s, self.col()));
        if c < s.len() {
            self.with_col(c)
        } else if self.row() + 1 < self.lines.len() {
            self.with_cursor(self.row() + 1, skip_ws(self.lines[self.row() + 1], 0))
        } else {
            self.with_col(dec0(s.len() as int))
        }
    }

    pub open spec fn word_backward(self) -> EdState {
        if self.col() == 0 {
            if self.row() > 0 {
                let prev = self.lines[self.row() - 1];
                if prev.len() == 0 {
                    self.with_cursor(self.row() - 1, 0)
                } else {
                    self.with_cursor(
                        self.row() - 1,
                        back_word(prev, back_ws(prev, prev.len() - 1)),
                    )
                }
            } else {
                self
            }
        } else {
            let s = self.cur_line();
            self.with_col(back_word(s, back_ws(s, self.col() - 1)))
        }
    }

    pub open spec fn word_end(self) -> EdState {
        let s = self.cur_line();
        let len = s.len() as int;
        let c0 = self.col();
        if len == 0 {
            self
        } else {
            let c1 = if c0 + 1 < len && ((!is_ws(s[c0]) && is_ws(s[c0 + 1])) || is_ws(s[c0])) {
                c0 + 1
            } else {
                c0
            };
            let c3 = word_end_from(s, skip_ws(s, c1));
            if c3 < len {
                self.with_col(c3)
            } else {
                self
            }
        }
    }

    // Deletion, yank, paste, undo

    pub open spec fn delete_char(self) -> EdState {
        let s1 = self.push_undo();
        let line = s1.cur_line();
        let s2 = if s1.col() < line.len() {
            s1.with_lines(s1.lines.update(s1.row(), line.remove(s1.col())))
        } else {
            s1
        };
        s2.clamp().with_change(ChangeV::DeleteChar)
    }

    pub open spec fn delete_line(self) -> EdState {
        let s1 = self.push_undo();
        let removed = s1.cur_line();
        let ls1 = s1.lines.remove(s1.row());
        let ls2 = if ls1.len() == 0 {
            ls1.push(Seq::empty())
        } else {
            ls1
        };
        let row = if s1.row() >= ls2.len() {
            ls2.len() - 1
        } else {
            s1.row()
        };
        EdState { yank: Some(removed), ..s1.with_lines(ls2).with_cursor(row, s1.col()) }.clamp().with_change(
            ChangeV::DeleteLine,
        )
    }

    pub open spec fn delete_word(self) -> EdState {
        let s1 = self.push_undo();
        let s = s1.cur_line();
        let col = s1.col();
        if col >= s.len() {
            s1.with_change(ChangeV::DeleteWord)
        } else {
            let e1 = if !is_ws(s[col]) {
                skip_nonws(s, col)
            } else {
                col
            };
            let end = skip_ws(s, e1);
            let nl = s.subrange(0, col) + s.subrange(end, s.len() as int);
            s1.with_lines(s1.lines.update(s1.row(), nl)).clamp().with_change(ChangeV::DeleteWord)
        }
    }

    pub open spec fn delete_to_end(self) -> EdState {
        let s1 = self.push_undo();
        let s = s1.cur_line();
        let s2 = if s1.col() < s.len() {
            s1.with_lines(s1.lines.update(s1.row(), s.subrange(0, s1.col())))
        } else {
            s1
        };
        s2.clamp().with_change(ChangeV::DeleteToEndOfLine)
    }

    pub open spec fn yank_line(self) -> EdState {
        EdState { yank: Some(self.cur_line()), ..self }.with_change(ChangeV::YankLine)
    }

    pub open spec fn paste_after(self) -> EdState {
        let s1 = self.push_undo();
        let s2 = match s1.yank {
            Some(t) => s1.with_lines(s1.lines.insert(s1.row() + 1, t)).with_cursor(
                s1.row() + 1,
                s1.col(),
            ).clamp(),
            None => s1,
        };
        s2.with_change(ChangeV::PasteAfter)
    }

    pub open spec fn paste_before(self) -> EdState {
        let s1 = self.push_undo();
        let s2 = match s1.yank {
            Some(t) => s1.with_lines(s1.lines.insert(s1.row(), t)).clamp(),
            None => s1,
        };
        s2.with_change(ChangeV::PasteBefore)
    }

    pub open spec fn undo_op(self) -> EdState {
        if self.undo.len() > 0 {
            let snap = self.undo.last();
            EdState {
                undo: self.undo.drop_last(),
                lines: snap.lines,
                cursor: snap.cursor,
                ..self
            }.clamp()
        } else {
            self
        }
    }

    // Visual mode

    pub open spec fn delete_selection(self) -> EdState {
        match self.selection() {
            None => self,
            Some((start, end)) => {
                let s1 = self.push_undo();
                let ls = if start.0 == end.0 {
                    let line = s1.lines[start.0];
                    let e = min(end.1 + 1, line.len() as int);
                    s1.lines.update(
                        start.0,
                        line.subrange(0, start.1) + line.subrange(e, line.len() as int),
                    )
                } else {
                    let rest = s1.lines.subrange(0, start.0) + s1.lines.subrange(
                        min(end.0 + 1, s1.lines.len() as int),
                        s1.lines.len() as int,
                    );
                    if rest.len() == 0 {
                        seq![Seq::empty()]
                    } else {
                        rest
                    }
                };
                EdState {
                    anchor: None,
                    ..s1.with_lines(ls).with_cursor(start.0, start.1).clamp()
                }.with_mode(ModeV::Normal).with_change(
                    ChangeV::DeleteVisualSelection { start, end },
                )
            },
        }
    }

    pub open spec fn yank_selection(self) -> EdState {
        match self.selection() {
            None => self,
            Some((start, end)) => {
                let y = if start.0 == end.0 {
                    let line = self.lines[start.0];
                    line.subrange(start.1, min(end.1 + 1, line.len() as int))
                } else {
                    join_lines(self.lines.subrange(start.0, end.0 + 1))
                };
                EdState {
                    yank: Some(y),
                    anchor: None,
                    ..self.with_cursor(start.0, start.1)
                }.with_mode(ModeV::Normal).with_change(ChangeV::YankVisualSelection { start, end })
            },
        }
    }

    // Search

    /// The position the next match moves to, if any.
    pub open spec fn next_match_pos(self, pat: Seq<char>, forward: bool) -> Option<(int, int)> {
        let row = self.row();
        let col = self.col();
        if forward {
            match find_from(self.lines[row], pat, col + 1) {
                Some(c) => Some((row, c)),
                None => match self.first_match_in_rows(pat, row + 1) {
                    Some(p) => Some(p),
                    None => self.first_match_before(pat, 0, row, col),
                },
            }
        } else {
            let here = if col > 0 {
                find_backward(self.lines[row], pat, col - 1)
            } else {
                None
            };
            match here {
                Some(c) => Some((row, c)),
                None => match self.last_match_in_rows(pat, row - 1, 0) {
                    Some(p) => Some(p),
                    None => self.last_match_in_rows(pat, self.lines.len() - 1, row),
                },
            }
        }
    }

    /// First line at or after `r` holding `pat`, with the match's column.
    pub open spec fn first_match_in_rows(self, pat: Seq<char>, r: int) -> Option<(int, int)>
        decreases self.lines.len() - r,
    {
        if r < 0 || r >= self.lines.len() {
            None
        } else {
            match find_from(self.lines[r], pat, 0) {
                Some(c) => Some((r, c)),
                None => self.first_match_in_rows(pat, r + 1),
            }
        }
    }

    /// Wrapping part of a forward search: the first line `r` in `[from, row]`
    /// whose first match is usable (on the cursor's own line it must lie
    /// before the cursor).
    pub open spec fn first_match_before(self, pat: Seq<char>, r: int, row: int, col: int) -> Option<
        (int, int),
    >
        decreases row + 1 - r,
    {
        if r < 0 || r > row || r >= self.lines.len() {
            None
        } else {
            match find_from(self.lines[r], pat, 0) {
                Some(c) => if r == row && c >= col {
                    self.first_match_before(pat, r + 1, row, col)
                } else {
                    Some((r, c))
                },
                None => self.first_match_before(pat, r + 1, row, col),
            }
        }
    }

    /// Last line `r` in `[lo, hi]`, scanning downward from `hi`, holding `pat`,
    /// with the last match on it.
    pub open spec fn last_match_in_rows(self, pat: Seq<char>, hi: int, lo: int) -> Option<
        (int, int),
    >
        decreases hi + 1,
    {
        if hi < 0 || hi < lo || hi >= self.lines.len() {
            None
        } else {
            match find_backward(self.lines[hi], pat, self.lines[hi].len() as int) {
                Some(c) => Some((hi, c)),
                None => self.last_match_in_rows(pat, hi - 1, lo),
            }
        }
    }

    pub open spec fn find_next(self, forward: bool) -> EdState {
        match self.search {
            None => self,
            Some(p) => if p.len() == 0 {
                self
            } else {
                match self.next_match_pos(p, forward) {
                    Some(pos) => self.with_cursor(pos.0, pos.1),
                    None => self,
                }
            },
        }
    }

    pub open spec fn run_search(self, pat: Seq<char>) -> EdState {
        if pat.len() == 0 {
            self
        } else {
            EdState { search: Some(pat), ..self }.find_next(true)
        }
    }

    // Commands

    pub open spec fn substitute(self, find: Seq<char>, replace: Seq<char>) -> EdState {
        let line = self.cur_line();
        match find_from(line, find, 0) {
            None => self,
            Some(pos) => {
                let s1 = self.push_undo();
                let nl = line.subrange(0, pos) + replace + line.subrange(
                    pos + find.len(),
                    line.len() as int,
                );
                s1.with_lines(s1.lines.update(s1.row(), nl)).with_col(pos).clamp().with_change(
                    ChangeV::Substitute { find, replace },
                )
            },
        }
    }

    /// The effect and the result of executing the command line `cmd`.
    pub open spec fn command(self, cmd: Seq<char>) -> (EdState, CommandResult) {
        let c = trim(cmd);
        if c == seq!['w'] {
            (self, CommandResult::Save)
        } else if c == seq!['q'] || c == seq!['q', '!'] {
            (self, CommandResult::Quit)
        } else if c == seq!['w', 'q'] {
            (self, CommandResult::SaveAndQuit)
        } else if c.len() >= 2 && c[0] == 's' && c[1] == '/' && substitute_fields(
            c.subrange(2, c.len() as int),
        ) is Some {
            let (f, r) = substitute_fields(c.subrange(2, c.len() as int)).unwrap();
            (self.substitute(f, r), CommandResult::Nothing)
        } else {
            (
                EdState { error: Some("Comando desconhecido: :"@ + c), ..self },
                CommandResult::Nothing,
            )
        }
    }

    // Insert mode

    pub open spec fn enter_insert(self, e: InsertEntry) -> EdState {
        let s0 = EdState { ins_text: Seq::empty(), ins_entry: Some(e), ..self };
        let s1 = match e {
            InsertEntry::LittleI => s0,
            InsertEntry::BigI => s0.move_first_nonblank(),
            InsertEntry::LittleA => if s0.col() < s0.cur_line().len() {
                s0.with_col(s0.col() + 1)
            } else {
                s0
            },
            InsertEntry::BigA => s0.with_col(s0.cur_line().len() as int),
            InsertEntry::LittleO => s0.with_lines(s0.lines.insert(s0.row() + 1, Seq::empty())).with_cursor(
                s0.row() + 1,
                0,
            ),
            InsertEntry::BigO => s0.with_lines(s0.lines.insert(s0.row(), Seq::empty())).with_col(0),
        };
        s1.with_mode(ModeV::Insert)
    }

    pub open spec fn insert_char(self, ch: char) -> EdState {
        let line = self.cur_line();
        let col = min(self.col(), line.len() as int);
        let s1 = if ch == '\n' {
            self.with_lines(
                self.lines.update(self.row(), line.subrange(0, col)).insert(
                    self.row() + 1,
                    line.subrange(col, line.len() as int),
                ),
            ).with_cursor(self.row() + 1, 0)
        } else {
            self.with_lines(self.lines.update(self.row(), line.insert(col, ch))).with_col(col + 1)
        };
        EdState { ins_text: self.ins_text.push(ch), ..s1 }
    }

    pub open spec fn insert_all(self, text: Seq<char>) -> EdState
        decreases text.len(),
    {
        if text.len() == 0 {
            self
        } else {
            self.insert_char(text[0]).insert_all(text.drop_first())
        }
    }

    pub open spec fn backspace(self) -> EdState {
        let row = self.row();
        let col = self.col();
        if col > 0 {
            EdState {
                ins_text: if self.ins_text.len() > 0 {
                    self.ins_text.drop_last()
                } else {
                    self.ins_text
                },
                ..self.with_lines(self.lines.update(row, self.cur_line().remove(col - 1))).with_col(
                    col - 1,
                )
            }
        } else if row > 0 {
            let cur = self.cur_line();
            let ls = self.lines.remove(row);
            let prev = ls[row - 1];
            self.with_lines(ls.update(row - 1, prev + cur)).with_cursor(row - 1, prev.len() as int)
        } else {
            self
        }
    }

    pub open spec fn exit_insert(self) -> EdState {
        let entry = match self.ins_entry {
            Some(e) => e,
            None => InsertEntry::LittleI,
        };
        let s1 = if self.ins_text.len() > 0 {
            self.with_change(ChangeV::InsertText { text: self.ins_text, entry })
        } else {
            self
        };
        let mx = dec0(s1.cur_line().len() as int);
        let s2 = if s1.col() > mx {
            s1.with_col(mx)
        } else {
            s1
        };
        EdState { ins_text: Seq::empty(), ins_entry: None, ..s2.with_mode(ModeV::Normal) }
    }

    // Repeat

    pub open spec fn repeat(self) -> EdState {
        match self.last_change {
            None => self,
            Some(ch) => match ch {
                ChangeV::DeleteChar => self.delete_char(),
                ChangeV::DeleteLine => self.delete_line(),
                ChangeV::DeleteWord => self.delete_word(),
                ChangeV::DeleteToEndOfLine => self.delete_to_end(),
                ChangeV::YankLine => self.yank_line(),
                ChangeV::PasteAfter => self.paste_after(),
                ChangeV::PasteBefore => self.paste_before(),
                ChangeV::Substitute { find, replace } => self.substitute(find, replace),
                ChangeV::InsertText { text, entry } => self.push_undo().enter_insert(
                    entry,
                ).insert_all(text).exit_insert(),
                _ => self,
            },
        }
    }
    // Key dispatch

    pub open spec fn pending_key(self, op: char, key: Seq<char>) -> EdState {
        let s = EdState { pending_op: None, ..self };
        if op == 'd' && key == "w"@ {
            s.delete_word()
        } else if op == 'd' && key == "$"@ {
            s.delete_to_end()
        } else if op == 'd' && key == "d"@ {
            s.delete_line()
        } else if op == 'd' && key == "j"@ {
            let s1 = s.push_undo();
            let row = s1.row();
            let ls1 = s1.lines.remove(row);
            let ls2 = if row < ls1.len() {
                ls1.remove(row)
            } else {
                ls1
            };
            let ls3 = if ls2.len() == 0 {
                ls2.push(Seq::empty())
            } else {
                ls2
            };
            s1.with_lines(ls3).with_cursor(min(row, ls3.len() - 1), s1.col()).clamp()
        } else if op == 'd' && key == "G"@ {
            let s1 = s.push_undo();
            let ls1 = s1.lines.subrange(0, s1.row());
            let ls2 = if ls1.len() == 0 {
                ls1.push(Seq::empty())
            } else {
                ls1
            };
            s1.with_lines(ls2).with_cursor(ls2.len() - 1, s1.col()).clamp()
        } else if op == 'y' && key == "y"@ {
            s.yank_line()
        } else if op == 'y' && key == "w"@ {
            let line = s.cur_line();
            EdState { yank: Some(line.subrange(s.col(), skip_nonws(line, s.col()))), ..s }
        } else {
            EdState { error: Some(unknown_op_message(op, key)), ..s }
        }
    }

    pub open spec fn normal_key(self, key: Seq<char>) -> EdState {
        match self.pending_op {
            Some(op) => self.pending_key(op, key),
            None => if key == "h"@ {
                self.move_left()
            } else if key == "j"@ {
                self.move_down()
            } else if key == "k"@ {
                self.move_up()
            } else if key == "l"@ {
                self.move_right()
            } else if key == "w"@ {
                self.word_forward()
            } else if key == "b"@ {
                self.word_backward()
            } else if key == "e"@ {
                self.word_end()
            } else if key == "0"@ {
                self.with_col(0)
            } else if key == "$"@ {
                self.move_col_end()
            } else if key == "^"@ {
                self.move_first_nonblank()
            } else if key == "g"@ {
                self
            } else if key == "gg"@ {
                self.move_gg()
            } else if key == "G"@ {
                self.move_big_g()
            } else if key == "x"@ {
                self.delete_char()
            } else if key == "d"@ {
                EdState { pending_op: Some('d'), ..self }
            } else if key == "y"@ {
                EdState { pending_op: Some('y'), ..self }
            } else if key == "dd"@ {
                self.delete_line()
            } else if key == "yy"@ {
                self.yank_line()
            } else if key == "p"@ {
                self.paste_after()
            } else if key == "P"@ {
                self.paste_before()
            } else if key == "u"@ {
                self.undo_op()
            } else if key == "."@ {
                self.repeat()
            } else if key == "/"@ {
                self.with_mode(ModeV::Search(Seq::empty()))
            } else if key == "n"@ {
                self.find_next(true)
            } else if key == "N"@ {
                self.find_next(false)
            } else if key == "i"@ {
                self.push_undo().enter_insert(InsertEntry::LittleI)
            } else if key == "I"@ {
                self.push_undo().enter_insert(InsertEntry::BigI)
            } else if key == "a"@ {
                self.push_undo().enter_insert(InsertEntry::LittleA)
            } else if key == "A"@ {
                self.push_undo().enter_insert(InsertEntry::BigA)
            } else if key == "o"@ {
                self.push_undo().enter_insert(InsertEntry::LittleO)
            } else if key == "O"@ {
                self.push_undo().enter_insert(InsertEntry::BigO)
            } else if key == "v"@ {
                EdState { anchor: Some(self.cursor), ..self }.with_mode(ModeV::Visual)
            } else if key == "V"@ {
                EdState {
                    anchor: Some((self.row(), 0)),
                    ..self.with_col(dec0(self.cur_line().len() as int))
                }.with_mode(ModeV::Visual)
            } else if key == ":"@ {
                self.with_mode(ModeV::Command(Seq::empty()))
            } else if key == "Esc"@ {
                EdState { pending_op: None, status: Seq::empty(), ..self }
            } else {
                self
            },
        }
    }

    pub open spec fn insert_key(self, key: Seq<char>) -> EdState {
        if key == "Esc"@ {
            self.exit_insert()
        } else if key == "Backspace"@ {
            self.backspace()
        } else if key == "Enter"@ {
            self.insert_char('\n')
        } else if is_single_byte_key(key) {
            self.insert_char(key[0])
        } else {
            self
        }
    }

    pub open spec fn visual_key(self, key: Seq<char>) -> EdState {
        if key == "h"@ {
            self.move_left()
        } else if key == "j"@ {
            self.move_down()
        } else if key == "k"@ {
            self.move_up()
        } else if key == "l"@ {
            self.move_right()
        } else if key == "d"@ {
            self.delete_selection()
        } else if key == "y"@ {
            self.yank_selection()
        } else if key == "Esc"@ {
            EdState { anchor: None, ..self }.with_mode(ModeV::Normal)
        } else {
            self
        }
    }

    pub open spec fn command_key(self, key: Seq<char>, acc: Seq<char>) -> (EdState, CommandResult) {
        if key == "Esc"@ {
            (EdState { status: Seq::empty(), ..self.with_mode(ModeV::Normal) }, CommandResult::Nothing)
        } else if key == "Enter"@ {
            EdState { status: Seq::empty(), ..self.with_mode(ModeV::Normal) }.command(acc)
        } else if key == "Backspace"@ {
            let na = if acc.len() > 0 {
                acc.drop_last()
            } else {
                acc
            };
            (EdState { status: seq![':'] + na, ..self.with_mode(ModeV::Command(na)) }, CommandResult::Nothing)
        } else if is_single_byte_key(key) {
            let na = acc + key;
            (EdState { status: seq![':'] + na, ..self.with_mode(ModeV::Command(na)) }, CommandResult::Nothing)
        } else {
            (self, CommandResult::Nothing)
        }
    }

    pub open spec fn search_key(self, key: Seq<char>, acc: Seq<char>) -> EdState {
        if key == "Esc"@ {
            EdState { status: Seq::empty(), ..self.with_mode(ModeV::Normal) }
        } else if key == "Enter"@ {
            EdState { status: Seq::empty(), ..self.with_mode(ModeV::Normal) }.run_search(acc)
        } else if key == "Backspace"@ {
            let na = if acc.len() > 0 {
                acc.drop_last()
            } else {
                acc
            };
            EdState { status: seq!['/'] + na, ..self.with_mode(ModeV::Search(na)) }
        } else if is_single_byte_key(key) {
            let na = acc + key;
            EdState { status: seq!['/'] + na, ..self.with_mode(ModeV::Search(na)) }
        } else {
            self
        }
    }

    /// One key press: the new state and what the command reports.
    pub open spec fn send_key(self, key: Seq<char>) -> (EdState, CommandResult) {
        let s = EdState { error: None, ..self };
        match s.mode {
            ModeV::Normal => (s.normal_key(key), CommandResult::Nothing),
            ModeV::Insert => (s.insert_key(key), CommandResult::Nothing),
            ModeV::Visual => (s.visual_key(key), CommandResult::Nothing),
            ModeV::Command(acc) => s.command_key(key, acc),
            ModeV::Search(acc) => (s.search_key(key, acc), CommandResult::Nothing),
        }
    }
}

/// The message for an unknown operator-pending sequence.
pub open spec fn unknown_op_message(op: char, key: Seq<char>) -> Seq<char> {
    "Operação desconhecida: "@ + seq![op] + key
}



/// Undo takes back a deletion: in Normal mode with no operator pending,
/// after `x` (one character) or `dd` (the line), `u` gives back the lines as
/// they were and reports nothing.
pub proof fn lemma_undo_after_delete(s: EdState, k: Seq<char>)
    requires
        s.wf(),
        s.mode is Normal,
        s.pending_op is None,
        k == "x"@ || k == "dd"@,
    ensures
        ({
            let s1 = s.send_key(k).0;
            let (s2, r) = s1.send_key("u"@);
            s2.lines == s.lines && r == CommandResult::Nothing
        }),
{
    reveal_strlit("h");
    reveal_strlit("j");
    reveal_strlit("k");
    reveal_strlit("l");
    reveal_strlit("w");
    reveal_strlit("b");
    reveal_strlit("e");
    reveal_strlit("0");
    reveal_strlit("$");
    reveal_strlit("^");
    reveal_strlit("g");
    reveal_strlit("gg");
    reveal_strlit("G");
    reveal_strlit("x");
    reveal_strlit("d");
    reveal_strlit("y");
    reveal_strlit("dd");
    reveal_strlit("yy");
    reveal_strlit("p");
    reveal_strlit("P");
    reveal_strlit("u");
}

/// `dj` deletes the cursor's line and the line below it: with the cursor
/// on any line but the last, the buffer afterwards is the old one without
/// those two lines (or one empty line, when they were all there was), and
/// `u` gives the old lines back.
pub proof fn lemma_dj_deletes_two_lines(s: EdState)
    requires
        s.wf(),
        s.mode is Normal,
        s.pending_op is None,
        s.cursor.0 + 1 < s.lines.len(),
    ensures
        ({
            let s1 = s.send_key("d"@).0;
            let s2 = s1.send_key("j"@).0;
            let row = s.cursor.0;
            let n = s.lines.len();
            &&& n > 2 ==> s2.lines == s.lines.subrange(0, row) + s.lines.subrange(row + 2, n as int)
            &&& n > 2 ==> s2.lines.len() == n - 2
            &&& n == 2 ==> s2.lines == seq![Seq::<char>::empty()]
            &&& s2.send_key("u"@).0.lines == s.lines
        }),
{
    reveal_strlit("h");
    reveal_strlit("j");
    reveal_strlit("k");
    reveal_strlit("l");
    reveal_strlit("w");
    reveal_strlit("b");
    reveal_strlit("e");
    reveal_strlit("0");
    reveal_strlit("$");
    reveal_strlit("^");
    reveal_strlit("g");
    reveal_strlit("gg");
    reveal_strlit("G");
    reveal_strlit("x");
    reveal_strlit("d");
    reveal_strlit("y");
    reveal_strlit("dd");
    reveal_strlit("yy");
    reveal_strlit("p");
    reveal_strlit("P");
    reveal_strlit("u");
    let row = s.cursor.0;
    let n = s.lines.len() as int;
    let s0 = EdState { error: None, ..s };
    let s1 = s.send_key("d"@).0;
    assert(s1 == EdState { pending_op: Some('d'), ..s0 });
    let s1e = EdState { error: None, ..s1 };
    let s2 = s1.send_key("j"@).0;
    assert(s2 == s1e.pending_key('d', "j"@));
    let t = EdState { pending_op: None, ..s1e };
    let t1 = t.push_undo();
    let ls1 = t1.lines.remove(row);
    let ls2 = ls1.remove(row);
    assert(ls2 =~= s.lines.subrange(0, row) + s.lines.subrange(row + 2, n));
    let ls3 = if ls2.len() == 0 {
        ls2.push(Seq::empty())
    } else {
        ls2
    };
    assert(s2 == t1.with_lines(ls3).with_cursor(min(row, ls3.len() - 1), t1.col()).clamp());
    if n == 2 {
        assert(ls3 =~= seq![Seq::<char>::empty()]);
    }
    assert(s2.undo.last().lines == s.lines);
    assert(s2.mode is Normal && s2.pending_op is None);
    let s2e = EdState { error: None, ..s2 };
    assert(s2.send_key("u"@).0 == s2e.undo_op());
}

/// The line deletions after `d`, by what follows it: `dd` takes out the
/// cursor's line (keeping it as the yanked text), `d$` cuts the line at the
/// cursor, `dG` takes out the cursor's line and all below it; an emptied
/// buffer keeps one empty line. `x` takes out the character under the cursor.
/// No deletion touches another line.
pub proof fn lemma_deletions(s: EdState)
    requires
        s.wf(),
        s.mode is Normal,
        s.pending_op is None,
    ensures
        ({
            let row = s.cursor.0;
            let col = s.cursor.1;
            let n = s.lines.len();
            let line = s.lines[row];
            let dd = s.send_key("d"@).0.send_key("d"@).0;
            let dend = s.send_key("d"@).0.send_key("$"@).0;
            let dg = s.send_key("d"@).0.send_key("G"@).0;
            let x = s.send_key("x"@).0;
            &&& n > 1 ==> dd.lines == s.lines.subrange(0, row) + s.lines.subrange(row + 1, n as int)
            &&& n == 1 ==> dd.lines == seq![Seq::<char>::empty()]
            &&& dd.yank == Some(line)
            &&& dend.lines.len() == n
            &&& dend.lines[row] == line.subrange(0, col)
            &&& forall|k: int| 0 <= k < n && k != row ==> dend.lines[k] == s.lines[k]
            &&& row > 0 ==> dg.lines == s.lines.subrange(0, row)
            &&& row == 0 ==> dg.lines == seq![Seq::<char>::empty()]
            &&& x.lines.len() == n
            &&& col < line.len() ==> x.lines[row] == line.subrange(0, col) + line.subrange(
                col + 1,
                line.len() as int,
            )
            &&& col == line.len() ==> x.lines[row] == line
            &&& forall|k: int| 0 <= k < n && k != row ==> x.lines[k] == s.lines[k]
        }),
{
    reveal_strlit("h");
    reveal_strlit("j");
    reveal_strlit("k");
    reveal_strlit("l");
    reveal_strlit("w");
    reveal_strlit("b");
    reveal_strlit("e");
    reveal_strlit("0");
    reveal_strlit("$");
    reveal_strlit("^");
    reveal_strlit("g");
    reveal_strlit("gg");
    reveal_strlit("G");
    reveal_strlit("x");
    reveal_strlit("d");
    let row = s.cursor.0;
    let col = s.cursor.1;
    let n = s.lines.len() as int;
    let line = s.lines[row];
    let s0 = EdState { error: None, ..s };
    let s1 = s.send_key("d"@).0;
    assert(s1 == EdState { pending_op: Some('d'), ..s0 });
    let s1e = EdState { error: None, ..s1 };
    let t = EdState { pending_op: None, ..s1e };
    assert(s1.send_key("d"@).0 == t.delete_line());
    assert(s1.send_key("$"@).0 == s1e.pending_key('d', "$"@));
    assert(s1.send_key("$"@).0 == t.delete_to_end());
    assert(s1.send_key("G"@).0 == s1e.pending_key('d', "G"@));
    assert(t.push_undo().lines.remove(row) =~= s.lines.subrange(0, row) + s.lines.subrange(row + 1, n));
    if n == 1 {
        assert(t.push_undo().lines.remove(row) =~= Seq::<Seq<char>>::empty());
    }
    if row == 0 {
        assert(s.lines.subrange(0, 0) =~= Seq::<Seq<char>>::empty());
    }
    assert(s.send_key("x"@).0 == s0.delete_char());
    if col < line.len() {
        assert(line.remove(col) =~= line.subrange(0, col) + line.subrange(col + 1, line.len() as int));
    }
}

/// Yanking copies and changes nothing else: after `y` then `y` the buffer
/// and the cursor are as they were and the yanked text is the cursor's line;
/// after `d` or `y` followed by a key that makes no command with it (none of
/// `w`, `$`, `d`, `j`, `G`, `y`), the buffer and
/// cursor stay and an error names the sequence.
pub proof fn lemma_yank_and_unknown(s: EdState, op: Seq<char>, k: Seq<char>)
    requires
        s.wf(),
        s.mode is Normal,
        s.pending_op is None,
        op == "d"@ || op == "y"@,
        k != "w"@ && k != "$"@ && k != "d"@ && k != "j"@ && k != "G"@ && k != "y"@,
    ensures
        ({
            let yy = s.send_key("y"@).0.send_key("y"@).0;
            let bad = s.send_key(op).0.send_key(k).0;
            &&& yy.lines == s.lines && yy.cursor == s.cursor
            &&& yy.yank == Some(s.lines[s.cursor.0])
            &&& bad.lines == s.lines && bad.cursor == s.cursor
            &&& bad.error == Some(unknown_op_message(op[0], k))
            &&& bad.pending_op is None
        }),
{
    reveal_strlit("h");
    reveal_strlit("j");
    reveal_strlit("k");
    reveal_strlit("l");
    reveal_strlit("w");
    reveal_strlit("b");
    reveal_strlit("e");
    reveal_strlit("0");
    reveal_strlit("$");
    reveal_strlit("^");
    reveal_strlit("g");
    reveal_strlit("gg");
    reveal_strlit("G");
    reveal_strlit("x");
    reveal_strlit("d");
    reveal_strlit("y");
    let s0 = EdState { error: None, ..s };
    let sy = s.send_key("y"@).0;
    assert(sy == EdState { pending_op: Some('y'), ..s0 });
    let sye = EdState { error: None, ..sy };
    assert(sy.send_key("y"@).0 == EdState { pending_op: None, ..sye }.yank_line());
    let so = s.send_key(op).0;
    assert(so == EdState { pending_op: Some(op[0]), ..s0 });
    let soe = EdState { error: None, ..so };
    assert(so.send_key(k).0 == soe.pending_key(op[0], k));
}

} // verus!
