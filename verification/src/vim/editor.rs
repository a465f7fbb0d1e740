//! Modal Vim emulator: Normal, Insert, Visual, Command and Search modes.
//!
//! Lines are handled as sequences of characters; the cursor's column counts
//! characters.
use vstd::prelude::*;
use vstd::string::{StrSliceExecFns, StringExecFns};

use crate::text::{
    chars_eq, extend_chars, find_from, find_from_exec, index_of_exec, index_of_from,
    is_single_byte_key, is_whitespace, is_ws, lemma_index_of_bounds, matches_at,
    matches_at_exec, opt_usize_v,
    rskip_ws, rskip_ws_exec, skip_ws, skip_ws_exec, slice_chars, str_chars, str_eq, string_of,
    trim, trim_chars,
};
use super::model::{
    back_word, back_ws, dec0, entry_key, find_backward, first_nonblank, initial_buffer,
    join_lines, lines_from, min, rfind_at_most, skip_nonws, strip_cr, substitute_fields,
    unknown_op_message, word_end_from, ChangeV, EdState, ModeV, SnapV,
};

verus! {

/// The editor's current mode.
#[derive(Debug, Clone, PartialEq, Eq)]
pub enum Mode {
    Normal,
    Insert,
    Visual,
    /// The command typed so far, after the leading `:`.
    Command(String),
    /// The search pattern typed so far, after the leading `/`.
    Search(String),
}

impl Mode {
    pub open spec fn view_mode(&self) -> ModeV {
        match self {
            Mode::Normal => ModeV::Normal,
            Mode::Insert => ModeV::Insert,
            Mode::Visual => ModeV::Visual,
            Mode::Command(s) => ModeV::Command(s@),
            Mode::Search(s) => ModeV::Search(s@),
        }
    }

    /// The mode's display name.
    pub fn name(&self) -> (r: &'static str)
        ensures
            r@ == mode_name(self.view_mode()),
    {
        match self {
            Mode::Normal => "NORMAL",
            Mode::Insert => "INSERT",
            Mode::Visual => "VISUAL",
            Mode::Command(_) => "COMMAND",
            Mode::Search(_) => "SEARCH",
        }
    }
}

/// Display name of a mode.
pub open spec fn mode_name(m: ModeV) -> Seq<char> {
    match m {
        ModeV::Normal => "NORMAL"@,
        ModeV::Insert => "INSERT"@,
        ModeV::Visual => "VISUAL"@,
        ModeV::Command(_) => "COMMAND"@,
        ModeV::Search(_) => "SEARCH"@,
    }
}

/// A saved buffer and cursor on the undo stack.
#[derive(Debug)]
pub struct EditorSnapshot {
    pub lines: Vec<String>,
    pub cursor: (usize, usize),
}

impl Clone for EditorSnapshot {
    fn clone(&self) -> (r: Self)
        ensures
            r.snap() == self.snap(),
    {
        EditorSnapshot { lines: clone_lines(&self.lines), cursor: self.cursor }
    }
}

/// A copy of a list of lines.
pub fn clone_lines(v: &Vec<String>) -> (r: Vec<String>)
    ensures
        lines_view(r@) == lines_view(v@),
{
    let mut r: Vec<String> = Vec::new();
    let mut i: usize = 0;
    while i < v.len()
        invariant
            i <= v@.len(),
            lines_view(r@) == lines_view(v@.subrange(0, i as int)),
        decreases v@.len() - i,
    {
        let ghost before = r@;
        let s = v[i].clone();
        assert(s@ == v@[i as int]@);
        r.push(s);
        assert(r@ == before.push(s));
        assert(lines_view(r@) =~= lines_view(before).push(s@));
        assert(v@.subrange(0, i + 1) =~= v@.subrange(0, i as int).push(v@[i as int]));
        assert(lines_view(r@) =~= lines_view(v@.subrange(0, i + 1)));
        i = i + 1;
    }
    assert(v@.subrange(0, v@.len() as int) =~= v@);
    r
}

impl EditorSnapshot {
    pub open spec fn snap(&self) -> SnapV {
        SnapV { lines: lines_view(self.lines@), cursor: (self.cursor.0 as int, self.cursor.1 as int) }
    }
}

/// The last change, kept for the `.` command.
#[derive(Debug)]
pub enum LastChange {
    DeleteChar,
    DeleteLine,
    DeleteWord,
    DeleteToEndOfLine,
    DeleteVisualSelection { start: (usize, usize), end: (usize, usize) },
    YankLine,
    YankVisualSelection { start: (usize, usize), end: (usize, usize) },
    PasteAfter,
    PasteBefore,
    InsertText { text: String, mode_entry: InsertEntry },
    Substitute { find: String, replace: String },
}

pub open spec fn pos_v(p: (usize, usize)) -> (int, int) {
    (p.0 as int, p.1 as int)
}

impl Clone for LastChange {
    fn clone(&self) -> (r: Self)
        ensures
            r.change_v() == self.change_v(),
    {
        match self {
            LastChange::DeleteChar => LastChange::DeleteChar,
            LastChange::DeleteLine => LastChange::DeleteLine,
            LastChange::DeleteWord => LastChange::DeleteWord,
            LastChange::DeleteToEndOfLine => LastChange::DeleteToEndOfLine,
            LastChange::DeleteVisualSelection { start, end } => LastChange::DeleteVisualSelection {
                start: *start,
                end: *end,
            },
            LastChange::YankLine => LastChange::YankLine,
            LastChange::YankVisualSelection { start, end } => LastChange::YankVisualSelection {
                start: *start,
                end: *end,
            },
            LastChange::PasteAfter => LastChange::PasteAfter,
            LastChange::PasteBefore => LastChange::PasteBefore,
            LastChange::InsertText { text, mode_entry } => LastChange::InsertText {
                text: text.clone(),
                mode_entry: *mode_entry,
            },
            LastChange::Substitute { find, replace } => LastChange::Substitute {
                find: find.clone(),
                replace: replace.clone(),
            },
        }
    }
}

impl LastChange {
    pub open spec fn change_v(&self) -> ChangeV {
        match self {
            LastChange::DeleteChar => ChangeV::DeleteChar,
            LastChange::DeleteLine => ChangeV::DeleteLine,
            LastChange::DeleteWord => ChangeV::DeleteWord,
            LastChange::DeleteToEndOfLine => ChangeV::DeleteToEndOfLine,
            LastChange::DeleteVisualSelection { start, end } => ChangeV::DeleteVisualSelection {
                start: pos_v(*start),
                end: pos_v(*end),
            },
            LastChange::YankLine => ChangeV::YankLine,
            LastChange::YankVisualSelection { start, end } => ChangeV::YankVisualSelection {
                start: pos_v(*start),
                end: pos_v(*end),
            },
            LastChange::PasteAfter => ChangeV::PasteAfter,
            LastChange::PasteBefore => ChangeV::PasteBefore,
            LastChange::InsertText { text, mode_entry } => ChangeV::InsertText {
                text: text@,
                entry: *mode_entry,
            },
            LastChange::Substitute { find, replace } => ChangeV::Substitute {
                find: find@,
                replace: replace@,
            },
        }
    }
}

/// How Insert mode was entered (kept for the `.` command).
#[derive(Clone, Copy, Debug, PartialEq, Eq, Structural)]
pub enum InsertEntry {
    LittleI,
    BigI,
    LittleA,
    BigA,
    LittleO,
    BigO,
}

/// What a key press reports to the caller.
#[derive(Debug, Clone, Copy, PartialEq, Eq, Structural)]
pub enum CommandResult {
    /// Nothing to report.
    Nothing,
    /// `:w`
    Save,
    /// `:q` or `:q!`
    Quit,
    /// `:wq`
    SaveAndQuit,
}

/// The full editor state.
pub struct Editor {
    pub lines: Vec<String>,
    /// (row, column)
    pub cursor: (usize, usize),
    pub mode: Mode,
    /// Operator waiting for its motion (`d`, `y`).
    pub pending_op: Option<char>,
    pub yank_buffer: Option<String>,
    pub undo_stack: Vec<EditorSnapshot>,
    pub last_change: Option<LastChange>,
    pub search_pattern: Option<String>,
    pub visual_anchor: Option<(usize, usize)>,
    pub status_line: String,
    pub hint: Option<String>,
    pub error: Option<String>,
    /// Text typed in the current Insert session (for `.`).
    pub insert_text: String,
    /// How the current Insert session was entered.
    pub insert_entry: Option<InsertEntry>,
}

/// The state of an editor just opened on `text` with the cursor at `cursor`.
pub open spec fn new_state(text: Seq<char>, cursor: (int, int)) -> EdState {
    EdState {
        lines: initial_buffer(text),
        cursor: cursor,
        mode: ModeV::Normal,
        pending_op: None,
        yank: None,
        undo: Seq::empty(),
        last_change: None,
        search: None,
        anchor: None,
        status: Seq::empty(),
        hint: None,
        error: None,
        ins_text: Seq::empty(),
        ins_entry: None,
    }
}

pub open spec fn lines_view(ls: Seq<String>) -> Seq<Seq<char>> {
    ls.map_values(|s: String| s@)
}

pub open spec fn opt_str_v(o: Option<String>) -> Option<Seq<char>> {
    match o {
        Some(s) => Some(s@),
        None => None,
    }
}

pub open spec fn opt_pos_v(o: Option<(usize, usize)>) -> Option<(int, int)> {
    match o {
        Some(p) => Some(pos_v(p)),
        None => None,
    }
}

pub open spec fn opt_change_v(o: Option<LastChange>) -> Option<ChangeV> {
    match o {
        Some(c) => Some(c.change_v()),
        None => None,
    }
}

impl View for Editor {
    type V = EdState;

    open spec fn view(&self) -> EdState {
        EdState {
            lines: lines_view(self.lines@),
            cursor: pos_v(self.cursor),
            mode: self.mode.view_mode(),
            pending_op: self.pending_op,
            yank: opt_str_v(self.yank_buffer),
            undo: self.undo_stack@.map_values(|s: EditorSnapshot| s.snap()),
            last_change: opt_change_v(self.last_change),
            search: opt_str_v(self.search_pattern),
            anchor: opt_pos_v(self.visual_anchor),
            status: self.status_line@,
            hint: opt_str_v(self.hint),
            error: opt_str_v(self.error),
            ins_text: self.insert_text@,
            ins_entry: self.insert_entry,
        }
    }
}

// ── Character-scanning helpers ─────────────────────────────────────────────

fn skip_nonws_exec(s: &[char], c: usize) -> (r: usize)
    requires
        c <= s@.len(),
    ensures
        r as int == skip_nonws(s@, c as int),
        c <= r <= s@.len(),
    decreases s@.len() - c,
{
    if c < s.len() && !is_whitespace(s[c]) {
        skip_nonws_exec(s, c + 1)
    } else {
        c
    }
}

fn back_ws_exec(s: &[char], c: usize) -> (r: usize)
    requires
        c < s@.len(),
    ensures
        r as int == back_ws(s@, c as int),
        r <= c,
    decreases c,
{
    if c > 0 && is_whitespace(s[c]) {
        back_ws_exec(s, c - 1)
    } else {
        c
    }
}

fn back_word_exec(s: &[char], c: usize) -> (r: usize)
    requires
        c <= s@.len(),
    ensures
        r as int == back_word(s@, c as int),
        r <= c,
    decreases c,
{
    if c > 0 && !is_whitespace(s[c - 1]) {
        back_word_exec(s, c - 1)
    } else {
        c
    }
}

fn word_end_exec(s: &[char], c: usize) -> (r: usize)
    requires
        c <= s@.len(),
    ensures
        r as int == word_end_from(s@, c as int),
        c <= r,
        r <= s@.len(),
    decreases s@.len() - c,
{
    if s.len() > 0 && c < s.len() - 1 && !is_whitespace(s[c + 1]) {
        word_end_exec(s, c + 1)
    } else {
        c
    }
}

fn rfind_exec(line: &[char], pat: &[char], i: usize) -> (r: Option<usize>)
    ensures
        opt_usize_v(r) == rfind_at_most(line@, pat@, i as int),
        r matches Some(k) ==> k <= i,
    decreases i,
{
    if matches_at_exec(line, pat, i) {
        Some(i)
    } else if i == 0 {
        assert(rfind_at_most(line@, pat@, -1) is None);
        None
    } else {
        rfind_exec(line, pat, i - 1)
    }
}

fn find_backward_exec(line: &[char], pat: &[char], before: usize) -> (r: Option<usize>)
    ensures
        opt_usize_v(r) == find_backward(line@, pat@, before as int),
        r matches Some(k) ==> k <= line@.len(),
{
    let end = if before < line.len() {
        before
    } else {
        line.len()
    };
    if end < pat.len() {
        None
    } else if pat.len() == 0 {
        if end > 0 {
            Some(end - 1)
        } else {
            Some(0)
        }
    } else {
        let prefix = slice_chars(line, 0, end);
        rfind_exec(prefix.as_slice(), pat, end - pat.len())
    }
}

/// First occurrence of `pattern` in `line` at or after character `from`.
pub fn find_in_line(line: &str, pattern: &str, from: usize) -> (r: Option<usize>)
    ensures
        opt_usize_v(r) == find_from(line@, pattern@, from as int),
{
    let l = str_chars(line);
    let p = str_chars(pattern);
    find_from_exec(l.as_slice(), p.as_slice(), from)
}

/// Last occurrence of `pattern` lying within the first `before` characters of
/// `line`.
pub fn find_in_line_backward(line: &str, pattern: &str, before: usize) -> (r: Option<usize>)
    ensures
        opt_usize_v(r) == find_backward(line@, pattern@, before as int),
{
    let l = str_chars(line);
    let p = str_chars(pattern);
    find_backward_exec(l.as_slice(), p.as_slice(), before)
}

/// The lines of a text, as `str::lines` splits it.
fn split_lines(text: &str) -> (r: Vec<String>)
    ensures
        lines_view(r@) == lines_from(text@, 0),
{
    let s = str_chars(text);
    let mut out: Vec<String> = Vec::new();
    let mut st: usize = 0;
    while st < s.len()
        invariant
            s@ == text@,
            st <= s@.len(),
            lines_view(out@) + lines_from(s@, st as int) == lines_from(s@, 0),
        decreases s@.len() - st,
    {
        proof {
            lemma_index_of_bounds(s@, '\n', st as int);
        }
        let ghost before = out@;
        match index_of_exec(s.as_slice(), '\n', st) {
            None => {
                let piece = slice_chars(s.as_slice(), st, s.len());
                out.push(string_of(piece.as_slice()));
                assert(lines_view(out@) =~= lines_view(before) + seq![piece@]);
                assert(lines_from(s@, s@.len() as int) =~= Seq::<Seq<char>>::empty());
                st = s.len();
            },
            Some(i) => {
                let mut piece = slice_chars(s.as_slice(), st, i);
                if piece.len() > 0 && piece[piece.len() - 1] == '\r' {
                    piece.pop();
                    assert(piece@ =~= strip_cr(s@.subrange(st as int, i as int)));
                }
                out.push(string_of(piece.as_slice()));
                assert(lines_view(out@) =~= lines_view(before) + seq![
                    strip_cr(s@.subrange(st as int, i as int)),
                ]);
                st = i + 1;
            },
        }
    }
    assert(lines_from(s@, st as int) =~= Seq::<Seq<char>>::empty());
    proof {
        r_identity(out@, lines_from(s@, 0));
    }
    out
}

proof fn r_identity(a: Seq<String>, b: Seq<Seq<char>>)
    requires
        lines_view(a) + Seq::<Seq<char>>::empty() == b,
    ensures
        lines_view(a) == b,
{
    assert(lines_view(a) + Seq::<Seq<char>>::empty() =~= lines_view(a));
}


impl Editor {
    /// The states on which every key is defined: see [`EdState::wf`].
    pub open spec fn wf(&self) -> bool {
        self@.wf()
    }

    /// How the model reads the public fields.
    pub proof fn lemma_view(&self)
        ensures
            self@.lines == lines_view(self.lines@),
            self@.cursor == pos_v(self.cursor),
            self@.mode == self.mode.view_mode(),
            self@.pending_op == self.pending_op,
            self@.yank == opt_str_v(self.yank_buffer),
            self@.anchor == opt_pos_v(self.visual_anchor),
            self@.status == self.status_line@,
            self@.error == opt_str_v(self.error),
            self@.hint == opt_str_v(self.hint),
            self@.search == opt_str_v(self.search_pattern),
            self@.last_change == opt_change_v(self.last_change),
    {
    }

    /// A new editor on `initial_text`, in Normal mode with the cursor at
    /// `cursor_start`.
    pub fn new(initial_text: &str, cursor_start: (usize, usize)) -> (r: Self)
        ensures
            r@ == new_state(initial_text@, pos_v(cursor_start)),
            r@.lines.len() >= 1,
            cursor_start.0 < r@.lines.len() && cursor_start.1 <= r@.lines[cursor_start.0 as int].len()
                ==> r.wf(),
    {
        let mut lines = split_lines(initial_text);
        if lines.len() == 0 {
            lines.push(String::new());
            assert(lines_view(lines@) =~= seq![Seq::<char>::empty()]);
        }
        let r = Editor {
            lines,
            cursor: cursor_start,
            mode: Mode::Normal,
            pending_op: None,
            yank_buffer: None,
            undo_stack: Vec::new(),
            last_change: None,
            search_pattern: None,
            visual_anchor: None,
            status_line: String::new(),
            hint: None,
            error: None,
            insert_text: String::new(),
            insert_entry: None,
        };
        assert(r.undo_stack@.map_values(|s: EditorSnapshot| s.snap()) =~= Seq::<SnapV>::empty());
        r
    }

    // ── Primitive updates of the buffer ─────────────────────────────────────

    fn line_chars(&self, r: usize) -> (v: Vec<char>)
        requires
            r < self.lines@.len(),
        ensures
            v@ == self@.lines[r as int],
    {
        str_chars(self.lines[r].as_str())
    }

    fn set_line(&mut self, r: usize, v: &[char])
        requires
            r < old(self).lines@.len(),
        ensures
            final(self)@ == old(self)@.with_lines(old(self)@.lines.update(r as int, v@)),
    {
        let ghost old_lines = self.lines@;
        self.lines[r] = string_of(v);
        assert(lines_view(self.lines@) =~= lines_view(old_lines).update(r as int, v@));
    }

    fn insert_line(&mut self, r: usize, v: &[char])
        requires
            r <= old(self).lines@.len(),
        ensures
            final(self)@ == old(self)@.with_lines(old(self)@.lines.insert(r as int, v@)),
    {
        let ghost old_lines = self.lines@;
        self.lines.insert(r, string_of(v));
        assert(lines_view(self.lines@) =~= lines_view(old_lines).insert(r as int, v@));
    }

    fn remove_line(&mut self, r: usize) -> (v: Vec<char>)
        requires
            r < old(self).lines@.len(),
        ensures
            v@ == old(self)@.lines[r as int],
            final(self)@ == old(self)@.with_lines(old(self)@.lines.remove(r as int)),
    {
        let ghost old_lines = self.lines@;
        let s = self.lines.remove(r);
        assert(lines_view(self.lines@) =~= lines_view(old_lines).remove(r as int));
        str_chars(s.as_str())
    }

    fn push_empty_line(&mut self)
        ensures
            final(self)@ == old(self)@.with_lines(old(self)@.lines.push(Seq::empty())),
    {
        let ghost old_lines = self.lines@;
        self.lines.push(String::new());
        assert(lines_view(self.lines@) =~= lines_view(old_lines).push(Seq::empty()));
    }

    fn truncate_lines(&mut self, n: usize)
        requires
            n <= old(self).lines@.len(),
        ensures
            final(self)@ == old(self)@.with_lines(old(self)@.lines.subrange(0, n as int)),
    {
        let ghost old_lines = self.lines@;
        self.lines.truncate(n);
        assert(lines_view(self.lines@) =~= lines_view(old_lines).subrange(0, n as int));
    }

    fn clamp_cursor(&mut self)
        requires
            old(self)@.lines.len() >= 1,
        ensures
            old(self)@.wf_lines() ==> final(self)@.wf(),
            final(self)@ == old(self)@.clamp(),
    {
        let n = self.lines.len();
        let row = if self.cursor.0 < n - 1 {
            self.cursor.0
        } else {
            n - 1
        };
        let len = self.lines[row].unicode_len();
        let max_col = match self.mode {
            Mode::Insert => len,
            _ => if len > 0 {
                len - 1
            } else {
                0
            },
        };
        let col = if self.cursor.1 < max_col {
            self.cursor.1
        } else {
            max_col
        };
        self.cursor = (row, col);
    }

    fn push_undo(&mut self)
        ensures
            old(self)@.wf() ==> final(self)@.wf(),
            final(self)@ == old(self)@.push_undo(),
    {
        let ghost old_undo = self.undo_stack@;
        let snap = EditorSnapshot { lines: clone_lines(&self.lines), cursor: self.cursor };
        self.undo_stack.push(snap);
        assert(self.undo_stack@.map_values(|s: EditorSnapshot| s.snap()) =~= old_undo.map_values(
            |s: EditorSnapshot| s.snap(),
        ).push(snap.snap()));
    }
}


impl Editor {
    // ── Movement ────────────────────────────────────────────────────────────

    fn move_left(&mut self)
        requires
            old(self)@.wf(),
        ensures
            final(self)@.wf(),
            final(self)@ == old(self)@.move_left(),
    {
        if self.cursor.1 > 0 {
            self.cursor.1 = self.cursor.1 - 1;
        }
    }

    fn move_right(&mut self)
        requires
            old(self)@.wf(),
        ensures
            final(self)@.wf(),
            final(self)@ == old(self)@.move_right(),
    {
        let len = self.lines[self.cursor.0].unicode_len();
        let max = if len > 0 {
            len - 1
        } else {
            0
        };
        if self.cursor.1 < max {
            self.cursor.1 = self.cursor.1 + 1;
        }
    }

    fn move_down(&mut self)
        requires
            old(self)@.wf(),
        ensures
            final(self)@.wf(),
            final(self)@ == old(self)@.move_down(),
    {
        if self.cursor.0 < self.lines.len() - 1 {
            self.cursor.0 = self.cursor.0 + 1;
            self.clamp_cursor();
        }
    }

    fn move_up(&mut self)
        requires
            old(self)@.wf(),
        ensures
            final(self)@.wf(),
            final(self)@ == old(self)@.move_up(),
    {
        if self.cursor.0 > 0 {
            self.cursor.0 = self.cursor.0 - 1;
            self.clamp_cursor();
        }
    }

    fn move_col_end(&mut self)
        requires
            old(self)@.wf(),
        ensures
            final(self)@.wf(),
            final(self)@ == old(self)@.move_col_end(),
    {
        let len = self.lines[self.cursor.0].unicode_len();
        self.cursor.1 = if len > 0 {
            len - 1
        } else {
            0
        };
    }

    fn move_first_nonblank(&mut self)
        requires
            old(self)@.lines.len() >= 1,
            0 <= old(self)@.cursor.0 < old(self)@.lines.len(),
        ensures
            final(self)@ == old(self)@.move_first_nonblank(),
    {
        let v = self.line_chars(self.cursor.0);
        let c = skip_ws_exec(v.as_slice(), 0);
        self.cursor.1 = if c < v.len() {
            c
        } else {
            0
        };
    }

    fn move_gg(&mut self)
        requires
            old(self)@.wf(),
        ensures
            final(self)@.wf(),
            final(self)@ == old(self)@.move_gg(),
    {
        self.cursor = (0, 0);
        self.move_first_nonblank();
    }

    fn move_big_g(&mut self)
        requires
            old(self)@.wf(),
        ensures
            final(self)@.wf(),
            final(self)@ == old(self)@.move_big_g(),
    {
        self.cursor.0 = self.lines.len() - 1;
        self.move_first_nonblank();
    }

    fn move_word_forward(&mut self)
        requires
            old(self)@.wf(),
        ensures
            final(self)@.wf(),
            final(self)@ == old(self)@.word_forward(),
    {
        let row = self.cursor.0;
        let col = self.cursor.1;
        let chars = self.line_chars(row);
        let len = chars.len();
        let c0 = skip_nonws_exec(chars.as_slice(), col);
        let c = skip_ws_exec(chars.as_slice(), c0);
        if c < len {
            self.cursor.1 = c;
        } else if row < self.lines.len() - 1 {
            let next = self.line_chars(row + 1);
            let nc = skip_ws_exec(next.as_slice(), 0);
            self.cursor = (row + 1, nc);
        } else {
            self.cursor.1 = if len > 0 {
                len - 1
            } else {
                0
            };
        }
    }

    fn move_word_backward(&mut self)
        requires
            old(self)@.wf(),
        ensures
            final(self)@.wf(),
            final(self)@ == old(self)@.word_backward(),
    {
        let row = self.cursor.0;
        let col = self.cursor.1;
        if col == 0 {
            if row > 0 {
                let prev = self.line_chars(row - 1);
                let len = prev.len();
                if len == 0 {
                    self.cursor = (row - 1, 0);
                    return;
                }
                let c1 = back_ws_exec(prev.as_slice(), len - 1);
                let c2 = back_word_exec(prev.as_slice(), c1);
                self.cursor = (row - 1, c2);
            }
            return;
        }
        let chars = self.line_chars(row);
        let c1 = back_ws_exec(chars.as_slice(), col - 1);
        let c2 = back_word_exec(chars.as_slice(), c1);
        self.cursor.1 = c2;
    }

    fn move_word_end(&mut self)
        requires
            old(self)@.wf(),
        ensures
            final(self)@.wf(),
            final(self)@ == old(self)@.word_end(),
    {
        let row = self.cursor.0;
        let col = self.cursor.1;
        let chars = self.line_chars(row);
        let len = chars.len();
        if len == 0 {
            return;
        }
        let mut c = col;
        if c < len - 1 && ((!is_whitespace(chars[c]) && is_whitespace(chars[c + 1]))
            || is_whitespace(chars[c])) {
            c = c + 1;
        }
        let c2 = skip_ws_exec(chars.as_slice(), c);
        let c3 = word_end_exec(chars.as_slice(), c2);
        if c3 < len {
            self.cursor.1 = c3;
        }
    }

    // ── Delete / yank / paste / undo ────────────────────────────────────────

    fn delete_char_at_cursor(&mut self)
        requires
            old(self)@.wf(),
            old(self)@.anchor is None,
        ensures
            final(self)@.wf(),
            final(self)@ == old(self)@.delete_char(),
    {
        self.push_undo();
        let row = self.cursor.0;
        let col = self.cursor.1;
        let mut v = self.line_chars(row);
        if col < v.len() {
            v.remove(col);
            self.set_line(row, v.as_slice());
        }
        self.clamp_cursor();
        self.last_change = Some(LastChange::DeleteChar);
    }

    fn delete_current_line(&mut self)
        requires
            old(self)@.wf(),
            old(self)@.anchor is None,
        ensures
            final(self)@.wf(),
            final(self)@ == old(self)@.delete_line(),
    {
        self.push_undo();
        let row = self.cursor.0;
        let removed = self.remove_line(row);
        self.yank_buffer = Some(string_of(removed.as_slice()));
        if self.lines.len() == 0 {
            self.push_empty_line();
        }
        if self.cursor.0 >= self.lines.len() {
            self.cursor.0 = self.lines.len() - 1;
        }
        self.clamp_cursor();
        self.last_change = Some(LastChange::DeleteLine);
    }

    fn delete_word_at_cursor(&mut self)
        requires
            old(self)@.wf(),
            old(self)@.anchor is None,
        ensures
            final(self)@.wf(),
            final(self)@ == old(self)@.delete_word(),
    {
        self.push_undo();
        let row = self.cursor.0;
        let col = self.cursor.1;
        let chars = self.line_chars(row);
        let len = chars.len();
        if col >= len {
            self.last_change = Some(LastChange::DeleteWord);
            return;
        }
        let e1 = if !is_whitespace(chars[col]) {
            skip_nonws_exec(chars.as_slice(), col)
        } else {
            col
        };
        let end = skip_ws_exec(chars.as_slice(), e1);
        let mut nl = slice_chars(chars.as_slice(), 0, col);
        let tail = slice_chars(chars.as_slice(), end, len);
        extend_chars(&mut nl, tail.as_slice());
        self.set_line(row, nl.as_slice());
        self.clamp_cursor();
        self.last_change = Some(LastChange::DeleteWord);
    }

    fn delete_to_end_of_line(&mut self)
        requires
            old(self)@.wf(),
            old(self)@.anchor is None,
        ensures
            final(self)@.wf(),
            final(self)@ == old(self)@.delete_to_end(),
    {
        self.push_undo();
        let row = self.cursor.0;
        let col = self.cursor.1;
        let chars = self.line_chars(row);
        if col < chars.len() {
            let nl = slice_chars(chars.as_slice(), 0, col);
            self.set_line(row, nl.as_slice());
        }
        self.clamp_cursor();
        self.last_change = Some(LastChange::DeleteToEndOfLine);
    }

    fn yank_current_line(&mut self)
        requires
            old(self)@.wf(),
        ensures
            final(self)@.wf(),
            final(self)@ == old(self)@.yank_line(),
    {
        let row = self.cursor.0;
        self.yank_buffer = Some(self.lines[row].clone());
        self.last_change = Some(LastChange::YankLine);
    }

    fn paste_after(&mut self)
        requires
            old(self)@.wf(),
            old(self)@.anchor is None,
        ensures
            final(self)@.wf(),
            final(self)@ == old(self)@.paste_after(),
    {
        self.push_undo();
        match &self.yank_buffer {
            Some(text) => {
                let v = str_chars(text.as_str());
                let row = self.cursor.0;
                let n = self.lines.len();
                assert(row < n);
                self.insert_line(row + 1, v.as_slice());
                self.cursor.0 = row + 1;
                self.clamp_cursor();
            },
            None => {},
        }
        self.last_change = Some(LastChange::PasteAfter);
    }

    fn paste_before(&mut self)
        requires
            old(self)@.wf(),
            old(self)@.anchor is None,
        ensures
            final(self)@.wf(),
            final(self)@ == old(self)@.paste_before(),
    {
        self.push_undo();
        match &self.yank_buffer {
            Some(text) => {
                let v = str_chars(text.as_str());
                let row = self.cursor.0;
                self.insert_line(row, v.as_slice());
                self.clamp_cursor();
            },
            None => {},
        }
        self.last_change = Some(LastChange::PasteBefore);
    }

    fn undo(&mut self)
        requires
            old(self)@.wf(),
            old(self)@.anchor is None,
        ensures
            final(self)@.wf(),
            final(self)@ == old(self)@.undo_op(),
    {
        let ghost old_undo = self.undo_stack@;
        match self.undo_stack.pop() {
            Some(snap) => {
                assert(self.undo_stack@.map_values(|s: EditorSnapshot| s.snap()) =~= old_undo.map_values(
                    |s: EditorSnapshot| s.snap(),
                ).drop_last());
                assert(old_undo.map_values(|s: EditorSnapshot| s.snap()).last() == snap.snap());
                assert(old(self)@.undo[old(self)@.undo.len() - 1].lines.len() >= 1);
                self.lines = snap.lines;
                self.cursor = snap.cursor;
                self.clamp_cursor();
            },
            None => {},
        }
    }
}


pub open spec fn opt_sel_v(o: Option<((usize, usize), (usize, usize))>) -> Option<((int, int), (int, int))> {
    match o {
        Some(p) => Some((pos_v(p.0), pos_v(p.1))),
        None => None,
    }
}

pub open spec fn opt_pair_v(o: Option<(usize, usize)>) -> Option<(int, int)> {
    opt_pos_v(o)
}

impl Editor {
    /// The selection between anchor and cursor, in reading order (`None`
    /// outside Visual mode).
    pub fn visual_selection(&self) -> (r: Option<((usize, usize), (usize, usize))>)
        ensures
            opt_sel_v(r) == self@.selection(),
    {
        match self.visual_anchor {
            None => None,
            Some(a) => {
                let c = self.cursor;
                if a.0 < c.0 || (a.0 == c.0 && a.1 <= c.1) {
                    Some((a, c))
                } else {
                    Some((c, a))
                }
            },
        }
    }

    fn delete_visual_selection(&mut self)
        requires
            old(self)@.wf(),
        ensures
            final(self)@.wf(),
            final(self)@ == old(self)@.delete_selection(),
    {
        match self.visual_selection() {
            None => {},
            Some((start, end)) => {
                self.push_undo();
                if start.0 == end.0 {
                    let line = self.line_chars(start.0);
                    let len = line.len();
                    let e = if end.1 < len {
                        end.1 + 1
                    } else {
                        len
                    };
                    let mut nl = slice_chars(line.as_slice(), 0, start.1);
                    let tail = slice_chars(line.as_slice(), e, len);
                    extend_chars(&mut nl, tail.as_slice());
                    self.set_line(start.0, nl.as_slice());
                } else {
                    let n = self.lines.len();
                    let from = if end.0 + 1 < n {
                        end.0 + 1
                    } else {
                        n
                    };
                    let ghost ls = self@.lines;
                    let mut out: Vec<String> = Vec::new();
                    let mut i: usize = 0;
                    while i < start.0
                        invariant
                            i <= start.0 < n,
                            n == self.lines@.len(),
                            ls == lines_view(self.lines@),
                            lines_view(out@) == ls.subrange(0, i as int),
                        decreases start.0 - i,
                    {
                        let ghost before = out@;
                        out.push(self.lines[i].clone());
                        assert(lines_view(out@) =~= lines_view(before).push(ls[i as int]));
                        assert(ls.subrange(0, i + 1) =~= ls.subrange(0, i as int).push(ls[i as int]));
                        i = i + 1;
                    }
                    let mut j: usize = from;
                    while j < n
                        invariant
                            from <= j <= n,
                            n == self.lines@.len(),
                            ls == lines_view(self.lines@),
                            lines_view(out@) == ls.subrange(0, start.0 as int) + ls.subrange(
                                from as int,
                                j as int,
                            ),
                        decreases n - j,
                    {
                        let ghost before = out@;
                        out.push(self.lines[j].clone());
                        assert(lines_view(out@) =~= lines_view(before).push(ls[j as int]));
                        assert(ls.subrange(from as int, j + 1) =~= ls.subrange(from as int, j as int).push(
                            ls[j as int],
                        ));
                        j = j + 1;
                    }
                    self.lines = out;
                    if self.lines.len() == 0 {
                        self.push_empty_line();
                        assert(self@.lines =~= seq![Seq::<char>::empty()]);
                    }
                }
                self.cursor = start;
                self.clamp_cursor();
                self.visual_anchor = None;
                self.mode = Mode::Normal;
                self.last_change = Some(LastChange::DeleteVisualSelection { start, end });
            },
        }
    }

    fn yank_visual_selection(&mut self)
        requires
            old(self)@.wf(),
        ensures
            final(self)@.wf(),
            final(self)@ == old(self)@.yank_selection(),
    {
        match self.visual_selection() {
            None => {},
            Some((start, end)) => {
                let y = if start.0 == end.0 {
                    let line = self.line_chars(start.0);
                    let len = line.len();
                    let e = if end.1 < len {
                        end.1 + 1
                    } else {
                        len
                    };
                    slice_chars(line.as_slice(), start.1, e)
                } else {
                    let ghost ls = self@.lines;
                    let mut acc = self.line_chars(start.0);
                    assert(ls.subrange(start.0 as int, start.0 + 1) =~= seq![ls[start.0 as int]]);
                    let mut r = start.0 + 1;
                    let n = self.lines.len();
                    while r <= end.0
                        invariant
                            n == self.lines@.len(),
                            start.0 < r <= end.0 + 1,
                            end.0 < self.lines@.len(),
                            ls == lines_view(self.lines@),
                            acc@ == join_lines(ls.subrange(start.0 as int, r as int)),
                        decreases end.0 + 1 - r,
                    {
                        let ghost prev = ls.subrange(start.0 as int, r as int);
                        acc.push('\n');
                        let line = self.line_chars(r);
                        extend_chars(&mut acc, line.as_slice());
                        assert(ls.subrange(start.0 as int, r + 1).drop_last() =~= prev);
                        r = r + 1;
                    }
                    acc
                };
                self.yank_buffer = Some(string_of(y.as_slice()));
                self.cursor = start;
                self.visual_anchor = None;
                self.mode = Mode::Normal;
                self.last_change = Some(LastChange::YankVisualSelection { start, end });
            },
        }
    }

    // ── Search ──────────────────────────────────────────────────────────────

    fn first_match_in_rows(&self, pat: &[char], r: usize) -> (p: Option<(usize, usize)>)
        requires
            r <= self.lines@.len(),
        ensures
            opt_pair_v(p) == self@.first_match_in_rows(pat@, r as int),
            p matches Some(q) ==> q.0 < self.lines@.len() && q.1 <= self@.lines[q.0 as int].len(),
        decreases self.lines@.len() - r,
    {
        if r >= self.lines.len() {
            None
        } else {
            let line = self.line_chars(r);
            match find_from_exec(line.as_slice(), pat, 0) {
                Some(c) => Some((r, c)),
                None => self.first_match_in_rows(pat, r + 1),
            }
        }
    }

    fn first_match_before(&self, pat: &[char], r: usize, row: usize, col: usize) -> (p: Option<
        (usize, usize),
    >)
        requires
            row < self.lines@.len(),
        ensures
            opt_pair_v(p) == self@.first_match_before(pat@, r as int, row as int, col as int),
            p matches Some(q) ==> q.0 < self.lines@.len() && q.1 <= self@.lines[q.0 as int].len(),
        decreases row + 1 - r,
    {
        if r > row {
            None
        } else {
            let line = self.line_chars(r);
            match find_from_exec(line.as_slice(), pat, 0) {
                Some(c) => if r == row && c >= col {
                    assert(self@.first_match_before(pat@, r + 1, row as int, col as int) is None);
                    None
                } else {
                    Some((r, c))
                },
                None => if r == row {
                    assert(self@.first_match_before(pat@, r + 1, row as int, col as int) is None);
                    None
                } else {
                    self.first_match_before(pat, r + 1, row, col)
                },
            }
        }
    }

    fn last_match_in_rows(&self, pat: &[char], hi: usize, lo: usize) -> (p: Option<(usize, usize)>)
        requires
            hi < self.lines@.len(),
        ensures
            opt_pair_v(p) == self@.last_match_in_rows(pat@, hi as int, lo as int),
            p matches Some(q) ==> q.0 < self.lines@.len() && q.1 <= self@.lines[q.0 as int].len(),
        decreases hi,
    {
        if hi < lo {
            None
        } else {
            let line = self.line_chars(hi);
            match find_backward_exec(line.as_slice(), pat, line.len()) {
                Some(c) => {
                    assert(c <= self@.lines[hi as int].len());
                    Some((hi, c))
                },
                None => if hi == 0 {
                    assert(self@.last_match_in_rows(pat@, -1, lo as int) is None);
                    None
                } else {
                    self.last_match_in_rows(pat, hi - 1, lo)
                },
            }
        }
    }

    fn next_match_pos(&self, pat: &[char], forward: bool) -> (p: Option<(usize, usize)>)
        requires
            self@.wf(),
        ensures
            opt_pair_v(p) == self@.next_match_pos(pat@, forward),
            p matches Some(q) ==> q.0 < self.lines@.len() && q.1 <= self@.lines[q.0 as int].len(),
    {
        let row = self.cursor.0;
        let col = self.cursor.1;
        let n = self.lines.len();
        let line = self.line_chars(row);
        if forward {
            let here = if col < line.len() {
                find_from_exec(line.as_slice(), pat, col + 1)
            } else {
                assert(find_from(line@, pat@, col + 1) is None);
                None
            };
            match here {
                Some(c) => Some((row, c)),
                None => {
                    let a = if row + 1 <= n {
                        self.first_match_in_rows(pat, row + 1)
                    } else {
                        None
                    };
                    match a {
                        Some(p) => Some(p),
                        None => self.first_match_before(pat, 0, row, col),
                    }
                },
            }
        } else {
            let here = if col > 0 {
                find_backward_exec(line.as_slice(), pat, col - 1)
            } else {
                None
            };
            match here {
                Some(c) => Some((row, c)),
                None => {
                    let a = if row > 0 {
                        self.last_match_in_rows(pat, row - 1, 0)
                    } else {
                        assert(self@.last_match_in_rows(pat@, -1, 0) is None);
                        None
                    };
                    match a {
                        Some(p) => Some(p),
                        None => self.last_match_in_rows(pat, n - 1, row),
                    }
                },
            }
        }
    }

    fn find_next_match(&mut self, forward: bool)
        requires
            old(self)@.wf(),
        ensures
            final(self)@.wf(),
            final(self)@ == old(self)@.find_next(forward),
    {
        let pat = match &self.search_pattern {
            Some(p) => str_chars(p.as_str()),
            None => return,
        };
        if pat.len() == 0 {
            return;
        }
        match self.next_match_pos(pat.as_slice(), forward) {
            Some(pos) => {
                self.cursor = pos;
            },
            None => {},
        }
    }

    fn execute_search(&mut self, pattern: &[char])
        requires
            old(self)@.wf(),
        ensures
            final(self)@.wf(),
            final(self)@ == old(self)@.run_search(pattern@),
    {
        if pattern.len() == 0 {
            return;
        }
        self.search_pattern = Some(string_of(pattern));
        self.find_next_match(true);
    }

    // ── Commands ────────────────────────────────────────────────────────────

    fn execute_substitute(&mut self, find: &[char], replace: &[char])
        requires
            old(self)@.wf(),
            old(self)@.anchor is None,
        ensures
            final(self)@.wf(),
            final(self)@ == old(self)@.substitute(find@, replace@),
    {
        let row = self.cursor.0;
        let line = self.line_chars(row);
        match find_from_exec(line.as_slice(), find, 0) {
            None => {},
            Some(pos) => {
                self.push_undo();
                let mut nl = slice_chars(line.as_slice(), 0, pos);
                extend_chars(&mut nl, replace);
                let ll = line.len();
                assert(pos + find@.len() <= ll);
                let tail = slice_chars(line.as_slice(), pos + find.len(), ll);
                extend_chars(&mut nl, tail.as_slice());
                self.set_line(row, nl.as_slice());
                self.cursor.1 = pos;
                self.clamp_cursor();
                self.last_change = Some(
                    LastChange::Substitute { find: string_of(find), replace: string_of(replace) },
                );
            },
        }
    }

    fn execute_command_chars(&mut self, cmd: &[char]) -> (r: CommandResult)
        requires
            old(self)@.wf(),
        ensures
            old(self)@.anchor is None ==> final(self)@.wf(),
            (final(self)@, r) == old(self)@.command(cmd@),
    {
        let c = trim_chars(cmd);
        let ghost cs = c@;
        let is_w = c.len() == 1 && c[0] == 'w';
        let is_q = (c.len() == 1 && c[0] == 'q') || (c.len() == 2 && c[0] == 'q' && c[1] == '!');
        let is_wq = c.len() == 2 && c[0] == 'w' && c[1] == 'q';
        proof {
            assert(is_w == (cs == seq!['w'])) by {
                if cs == seq!['w'] {
                    assert(cs.len() == 1 && cs[0] == 'w');
                }
                if is_w {
                    assert(cs =~= seq!['w']);
                }
            }
            assert(is_q == (cs == seq!['q'] || cs == seq!['q', '!'])) by {
                if cs == seq!['q'] {
                    assert(cs.len() == 1 && cs[0] == 'q');
                }
                if cs == seq!['q', '!'] {
                    assert(cs.len() == 2 && cs[0] == 'q' && cs[1] == '!');
                }
                if c@.len() == 1 && c@[0] == 'q' {
                    assert(cs =~= seq!['q']);
                }
                if c@.len() == 2 && c@[0] == 'q' && c@[1] == '!' {
                    assert(cs =~= seq!['q', '!']);
                }
            }
            assert(is_wq == (cs == seq!['w', 'q'])) by {
                if cs == seq!['w', 'q'] {
                    assert(cs.len() == 2 && cs[0] == 'w' && cs[1] == 'q');
                }
                if is_wq {
                    assert(cs =~= seq!['w', 'q']);
                }
            }
        }
        if is_w {
            return CommandResult::Save;
        }
        if is_q {
            return CommandResult::Quit;
        }
        if is_wq {
            return CommandResult::SaveAndQuit;
        }
        if c.len() >= 2 && c[0] == 's' && c[1] == '/' {
            let rest = slice_chars(c.as_slice(), 2, c.len());
            match index_of_exec(rest.as_slice(), '/', 0) {
                Some(i) => {
                    let find = slice_chars(rest.as_slice(), 0, i);
                    let after = slice_chars(rest.as_slice(), i + 1, rest.len());
                    let replace = match index_of_exec(after.as_slice(), '/', 0) {
                        Some(j) => slice_chars(after.as_slice(), 0, j),
                        None => after,
                    };
                    let ghost s0 = self@;
                    let saved = self.visual_anchor;
                    self.visual_anchor = None;
                    let ghost s1 = self@;
                    assert(s1 == EdState { anchor: None, ..s0 });
                    self.execute_substitute(find.as_slice(), replace.as_slice());
                    let ghost s2 = self@;
                    self.visual_anchor = saved;
                    proof {
                        assert(s2 == s1.substitute(find@, replace@));
                        assert(self@ == EdState { anchor: s0.anchor, ..s2 });
                        assert(self@ == s0.substitute(find@, replace@));
                    }
                    return CommandResult::Nothing;
                },
                None => {},
            }
        }
        let mut msg = String::from_str("Comando desconhecido: :");
        let tail = string_of(c.as_slice());
        msg.append(tail.as_str());
        let ghost before = self@;
        self.error = Some(msg);
        assert(self@ == EdState { error: Some(msg@), ..before });
        CommandResult::Nothing
    }

    /// Executes a command typed after `:` and reports what it asks for
    /// (`:w` save, `:q` quit, `:wq` both); `:s/find/replace/` substitutes the
    /// first match on the cursor's line.
    pub fn execute_command(&mut self, cmd: &str) -> (r: CommandResult)
        requires
            old(self).wf(),
        ensures
            old(self)@.anchor is None ==> final(self).wf(),
            (final(self)@, r) == old(self)@.command(cmd@),
    {
        let c = str_chars(cmd);
        self.execute_command_chars(c.as_slice())
    }
}


impl Editor {
    // ── Insert mode ─────────────────────────────────────────────────────────

    fn enter_insert_mode_for(&mut self, entry: InsertEntry)
        requires
            old(self)@.wf(),
            old(self)@.anchor is None,
        ensures
            final(self)@.wf(),
            final(self)@.anchor is None,
            final(self)@ == old(self)@.enter_insert(entry),
    {
        let row = self.cursor.0;
        self.insert_text = String::new();
        self.insert_entry = Some(entry);
        match entry {
            InsertEntry::LittleI => {},
            InsertEntry::BigI => {
                self.move_first_nonblank();
            },
            InsertEntry::LittleA => {
                let len = self.lines[row].unicode_len();
                if self.cursor.1 < len {
                    self.cursor.1 = self.cursor.1 + 1;
                }
            },
            InsertEntry::BigA => {
                self.cursor.1 = self.lines[row].unicode_len();
            },
            InsertEntry::LittleO => {
                let empty: Vec<char> = Vec::new();
                let n = self.lines.len();
                assert(row < n);
                self.insert_line(row + 1, empty.as_slice());
                self.cursor = (row + 1, 0);
            },
            InsertEntry::BigO => {
                let empty: Vec<char> = Vec::new();
                self.insert_line(row, empty.as_slice());
                self.cursor.1 = 0;
            },
        }
        self.mode = Mode::Insert;
    }

    fn insert_char(&mut self, ch: char)
        requires
            old(self)@.wf(),
            old(self)@.anchor is None,
        ensures
            final(self)@.wf(),
            final(self)@.anchor is None,
            final(self)@.mode == old(self)@.mode,
            final(self)@ == old(self)@.insert_char(ch),
    {
        let row = self.cursor.0;
        let line = self.line_chars(row);
        let len = line.len();
        let col = if self.cursor.1 < len {
            self.cursor.1
        } else {
            len
        };
        if ch == '\n' {
            let head = slice_chars(line.as_slice(), 0, col);
            let rest = slice_chars(line.as_slice(), col, len);
            self.set_line(row, head.as_slice());
            let n = self.lines.len();
            assert(row < n);
            self.insert_line(row + 1, rest.as_slice());
            self.cursor = (row + 1, 0);
        } else {
            let mut nl = line;
            nl.insert(col, ch);
            let nlen = nl.len();
            assert(col < nlen);
            self.set_line(row, nl.as_slice());
            self.cursor.1 = col + 1;
        }
        crate::text::push_char(&mut self.insert_text, ch);
    }

    fn backspace_insert(&mut self)
        requires
            old(self)@.wf(),
            old(self)@.anchor is None,
        ensures
            final(self)@.wf(),
            final(self)@.anchor is None,
            final(self)@ == old(self)@.backspace(),
    {
        let row = self.cursor.0;
        let col = self.cursor.1;
        if col > 0 {
            let mut line = self.line_chars(row);
            line.remove(col - 1);
            self.set_line(row, line.as_slice());
            self.cursor.1 = col - 1;
            let t = str_chars(self.insert_text.as_str());
            if t.len() > 0 {
                let shorter = slice_chars(t.as_slice(), 0, t.len() - 1);
                self.insert_text = string_of(shorter.as_slice());
                assert(shorter@ =~= t@.drop_last());
            }
        } else if row > 0 {
            let cur = self.remove_line(row);
            assert(self.lines@.len() == self@.lines.len());
            let mut prev = self.line_chars(row - 1);
            let prev_len = prev.len();
            extend_chars(&mut prev, cur.as_slice());
            self.set_line(row - 1, prev.as_slice());
            self.cursor = (row - 1, prev_len);
        }
    }

    fn exit_insert_mode(&mut self)
        requires
            old(self)@.wf(),
            old(self)@.anchor is None,
        ensures
            final(self)@.wf(),
            final(self)@.anchor is None,
            final(self)@ == old(self)@.exit_insert(),
    {
        let entry = match self.insert_entry {
            Some(e) => e,
            None => InsertEntry::LittleI,
        };
        if self.insert_text.as_str().unicode_len() > 0 {
            self.last_change = Some(
                LastChange::InsertText { text: self.insert_text.clone(), mode_entry: entry },
            );
        }
        self.mode = Mode::Normal;
        let row = self.cursor.0;
        let len = self.lines[row].unicode_len();
        let max = if len > 0 {
            len - 1
        } else {
            0
        };
        if self.cursor.1 > max {
            self.cursor.1 = max;
        }
        self.insert_text = String::new();
        self.insert_entry = None;
    }

    // ── Repeat (.) ──────────────────────────────────────────────────────────

    fn repeat_last_change(&mut self)
        requires
            old(self)@.wf(),
            old(self)@.anchor is None,
        ensures
            final(self)@.wf(),
            final(self)@.anchor is None,
            final(self)@ == old(self)@.repeat(),
    {
        let change = match &self.last_change {
            Some(c) => c.clone(),
            None => return,
        };
        match change {
            LastChange::DeleteChar => self.delete_char_at_cursor(),
            LastChange::DeleteLine => self.delete_current_line(),
            LastChange::DeleteWord => self.delete_word_at_cursor(),
            LastChange::DeleteToEndOfLine => self.delete_to_end_of_line(),
            LastChange::YankLine => self.yank_current_line(),
            LastChange::PasteAfter => self.paste_after(),
            LastChange::PasteBefore => self.paste_before(),
            LastChange::Substitute { find, replace } => {
                let f = str_chars(find.as_str());
                let r = str_chars(replace.as_str());
                self.execute_substitute(f.as_slice(), r.as_slice());
            },
            LastChange::InsertText { text, mode_entry } => {
                self.push_undo();
                self.enter_insert_mode_for(mode_entry);
                let t = str_chars(text.as_str());
                let ghost start = self@;
                assert(t@.subrange(0, t@.len() as int) =~= t@);
                let mut k: usize = 0;
                while k < t.len()
                    invariant
                        k <= t@.len(),
                        self@.wf(),
                        self@.anchor is None,
                        start.insert_all(t@) == self@.insert_all(t@.subrange(k as int, t@.len() as int)),
                    decreases t@.len() - k,
                {
                    let ghost before = self@;
                    self.insert_char(t[k]);
                    assert(t@.subrange(k as int, t@.len() as int).drop_first() =~= t@.subrange(
                        k + 1,
                        t@.len() as int,
                    ));
                    k = k + 1;
                }
                assert(t@.subrange(k as int, t@.len() as int) =~= Seq::<char>::empty());
                assert(t@.subrange(0, t@.len() as int) =~= t@);
                self.exit_insert_mode();
            },
            LastChange::DeleteVisualSelection { .. } | LastChange::YankVisualSelection { .. } => {},
        }
    }
}


impl Editor {
    // ── Key dispatch ────────────────────────────────────────────────────────

    fn handle_pending_op(&mut self, op: char, key: &str)
        requires
            old(self)@.wf(),
            old(self)@.anchor is None,
        ensures
            final(self)@.wf(),
            final(self)@.anchor is None,
            final(self)@ == old(self)@.pending_key(op, key@),
    {
        self.pending_op = None;
        if op == 'd' && str_eq(key, "w") {
            self.delete_word_at_cursor();
        } else if op == 'd' && str_eq(key, "$") {
            self.delete_to_end_of_line();
        } else if op == 'd' && str_eq(key, "d") {
            self.delete_current_line();
        } else if op == 'd' && str_eq(key, "j") {
            self.push_undo();
            let row = self.cursor.0;
            let _ = self.remove_line(row);
            if row < self.lines.len() {
                let _ = self.remove_line(row);
            }
            if self.lines.len() == 0 {
                self.push_empty_line();
            }
            let last = self.lines.len() - 1;
            self.cursor.0 = if row < last {
                row
            } else {
                last
            };
            self.clamp_cursor();
        } else if op == 'd' && str_eq(key, "G") {
            self.push_undo();
            let row = self.cursor.0;
            self.truncate_lines(row);
            if self.lines.len() == 0 {
                self.push_empty_line();
            }
            self.cursor.0 = self.lines.len() - 1;
            self.clamp_cursor();
        } else if op == 'y' && str_eq(key, "y") {
            self.yank_current_line();
        } else if op == 'y' && str_eq(key, "w") {
            let row = self.cursor.0;
            let col = self.cursor.1;
            let chars = self.line_chars(row);
            let end = skip_nonws_exec(chars.as_slice(), col);
            let w = slice_chars(chars.as_slice(), col, end);
            self.yank_buffer = Some(string_of(w.as_slice()));
        } else {
            let mut msg = String::from_str("Operação desconhecida: ");
            crate::text::push_char(&mut msg, op);
            msg.append(key);
            let ghost before = self@;
            self.error = Some(msg);
            assert(msg@ =~= unknown_op_message(op, key@));
            assert(self@ == EdState { error: Some(msg@), ..before });
        }
    }

    fn handle_normal(&mut self, key: &str)
        requires
            old(self)@.wf(),
            old(self)@.mode is Normal,
        ensures
            final(self)@.wf(),
            final(self)@ == old(self)@.normal_key(key@),
    {
        if let Some(op) = self.pending_op {
            self.handle_pending_op(op, key);
            return;
        }
        if str_eq(key, "h") {
            self.move_left();
        } else if str_eq(key, "j") {
            self.move_down();
        } else if str_eq(key, "k") {
            self.move_up();
        } else if str_eq(key, "l") {
            self.move_right();
        } else if str_eq(key, "w") {
            self.move_word_forward();
        } else if str_eq(key, "b") {
            self.move_word_backward();
        } else if str_eq(key, "e") {
            self.move_word_end();
        } else if str_eq(key, "0") {
            self.cursor.1 = 0;
        } else if str_eq(key, "$") {
            self.move_col_end();
        } else if str_eq(key, "^") {
            self.move_first_nonblank();
        } else if str_eq(key, "g") {
            // A lone `g` waits for nothing: `gg` arrives as one key.
        } else if str_eq(key, "gg") {
            self.move_gg();
        } else if str_eq(key, "G") {
            self.move_big_g();
        } else if str_eq(key, "x") {
            self.delete_char_at_cursor();
        } else if str_eq(key, "d") {
            self.pending_op = Some('d');
        } else if str_eq(key, "y") {
            self.pending_op = Some('y');
        } else if str_eq(key, "dd") {
            self.delete_current_line();
        } else if str_eq(key, "yy") {
            self.yank_current_line();
        } else if str_eq(key, "p") {
            self.paste_after();
        } else if str_eq(key, "P") {
            self.paste_before();
        } else if str_eq(key, "u") {
            self.undo();
        } else if str_eq(key, ".") {
            self.repeat_last_change();
        } else if str_eq(key, "/") {
            self.mode = Mode::Search(String::new());
        } else if str_eq(key, "n") {
            self.find_next_match(true);
        } else if str_eq(key, "N") {
            self.find_next_match(false);
        } else if str_eq(key, "i") {
            self.push_undo();
            self.enter_insert_mode_for(InsertEntry::LittleI);
        } else if str_eq(key, "I") {
            self.push_undo();
            self.enter_insert_mode_for(InsertEntry::BigI);
        } else if str_eq(key, "a") {
            self.push_undo();
            self.enter_insert_mode_for(InsertEntry::LittleA);
        } else if str_eq(key, "A") {
            self.push_undo();
            self.enter_insert_mode_for(InsertEntry::BigA);
        } else if str_eq(key, "o") {
            self.push_undo();
            self.enter_insert_mode_for(InsertEntry::LittleO);
        } else if str_eq(key, "O") {
            self.push_undo();
            self.enter_insert_mode_for(InsertEntry::BigO);
        } else if str_eq(key, "v") {
            self.visual_anchor = Some(self.cursor);
            self.mode = Mode::Visual;
        } else if str_eq(key, "V") {
            let row = self.cursor.0;
            self.visual_anchor = Some((row, 0));
            let len = self.lines[row].unicode_len();
            self.cursor.1 = if len > 0 {
                len - 1
            } else {
                0
            };
            self.mode = Mode::Visual;
        } else if str_eq(key, ":") {
            self.mode = Mode::Command(String::new());
        } else if str_eq(key, "Esc") {
            self.pending_op = None;
            self.status_line = String::new();
        }
    }

    fn handle_insert(&mut self, key: &str)
        requires
            old(self)@.wf(),
            old(self)@.mode is Insert,
        ensures
            final(self)@.wf(),
            final(self)@ == old(self)@.insert_key(key@),
    {
        if str_eq(key, "Esc") {
            self.exit_insert_mode();
        } else if str_eq(key, "Backspace") {
            self.backspace_insert();
        } else if str_eq(key, "Enter") {
            self.insert_char('\n');
        } else {
            let k = str_chars(key);
            if k.len() == 1 && (k[0] as u32) < 128 {
                self.insert_char(k[0]);
            }
        }
    }

    fn handle_visual(&mut self, key: &str)
        requires
            old(self)@.wf(),
            old(self)@.mode is Visual,
        ensures
            final(self)@.wf(),
            final(self)@ == old(self)@.visual_key(key@),
    {
        if str_eq(key, "h") {
            self.move_left();
        } else if str_eq(key, "j") {
            self.move_down();
        } else if str_eq(key, "k") {
            self.move_up();
        } else if str_eq(key, "l") {
            self.move_right();
        } else if str_eq(key, "d") {
            self.delete_visual_selection();
        } else if str_eq(key, "y") {
            self.yank_visual_selection();
        } else if str_eq(key, "Esc") {
            self.visual_anchor = None;
            self.mode = Mode::Normal;
        }
    }

    fn handle_command_input(&mut self, key: &str, acc: &[char]) -> (r: CommandResult)
        requires
            old(self)@.wf(),
            old(self)@.mode == ModeV::Command(acc@),
        ensures
            final(self)@.wf(),
            (final(self)@, r) == old(self)@.command_key(key@, acc@),
    {
        let ghost before = self@;
        if str_eq(key, "Esc") {
            self.mode = Mode::Normal;
            self.status_line = String::new();
            assert(self@ == EdState { status: Seq::empty(), ..before.with_mode(ModeV::Normal) });
            CommandResult::Nothing
        } else if str_eq(key, "Enter") {
            self.mode = Mode::Normal;
            self.status_line = String::new();
            assert(self@ == EdState { status: Seq::empty(), ..before.with_mode(ModeV::Normal) });
            self.execute_command_chars(acc)
        } else if str_eq(key, "Backspace") {
            let na = if acc.len() > 0 {
                slice_chars(acc, 0, acc.len() - 1)
            } else {
                slice_chars(acc, 0, 0)
            };
            assert(acc@.len() > 0 ==> na@ =~= acc@.drop_last());
            assert(acc@.len() == 0 ==> na@ =~= acc@);
            self.mode = Mode::Command(string_of(na.as_slice()));
            let mut st = String::from_str(":");
            st.append(string_of(na.as_slice()).as_str());
            self.status_line = st;
            proof {
                reveal_strlit(":");
            }
            CommandResult::Nothing
        } else {
            let k = str_chars(key);
            if k.len() == 1 && (k[0] as u32) < 128 {
                let mut na = slice_chars(acc, 0, acc.len());
                na.push(k[0]);
                assert(na@ =~= acc@ + key@);
                self.mode = Mode::Command(string_of(na.as_slice()));
                let mut st = String::from_str(":");
                st.append(string_of(na.as_slice()).as_str());
                self.status_line = st;
                proof {
                    reveal_strlit(":");
                }
            }
            CommandResult::Nothing
        }
    }

    fn handle_search_input(&mut self, key: &str, acc: &[char])
        requires
            old(self)@.wf(),
            old(self)@.mode == ModeV::Search(acc@),
        ensures
            final(self)@.wf(),
            final(self)@ == old(self)@.search_key(key@, acc@),
    {
        let ghost before = self@;
        if str_eq(key, "Esc") {
            self.mode = Mode::Normal;
            self.status_line = String::new();
            assert(self@ == EdState { status: Seq::empty(), ..before.with_mode(ModeV::Normal) });
        } else if str_eq(key, "Enter") {
            self.mode = Mode::Normal;
            self.status_line = String::new();
            assert(self@ == EdState { status: Seq::empty(), ..before.with_mode(ModeV::Normal) });
            self.execute_search(acc);
        } else if str_eq(key, "Backspace") {
            let na = if acc.len() > 0 {
                slice_chars(acc, 0, acc.len() - 1)
            } else {
                slice_chars(acc, 0, 0)
            };
            assert(acc@.len() > 0 ==> na@ =~= acc@.drop_last());
            assert(acc@.len() == 0 ==> na@ =~= acc@);
            self.mode = Mode::Search(string_of(na.as_slice()));
            let mut st = String::from_str("/");
            st.append(string_of(na.as_slice()).as_str());
            self.status_line = st;
            proof {
                reveal_strlit("/");
            }
        } else {
            let k = str_chars(key);
            if k.len() == 1 && (k[0] as u32) < 128 {
                let mut na = slice_chars(acc, 0, acc.len());
                na.push(k[0]);
                assert(na@ =~= acc@ + key@);
                self.mode = Mode::Search(string_of(na.as_slice()));
                let mut st = String::from_str("/");
                st.append(string_of(na.as_slice()).as_str());
                self.status_line = st;
                proof {
                    reveal_strlit("/");
                }
            }
        }
    }

    /// Handles one key press and reports what it asks of the caller.
    pub fn send_key(&mut self, key: &str) -> (r: CommandResult)
        requires
            old(self).wf(),
        ensures
            final(self).wf(),
            (final(self)@, r) == old(self)@.send_key(key@),
    {
        let ghost before = self@;
        self.error = None;
        assert(self@ == EdState { error: None, ..before });
        match &self.mode {
            Mode::Normal => {
                self.handle_normal(key);
                CommandResult::Nothing
            },
            Mode::Insert => {
                self.handle_insert(key);
                CommandResult::Nothing
            },
            Mode::Visual => {
                self.handle_visual(key);
                CommandResult::Nothing
            },
            Mode::Command(a) => {
                let acc = str_chars(a.as_str());
                self.handle_command_input(key, acc.as_slice())
            },
            Mode::Search(a) => {
                let acc = str_chars(a.as_str());
                self.handle_search_input(key, acc.as_slice());
                CommandResult::Nothing
            },
        }
    }
}

} // verus!
