//! A game session: an editor on the current level, progress and score.
use vstd::prelude::*;
use vstd::string::StringExecFns;

use super::editor::{
    clone_lines, lines_view, mode_name, new_state, opt_sel_v, opt_str_v, pos_v, CommandResult,
    Editor,
};
use super::levels::{base_reward, check_level, level, level_hint, level_initial_text, level_success, reward_for};
use super::model::EdState;

verus! {

/// What the player sees after each key.
#[derive(Debug)]
pub struct GameState {
    pub lines: Vec<String>,
    pub cursor: (usize, usize),
    pub mode: String,
    pub selection: Option<((usize, usize), (usize, usize))>,
    pub status_line: String,
    pub hint: Option<String>,
    pub level: usize,
    pub completed_level: Option<usize>,
    pub score: u64,
    pub game_completed: bool,
}

/// A game in progress.
pub struct VimSession {
    pub editor: Editor,
    pub level: usize,
    pub score: u64,
    pub hint_count: usize,
    pub completed_levels: Vec<usize>,
    pub bonus_claimed: bool,
}

/// Model of a session.
pub struct SessionV {
    pub editor: EdState,
    pub level: usize,
    pub score: u64,
    pub hint_count: usize,
    pub completed: Seq<usize>,
    pub bonus: bool,
}

/// Score for finishing a level: the base reward, half again without hints.
pub open spec fn level_reward(n: int, hint_count: int) -> int {
    let base = reward_for(n) as int;
    if hint_count == 0 {
        base + base / 2
    } else {
        base
    }
}

/// Bonus for finishing all ten levels.
pub open spec fn completion_bonus() -> int {
    100
}

/// Whether the key's result finishes the current level.
pub open spec fn finishes_level(s: SessionV, ed: EdState, res: CommandResult) -> bool {
    &&& (res is Save || res is SaveAndQuit)
    &&& 1 <= s.level <= 10
    &&& level_success(s.level as int, ed.lines, ed.cursor)
    &&& !s.completed.contains(s.level)
}

/// The session after a key, the level it completed if any, and whether the
/// game is over.
pub open spec fn session_step(s: SessionV, key: Seq<char>) -> (SessionV, Option<usize>, bool) {
    let (ed1, res) = s.editor.send_key(key);
    let quits = res is Quit || res is SaveAndQuit;
    if finishes_level(s, ed1, res) {
        let lvl = s.level;
        let comp = s.completed.push(lvl);
        let bonus_now = comp.len() == 10 && !s.bonus;
        let score = s.score + level_reward(lvl as int, s.hint_count as int) + if bonus_now {
            completion_bonus()
        } else {
            0
        };
        let s2 = if lvl < 10 {
            SessionV {
                editor: new_state(level_initial_text(lvl + 1), (0, 0)),
                level: (lvl + 1) as usize,
                score: score as u64,
                hint_count: 0,
                completed: comp,
                bonus: s.bonus || bonus_now,
            }
        } else {
            SessionV {
                editor: ed1,
                level: lvl,
                score: score as u64,
                hint_count: s.hint_count,
                completed: comp,
                bonus: s.bonus || bonus_now,
            }
        };
        (s2, Some(lvl), bonus_now || lvl >= 10 || quits)
    } else {
        (SessionV { editor: ed1, ..s }, None, quits)
    }
}

/// The game state shown for session `s`.
pub open spec fn shows(g: GameState, s: SessionV, completed_level: Option<usize>, game_completed: bool) -> bool {
    &&& lines_view(g.lines@) == s.editor.lines
    &&& pos_v(g.cursor) == s.editor.cursor
    &&& g.mode@ == mode_name(s.editor.mode)
    &&& opt_sel_v(g.selection) == s.editor.selection()
    &&& g.status_line@ == match s.editor.error {
        Some(e) => e,
        None => s.editor.status,
    }
    &&& opt_str_v(g.hint) == if 1 <= s.level <= 10 {
        Some(level_hint(s.level as int))
    } else {
        None
    }
    &&& g.level == s.level
    &&& g.completed_level == completed_level
    &&& g.score == s.score
    &&& g.game_completed == game_completed
}

impl VimSession {
    pub open spec fn view_session(&self) -> SessionV {
        SessionV {
            editor: self.editor@,
            level: self.level,
            score: self.score,
            hint_count: self.hint_count,
            completed: self.completed_levels@,
            bonus: self.bonus_claimed,
        }
    }

    /// A new session at level 1.
    pub fn new() -> (r: Self)
        ensures
            r.view_session() == (SessionV {
                editor: new_state(level_initial_text(1), (0, 0)),
                level: 1,
                score: 0,
                hint_count: 0,
                completed: Seq::empty(),
                bonus: false,
            }),
            r.editor.wf(),
    {
        let l = level(1);
        VimSession {
            editor: Editor::new(l.initial_text, l.cursor_start),
            level: 1,
            score: 0,
            hint_count: 0,
            completed_levels: Vec::new(),
            bonus_claimed: false,
        }
    }

    /// Sends one key to the editor; a `:w` on a solved level scores it and
    /// moves on to the next one.
    pub fn send_key(&mut self, key: &str) -> (r: GameState)
        requires
            old(self).editor.wf(),
            old(self).score + level_reward(10, 0) + completion_bonus() <= u64::MAX,
        ensures
            final(self).editor.wf(),
            final(self).view_session() == session_step(old(self).view_session(), key@).0,
            shows(
                r,
                final(self).view_session(),
                session_step(old(self).view_session(), key@).1,
                session_step(old(self).view_session(), key@).2,
            ),
    {
        let ghost s0 = self.view_session();
        let result = self.editor.send_key(key);
        let mut completed_level: Option<usize> = None;
        let mut game_completed = false;
        let level_number = self.level;
        proof {
            self.editor.lemma_view();
        }
        if matches!(result, CommandResult::Save | CommandResult::SaveAndQuit) {
            if level_number >= 1 && level_number <= 10 {
                let success = check_level(level_number, self.editor.lines.as_slice(), self.editor.cursor);
                if success && !contains_level(&self.completed_levels, level_number) {
                    completed_level = Some(level_number);
                    self.completed_levels.push(level_number);
                    let mut reward = base_reward(level_number);
                    if self.hint_count == 0 {
                        reward = reward + reward / 2;
                    }
                    self.score = self.score + reward;
                    if self.completed_levels.len() == 10 && !self.bonus_claimed {
                        self.score = self.score + 100;
                        self.bonus_claimed = true;
                        game_completed = true;
                    }
                    if level_number < 10 {
                        self.level = level_number + 1;
                        self.hint_count = 0;
                        let next = level(self.level);
                        self.editor = Editor::new(next.initial_text, next.cursor_start);
                    } else {
                        game_completed = true;
                    }
                }
            }
        }
        if matches!(result, CommandResult::Quit | CommandResult::SaveAndQuit) {
            game_completed = true;
        }
        self.build_state(completed_level, game_completed)
    }

    fn build_state(&self, completed_level: Option<usize>, game_completed: bool) -> (r: GameState)
        requires
            self.editor.wf(),
        ensures
            shows(r, self.view_session(), completed_level, game_completed),
    {
        proof {
            self.editor.lemma_view();
        }
        let selection = self.editor.visual_selection();
        let mode_name = String::from_str(self.editor.mode.name());
        let status = match &self.editor.error {
            Some(err) => err.clone(),
            None => self.editor.status_line.clone(),
        };
        let hint = if self.level >= 1 && self.level <= 10 {
            Some(String::from_str(level(self.level).hint))
        } else {
            None
        };
        GameState {
            lines: clone_lines(&self.editor.lines),
            cursor: self.editor.cursor,
            mode: mode_name,
            selection,
            status_line: status,
            hint,
            level: self.level,
            completed_level,
            score: self.score,
            game_completed,
        }
    }

    /// The current state, without a key.
    pub fn state(&self) -> (r: GameState)
        requires
            self.editor.wf(),
        ensures
            shows(r, self.view_session(), None, false),
    {
        self.build_state(None, false)
    }
}

/// Whether `n` is among the completed levels.
fn contains_level(v: &Vec<usize>, n: usize) -> (r: bool)
    ensures
        r == v@.contains(n),
{
    let mut i: usize = 0;
    while i < v.len()
        invariant
            i <= v@.len(),
            forall|j: int| 0 <= j < i ==> v@[j] != n,
        decreases v@.len() - i,
    {
        if v[i] == n {
            return true;
        }
        i = i + 1;
    }
    false
}

} // verus!
