//! The modal-editor universe: a small Vim emulator and its ten levels.
pub mod model;
pub mod editor;
pub mod levels;
pub mod session;

pub use editor::{CommandResult, Editor, Mode};
pub use levels::{all_levels, base_reward, Level};
pub use session::{GameState, VimSession};
