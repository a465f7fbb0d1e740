//! What the core library's games share: the keys a player presses and what
//! a tick asks of its caller.
use vstd::prelude::*;

verus! {

/// A key of the player.
#[derive(Debug, Clone, Copy, PartialEq, Eq, Structural)]
pub enum Input {
    /// No key this tick.
    Idle,
    Up,
    Down,
    Left,
    Right,
    Action,
    Quit,
}

/// What a tick asks of its caller.
#[derive(Debug, Clone, Copy, PartialEq, Eq, Structural)]
pub enum GameAction {
    Continue,
    Quit,
}

} // verus!
