//! Texas Hold'em for three players (one human, two bots).
pub mod cards;
pub mod hand;
pub mod hand_laws;
pub mod game;
pub mod adapter;
pub mod bot;
pub mod session;
pub mod lobby;
