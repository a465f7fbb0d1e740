//! Yggdrasil: game and text logic of the Yggdrasil universes, verified with Verus.
pub mod text;
pub mod keyed;
pub mod vim;
pub mod comunicacao;
pub mod poker;
pub mod pointset;
pub mod instance;
pub mod sdk;
pub mod invaders;
pub mod tetris;
pub mod snake;
pub mod shandara;
pub mod core_game;
pub mod ygg_invaders;
pub mod ygg_snake;
pub mod ygg_tetris;
