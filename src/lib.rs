//! Rules engine and alpha-beta agent for the board game The Duke.

/// Search agents that pick an action for one side.
pub mod ai;

/// Board, tiles, legal actions and how actions change a game.
pub mod logic;
