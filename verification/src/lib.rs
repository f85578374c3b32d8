//! # Chesshound
//! Chesshound is a library intending to provide "at a glance" analysis of player games along with
//! statistical tools to scrape and analyze large amounts of game data.
//!
//! A game is a sequence of moves in algebraic notation. A [`MoveTree`] files a collection of
//! games under their moves, so that all games that began with a given line are found by walking
//! down the tree one move at a time.
//!
//! The library is verified: each function states what it returns, and the statements are
//! proved. They speak of a move by its notation, of a game by the notations of its moves, and of
//! a tree or a view of it by the games that it holds, each as often as it was given.

/// Types and traits for different representations of chess games.
pub mod game;
/// What holds of the move tree and of moves, whatever the games.
pub mod laws;
/// A structure for organizing games based on their moves.
pub mod move_tree;
/// Type and traits for different representations of chess moves.
pub mod moves;
/// Utilities for parsing games from PGN.
pub mod parsing;
/// What is to be asked of an archive of games, and what is kept of its answers.
pub mod scraping;
/// Functions for getting statistics from sets of games.
pub mod stats;
/// Comparing texts.
pub mod text;

pub use game::Game;
pub use move_tree::MoveTree;
pub use move_tree::MoveTreeView;
pub use moves::AlgebraicMove;
pub use moves::Move;
pub use parsing::GameParser;
