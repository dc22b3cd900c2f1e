//! The state machine and puzzle codec of a word-grouping puzzle game.
//!
//! A puzzle holds four themed groups of four words, one group per [`Color`].
//! [`GameState`] drives one session over a puzzle: card selection, match
//! detection, mistake counting and the win and loss conditions. A puzzle
//! travels between sessions as a short URL-safe code
//! ([`ConnectionPuzzle::encode`], [`ConnectionPuzzle::decode`]).
//!
//! The page around the game is not here; [`ui`] and [`animation`] hold the
//! decisions and data that the page acts on.

pub mod animation;
pub mod board;
pub mod codec;
pub mod color;
pub mod game;
pub mod puzzle;
pub mod selection;
pub mod ui;

pub use board::{Board, Card, CardState, SelectionFailiure};
pub use codec::TranscodingError;
pub use color::{AsColor, Blue, Color, Green, Purple, Yellow};
pub use game::{GameFailiure, GameState, SelectionSuccess};
pub use puzzle::{empty_pair, ConnectionPuzzle, ConnectionSet, PuzzleRef};
pub use selection::{SelectState, Selection, SelectionError};
