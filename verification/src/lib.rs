//! Conway's Game of Life on a finite rectangular grid, with optional
//! wrap-around edges.
//!
//! A [`Game`] is made from a seed ([`Game::new`]) or from a layout written
//! as text ([`Game::from_specific`]), advances one generation at a time
//! ([`Game::tick`]) and can be read back as rows of cells
//! ([`Game::row_columns`]) or as text ([`Game::render`]).
//!
//! The module [`grid`] holds the mathematical model that the contracts of
//! the other modules speak of.

pub mod cell;
pub mod game;
pub mod grid;
pub mod layout;
pub mod neighbours;
pub mod patterns;
pub mod random;

pub use cell::Cell;
pub use game::{Game, GameView};
pub use layout::InvalidLayout;
