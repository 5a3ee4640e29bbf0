//! A minesweeper engine: the board, the rules that change it, and the
//! state machine that sequences menu, game and exit.
//!
//! Every function in this crate is verified against its contract. The
//! contracts are stated over a mathematical model of the board, a square
//! grid of cells written `Seq<Seq<CellState>>`, which lives in [`grid`].

pub mod gameboard;
pub mod gameboard_controller;
pub mod grid;
pub mod laws;
pub mod mainmenu;
pub mod random;
pub mod state;
