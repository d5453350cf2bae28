//! A turn-based grid game engine: generalized tic-tac-toe on an N x N board.
//!
//! The board state machine lives in [`board`]: move validation, the
//! line-scan that classifies the game after every placement, and the
//! board's invariants. [`parser`] turns raw text lines into commands,
//! [`input`] abstracts where those lines come from, and [`game`] runs the
//! turn state machine over an input source.

pub mod board;
pub mod game;
pub mod input;
pub mod parser;
