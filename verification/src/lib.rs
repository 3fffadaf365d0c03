//! Rules engine for the board game Othello (Reversi): an 8x8 board of
//! optional discs, sandwich-capture move application, and turn
//! orchestration with forced passes and outcome detection.

pub mod board;
pub mod computer;
pub mod disc;
pub mod flip_buffers;
pub mod game;
pub mod player;
