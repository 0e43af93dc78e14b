//! Rule engine for 8x8 Reversi: move validation, capture, turn control and a
//! learning opponent driven by a table of state-action values.

pub mod board;
pub mod config;
pub mod frame;
pub mod learner;
pub mod session;

pub use crate::board::{Cell, Player};
pub use crate::config::{Othello, TileConfig};
pub use crate::frame::FrameState;
pub use crate::session::State;
