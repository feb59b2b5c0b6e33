//! A rules engine for English draughts on packed 32-square bitboards.

pub mod bits;
pub mod board;
pub mod cell;
pub mod dir;
pub mod game;
pub mod history;
pub mod mv;
pub mod piece;
pub mod player;
pub mod pos;
pub mod rules;
pub mod session;

pub use crate::board::Board;
pub use crate::cell::{Cell, CellKind};
pub use crate::dir::{Dir, Latent};
pub use crate::game::Game;
pub use crate::history::History;
pub use crate::mv::Move;
pub use crate::piece::{Piece, KING, PONE};
pub use crate::player::Player;
pub use crate::pos::Pos;
pub use crate::session::{Checkers, Mode};
