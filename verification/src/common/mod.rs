//! Board representation shared by every other part of the library.
pub mod bb;
pub mod board;
pub mod board_laws;
pub mod extra_state;
pub mod fen;
pub mod fen_laws;
pub mod hash;
pub mod make_laws;
pub mod misc;
pub mod piece;
pub mod square;
pub mod util;
