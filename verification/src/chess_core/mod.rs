//! The engine core: its own piece numbering, move encoding, board arrays,
//! move buffers and the line-based UCI commands.
pub mod gen2;
pub mod mov;
pub mod piece;
pub mod uci;
pub mod util;

pub use crate::common::misc::{Direction, Player};
