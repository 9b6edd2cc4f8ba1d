//! A chess library: board representation, move encoding, move generation
//! tables, a compact binary game format and the UCI protocol.
pub mod chess_core;
pub mod common;
pub mod engine_names;
pub mod file;
pub mod move_gen;
pub mod text;
pub mod uci;
