//! Containers the move generator fills: lists of moves and move counters.
pub mod buffer;
pub mod list;
