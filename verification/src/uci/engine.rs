use vstd::prelude::*;
use crate::chess_core::mov::Move;

verus! {

/// The move an engine's search settled on, and the reply it expects.
#[derive(Clone, Copy, Debug)]
pub struct SearchResult {
    pub mov: Move,
    pub ponder: Option<Move>,
}

} // verus!
