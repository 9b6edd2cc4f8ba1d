//! When a game is drawn by rule.
use vstd::prelude::*;
use super::attacks::{lemma_bits, lemma_nonempty};
use super::generator::drawn_by_rule_spec;
use crate::common::bb::{BB, bb_has, lemma_empty};

verus! {

/// Whether the pieces hold a pawn, a rook or a queen of either side.
pub open spec fn has_mating_force(pieces: Seq<BB>) -> bool {
    pieces[2].0 != 0 || pieces[3].0 != 0 || pieces[8].0 != 0 || pieces[9].0 != 0 || pieces[10].0 != 0
        || pieces[11].0 != 0
}

/// Fifty moves without a capture or a pawn move draw the game, whatever stands on the board.
pub proof fn lemma_clock_draws(move_clock: u8, pieces: Seq<BB>, piece_count: nat)
    requires
        move_clock >= 50,
    ensures
        drawn_by_rule_spec(move_clock, pieces, piece_count),
{
}

/// With no pawn, rook or queen on the board, the two kings alone or with one bishop or
/// knight cannot mate: the game is drawn.
pub proof fn lemma_lone_minor_draws(move_clock: u8, pieces: Seq<BB>, piece_count: nat)
    requires
        !has_mating_force(pieces),
        piece_count <= 3,
    ensures
        drawn_by_rule_spec(move_clock, pieces, piece_count),
{
    lemma_union_empty(pieces);
}

/// With a pawn, a rook or a queen on the board (so at least three pieces), the game is not
/// drawn by material; short of fifty quiet moves it goes on.
pub proof fn lemma_mating_force_plays(move_clock: u8, pieces: Seq<BB>, piece_count: nat)
    requires
        move_clock < 50,
        has_mating_force(pieces),
        piece_count >= 3,
    ensures
        !drawn_by_rule_spec(move_clock, pieces, piece_count),
{
    let (a, b, c, d, e, f) = (pieces[8].0, pieces[2].0, pieces[9].0, pieces[3].0, pieces[10].0, pieces[11].0);
    lemma_bits(a, b);
    lemma_bits(a | b, c);
    lemma_bits(a | b | c, d);
    lemma_bits(a | b | c | d, e);
    lemma_bits(a | b | c | d | e, f);
    lemma_empty();
    let x = if a != 0 { a } else if b != 0 { b } else if c != 0 { c } else if d != 0 { d } else if e != 0 { e } else { f };
    lemma_nonempty(x);
    let s = choose|s: int| 0 <= s < 64 && bb_has(x, s);
    assert(bb_has(a | b | c | d | e | f, s));
}

/// The union of empty sets is empty.
proof fn lemma_union_empty(pieces: Seq<BB>)
    requires
        !has_mating_force(pieces),
    ensures
        pieces[8].0 | pieces[2].0 | pieces[9].0 | pieces[3].0 | pieces[10].0 | pieces[11].0 == 0,
{
    let (a, b, c, d, e, f) = (pieces[8].0, pieces[2].0, pieces[9].0, pieces[3].0, pieces[10].0, pieces[11].0);
    lemma_bits(a, b);
    lemma_bits(a | b, c);
    lemma_bits(a | b | c, d);
    lemma_bits(a | b | c | d, e);
    lemma_bits(a | b | c | d | e, f);
    lemma_empty();
    let u = a | b | c | d | e | f;
    lemma_nonempty(u);
}

} // verus!
