use vstd::prelude::*;
use super::inline_buffer::{InlineBuffer, MAX_MOVES};
use super::lists::{adds, left_out, lemma_adds_full, lemma_adds_none, lemma_adds_one, lemma_adds_same, lemma_adds_union, lemma_adds_widen, push_move};
use super::attacks::{
    without,
    attackers_of, lemma_mask, lemma_popcount_one, lemma_popcount_zero, lemma_popcount_same, lemma_single, mask, pawn_attack, checked_by, checker_attack, king_square, lemma_lowest, checked_squares, contains, lemma_bits, lemma_nonempty, lowest, piece_on,
};
use super::tables::{
    Tables, add_if, between_has, bishop_attack, diagonal, file_of, king_attack, knight_attack, line_has, orthogonal,
    rank_of, rook_attack,
};
use crate::chess_core::mov::{
    Move, Promotion, move_from, move_to, move_ty, promotion_bits, DOUBLE_MOVE_PAWN, TYPE_CASTLE, TYPE_EN_PASSANT, TYPE_PROMOTION,
};
use crate::common::bb::{BB, bb_has, lemma_disjoint, lemma_empty, lemma_square_bit, popcount};

use crate::common::board::{Board, disjoint_pieces};
use crate::common::misc::{Player, player_index};
use crate::common::piece::{SquareContent, content_index};
use crate::common::square::Square;

verus! {

/// Info about a position used in various move generation functions.
#[derive(Debug, Clone, Copy)]
pub struct PositionInfo {
    pub occupied: BB,
    pub my: BB,
    pub their: BB,
    pub attacked: BB,
    pub blockers: BB,
    pub pinners: BB,
}

/// The squares holding a piece of `side` (0 for white, 1 for black).
pub open spec fn side_union(pieces: Seq<BB>, side: int) -> u64 {
    pieces[side].0 | pieces[10 + side].0 | pieces[8 + side].0 | pieces[4 + side].0 | pieces[6 + side].0 | pieces[2
        + side].0
}

/// Whether a rook on `s` attacks `t` through at most one piece: every occupied square
/// between them is one the rook attacks.
pub open spec fn rook_xray(s: int, t: int, occ: u64) -> bool {
    orthogonal(s, t) && forall|u: int| 0 <= u < 64 && between_has(s, t, u) && bb_has(occ, u) ==> rook_attack(s, u, occ)
}

/// Whether a bishop on `s` attacks `t` through at most one piece: every occupied square
/// between them is one the bishop attacks.
pub open spec fn bishop_xray(s: int, t: int, occ: u64) -> bool {
    diagonal(s, t) && forall|u: int| 0 <= u < 64 && between_has(s, t, u) && bb_has(occ, u) ==> bishop_attack(
        s,
        u,
        occ,
    )
}

/// Whether the piece of `side` on `t` pins a piece to the king of the other side on `k`: a
/// queen or rook that reaches the king on a file or rank, or a queen or bishop that reaches
/// it on a diagonal, through at most one piece.
pub open spec fn pinner(pieces: Seq<BB>, occ: u64, side: int, k: int, t: int) -> bool {
    ||| (bb_has(pieces[10 + side].0, t) || bb_has(pieces[8 + side].0, t)) && rook_xray(k, t, occ)
    ||| (bb_has(pieces[10 + side].0, t) || bb_has(pieces[4 + side].0, t)) && bishop_xray(k, t, occ)
}

/// What a position tells the generator, for the side to move `side`: the occupied squares,
/// those of each side, the squares the other side attacks, the pieces of the other side that
/// pin one of ours to our king, and the pieces in between.
pub open spec fn position_info_spec(pieces: Seq<BB>, side: int, info: PositionInfo) -> bool {
    let opp = 1 - side;
    &&& info.my.0 == side_union(pieces, side)
    &&& info.their.0 == side_union(pieces, opp)
    &&& info.occupied.0 == info.my.0 | info.their.0
    &&& forall|q: int|
        #[trigger] lowest(pieces[opp].0, q) ==> forall|t: int|
            0 <= t < 64 ==> (#[trigger] bb_has(info.attacked.0, t) <==> (king_attack(q, t) || checked_by(
                pieces,
                info.occupied.0,
                opp,
                t,
            )))
    &&& forall|k: int|
        #[trigger] lowest(pieces[side].0, k) ==> forall|t: int|
            0 <= t < 64 ==> (#[trigger] bb_has(info.pinners.0, t) <==> pinner(pieces, info.occupied.0, opp, k, t))
    &&& forall|k: int|
        #[trigger] lowest(pieces[side].0, k) ==> forall|u: int|
            0 <= u < 64 ==> (#[trigger] bb_has(info.blockers.0, u) <==> (bb_has(info.my.0, u) && exists|p: int|
                0 <= p < 64 && #[trigger] bb_has(info.pinners.0, p) && between_has(k, p, u)))
}

/// The squares a rook on `sq` attacks through at most one piece.
fn xray_rook_attacks(table: &Tables, sq: Square, occ: BB) -> (r: BB)
    ensures
        forall|t: int| 0 <= t < 64 ==> (bb_has(r.0, t) <==> rook_xray(sq@, t, occ.0)),
{
    let direct = table.rook_attacks(sq, occ);
    proof {
        lemma_bits(occ.0, direct.0);
    }
    let rest = occ.and(direct.not());
    let r = table.rook_attacks(sq, rest);
    assert forall|t: int| 0 <= t < 64 implies (bb_has(r.0, t) <==> rook_xray(sq@, t, occ.0)) by {
        if rook_xray(sq@, t, occ.0) {
            assert forall|u: int| 0 <= u < 64 && between_has(sq@, t, u) implies !bb_has(rest.0, u) by {
                if bb_has(occ.0, u) {
                    assert(rook_attack(sq@, u, occ.0));
                    assert(bb_has(direct.0, u));
                }
            }
        }
        if bb_has(r.0, t) {
            assert forall|u: int| 0 <= u < 64 && between_has(sq@, t, u) && bb_has(occ.0, u) implies rook_attack(
                sq@,
                u,
                occ.0,
            ) by {
                assert(!bb_has(rest.0, u));
                assert(bb_has(direct.0, u));
            }
        }
    }
    r
}

/// The squares a bishop on `sq` attacks through at most one piece.
fn xray_bishop_attacks(table: &Tables, sq: Square, occ: BB) -> (r: BB)
    ensures
        forall|t: int| 0 <= t < 64 ==> (bb_has(r.0, t) <==> bishop_xray(sq@, t, occ.0)),
{
    let direct = table.bishop_attacks(sq, occ);
    proof {
        lemma_bits(occ.0, direct.0);
    }
    let rest = occ.and(direct.not());
    let r = table.bishop_attacks(sq, rest);
    assert forall|t: int| 0 <= t < 64 implies (bb_has(r.0, t) <==> bishop_xray(sq@, t, occ.0)) by {
        if bishop_xray(sq@, t, occ.0) {
            assert forall|u: int| 0 <= u < 64 && between_has(sq@, t, u) implies !bb_has(rest.0, u) by {
                if bb_has(occ.0, u) {
                    assert(bishop_attack(sq@, u, occ.0));
                    assert(bb_has(direct.0, u));
                }
            }
        }
        if bb_has(r.0, t) {
            assert forall|u: int| 0 <= u < 64 && between_has(sq@, t, u) && bb_has(occ.0, u) implies bishop_attack(
                sq@,
                u,
                occ.0,
            ) by {
                assert(!bb_has(rest.0, u));
                assert(bb_has(direct.0, u));
            }
        }
    }
    r
}

/// The pieces of `my` between the king on `king` and each pinning piece.
fn pinned_between(table: &Tables, king: Square, pinners: BB, my: BB) -> (r: BB)
    ensures
        forall|u: int| 0 <= u < 64 ==> (#[trigger] bb_has(r.0, u) <==> (bb_has(my.0, u) && exists|p: int|
            0 <= p < 64 && #[trigger] bb_has(pinners.0, p) && between_has(king@, p, u))),
{
    let mut m: u64 = 0;
    proof {
        lemma_empty();
    }
    let mut p: u8 = 0;
    let mut rest = pinners;
    while rest.any()
        invariant
            p <= 64,
            forall|k: int| 0 <= k < 64 ==> (#[trigger] bb_has(rest.0, k) <==> (bb_has(pinners.0, k) && k >= p)),
            forall|u: int| 0 <= u < 64 ==> (#[trigger] bb_has(m, u) <==> (bb_has(my.0, u) && exists|q: int|
                0 <= q < p && #[trigger] bb_has(pinners.0, q) && between_has(king@, q, u))),
        decreases 64 - p,
    {
        let ps = rest.first_piece();
        let ghost p0 = p;
        p = ps.get();
        proof {
            assert forall|u: int| 0 <= u < 64 implies (#[trigger] bb_has(m, u) <==> (bb_has(my.0, u) && exists|q: int|
                0 <= q < p && #[trigger] bb_has(pinners.0, q) && between_has(king@, q, u))) by {
                if exists|q: int| 0 <= q < p && #[trigger] bb_has(pinners.0, q) && between_has(king@, q, u) {
                    let q = choose|q: int| 0 <= q < p && #[trigger] bb_has(pinners.0, q) && between_has(king@, q, u);
                    if q >= p0 {
                        assert(bb_has(rest.0, q));
                    } else {
                        assert(0 <= q < p0 && bb_has(pinners.0, q) && between_has(king@, q, u));
                    }
                }
                if bb_has(m, u) {
                    let q = choose|q: int| 0 <= q < p0 && #[trigger] bb_has(pinners.0, q) && between_has(king@, q, u);
                    assert(0 <= q < p && bb_has(pinners.0, q) && between_has(king@, q, u));
                }
            }
        }
        if contains(pinners, ps) {
            let line = table.between(king, ps);
            let add = my.and(line);
            let ghost before = m;
            proof {
                lemma_bits(my.0, line.0);
                lemma_bits(m, add.0);
            }
            m = m | add.0;
            assert forall|u: int| 0 <= u < 64 implies (#[trigger] bb_has(m, u) <==> (bb_has(my.0, u) && exists|q: int|
                0 <= q < p + 1 && #[trigger] bb_has(pinners.0, q) && between_has(king@, q, u))) by {
                if bb_has(m, u) && !bb_has(before, u) {
                    assert(bb_has(pinners.0, p as int) && between_has(king@, p as int, u));
                }
                if bb_has(my.0, u) && exists|q: int| 0 <= q < p + 1 && #[trigger] bb_has(pinners.0, q) && between_has(king@, q, u) {
                    let q = choose|q: int| 0 <= q < p + 1 && #[trigger] bb_has(pinners.0, q) && between_has(king@, q, u);
                    if q < p {
                        assert(bb_has(before, u));
                    }
                }
            }
        } else {
            assert forall|u: int| 0 <= u < 64 implies (#[trigger] bb_has(m, u) <==> (bb_has(my.0, u) && exists|q: int|
                0 <= q < p + 1 && #[trigger] bb_has(pinners.0, q) && between_has(king@, q, u))) by {
                if bb_has(my.0, u) && exists|q: int| 0 <= q < p + 1 && #[trigger] bb_has(pinners.0, q) && between_has(king@, q, u) {
                    let q = choose|q: int| 0 <= q < p + 1 && #[trigger] bb_has(pinners.0, q) && between_has(king@, q, u);
                    assert(q != p);
                }
            }
        }
        p = p + 1;
        rest = without(rest, ps);
    }
    proof {
        assert forall|u: int| 0 <= u < 64 implies (bb_has(m, u) <==> (bb_has(my.0, u) && exists|q: int|
            0 <= q < 64 && #[trigger] bb_has(pinners.0, q) && between_has(king@, q, u))) by {
            if bb_has(my.0, u) && exists|q: int| 0 <= q < 64 && #[trigger] bb_has(pinners.0, q) && between_has(king@, q, u) {
                let q = choose|q: int| 0 <= q < 64 && #[trigger] bb_has(pinners.0, q) && between_has(king@, q, u);
                if q >= p {
                    assert(bb_has(rest.0, q));
                } else {
                    assert(0 <= q < p && bb_has(pinners.0, q) && between_has(king@, q, u));
                }
            }
            if bb_has(m, u) {
                let q = choose|q: int| 0 <= q < p && #[trigger] bb_has(pinners.0, q) && between_has(king@, q, u);
                assert(0 <= q < 64 && bb_has(pinners.0, q) && between_has(king@, q, u));
            }
        }
    }
    BB(m)
}

impl PositionInfo {
    /// Create position info of a given position, for the side to move.
    pub fn about(table: &Tables, b: &Board) -> (r: Self)
        requires
            b.pieces.0@[0].0 != 0,
            b.pieces.0@[1].0 != 0,
        ensures
            position_info_spec(b.pieces.0@, if b.state.player == Player::White { 0 } else { 1 }, r),
    {
        let side: u8 = match b.state.player {
            Player::White => 0,
            Player::Black => 1,
        };
        let opp: u8 = 1 - side;
        let ps = &b.pieces;
        let their_rooks = ps.get(10 + opp).or(ps.get(8 + opp));
        let their_bishops = ps.get(10 + opp).or(ps.get(4 + opp));
        let king_sq = ps.get(side).first_piece();
        let my = ps.get(side).or(ps.get(10 + side)).or(ps.get(8 + side)).or(ps.get(4 + side)).or(ps.get(6 + side)).or(
            ps.get(2 + side),
        );
        let their = ps.get(opp).or(ps.get(10 + opp)).or(ps.get(8 + opp)).or(ps.get(4 + opp)).or(ps.get(6 + opp)).or(
            ps.get(2 + opp),
        );
        let occupied = my.or(their);

        let their_king = ps.get(opp).first_piece();
        let king_attacked = table.king_attacks(their_king);
        let checked = checked_squares(table, ps, opp, occupied);
        proof {
            lemma_bits(king_attacked.0, checked.0);
        }
        let attacked = king_attacked.or(checked);

        let xr = xray_rook_attacks(table, king_sq, occupied);
        let xb = xray_bishop_attacks(table, king_sq, occupied);
        proof {
            lemma_bits(xr.0, their_rooks.0);
            lemma_bits(xb.0, their_bishops.0);
            lemma_bits(xr.0 & their_rooks.0, xb.0 & their_bishops.0);
            lemma_bits(ps.0@[10 + opp].0, ps.0@[8 + opp].0);
            lemma_bits(ps.0@[10 + opp].0, ps.0@[4 + opp].0);
        }
        let pinners = xr.and(their_rooks).or(xb.and(their_bishops));
        let blockers = pinned_between(table, king_sq, pinners, my);
        let r = PositionInfo { occupied, my, their, attacked, blockers, pinners };
        proof {
            let pcs = b.pieces.0@;
            let sd = side as int;
            assert forall|q: int| #[trigger] lowest(pcs[1 - sd].0, q) implies forall|t: int|
                0 <= t < 64 ==> (#[trigger] bb_has(r.attacked.0, t) <==> (king_attack(q, t) || checked_by(
                    pcs,
                    r.occupied.0,
                    1 - sd,
                    t,
                ))) by {
                assert(bb_has(pcs[1 - sd].0, their_king@));
                assert(q == their_king@) by {
                    if q < their_king@ {
                        assert(!bb_has(pcs[1 - sd].0, q));
                    } else if q > their_king@ {
                        let x = pcs[1 - sd].0;
                        assert(forall|t: int| 0 <= t < q ==> !bb_has(x, t));
                        assert(!bb_has(x, their_king@));
                    }
                }
            }
            assert forall|k: int| #[trigger] lowest(pcs[sd].0, k) implies k == king_sq@ by {
                if k < king_sq@ {
                    assert(!bb_has(pcs[sd].0, k));
                } else if k > king_sq@ {
                    let x = pcs[sd].0;
                    assert(forall|t: int| 0 <= t < k ==> !bb_has(x, t));
                    assert(!bb_has(x, king_sq@));
                }
            }
            let opp_i = 1 - sd;
            assert(r.my.0 == side_union(pcs, sd));
            assert(r.their.0 == side_union(pcs, opp_i));
            assert forall|t: int| 0 <= t < 64 implies (#[trigger] bb_has(r.pinners.0, t) <==> pinner(
                pcs,
                r.occupied.0,
                opp_i,
                king_sq@,
                t,
            )) by {
                assert(bb_has(r.pinners.0, t) <==> (bb_has(xr.0, t) && bb_has(their_rooks.0, t)) || (bb_has(xb.0, t)
                    && bb_has(their_bishops.0, t)));
            }
            assert forall|k: int| #[trigger] lowest(pcs[sd].0, k) implies forall|t: int|
                0 <= t < 64 ==> (#[trigger] bb_has(r.pinners.0, t) <==> pinner(pcs, r.occupied.0, opp_i, k, t)) by {
                assert(k == king_sq@);
            }
            assert forall|k: int| #[trigger] lowest(pcs[sd].0, k) implies forall|u: int|
                0 <= u < 64 ==> (#[trigger] bb_has(r.blockers.0, u) <==> (bb_has(r.my.0, u) && exists|p: int|
                    0 <= p < 64 && #[trigger] bb_has(r.pinners.0, p) && between_has(k, p, u))) by {
                assert(k == king_sq@);
                assert forall|u: int| 0 <= u < 64 implies (#[trigger] bb_has(r.blockers.0, u) <==> (bb_has(r.my.0, u)
                    && exists|p: int| 0 <= p < 64 && #[trigger] bb_has(r.pinners.0, p) && between_has(k, p, u))) by {
                    assert(bb_has(blockers.0, u) <==> (bb_has(my.0, u) && exists|p: int|
                        0 <= p < 64 && #[trigger] bb_has(pinners.0, p) && between_has(king_sq@, p, u)));
                    if bb_has(r.blockers.0, u) {
                        let p = choose|p: int| 0 <= p < 64 && #[trigger] bb_has(pinners.0, p) && between_has(king_sq@, p, u);
                        assert(bb_has(r.pinners.0, p) && between_has(k, p, u));
                    }
                    if bb_has(r.my.0, u) && exists|p: int| 0 <= p < 64 && #[trigger] bb_has(r.pinners.0, p) && between_has(k, p, u) {
                        let p = choose|p: int| 0 <= p < 64 && #[trigger] bb_has(r.pinners.0, p) && between_has(k, p, u);
                        assert(bb_has(pinners.0, p) && between_has(king_sq@, p, u));
                    }
                }
            }
        }
        r
    }
}

/// Move generator.
pub struct MoveGenerator {
    pub tables: Tables,
}

/// Whether a position counts as drawn by rule, given its move clock, the number of pieces on
/// the board and the bitboards of the pieces: fifty moves without progress, or material that
/// cannot mate (no pawn, rook or queen, and at most bishops and knights that cannot force
/// mate).
pub open spec fn drawn_by_rule_spec(move_clock: u8, pieces: Seq<BB>, piece_count: nat) -> bool {
    let wb = pieces[4].0;
    let bb = pieces[5].0;
    let wn = pieces[6].0;
    if move_clock >= 50 {
        true
    } else if piece_count > 5 {
        false
    } else if piece_count < 3 {
        true
    } else if pieces[8].0 | pieces[2].0 | pieces[9].0 | pieces[3].0 | pieces[10].0 | pieces[11].0 != 0 {
        false
    } else if piece_count == 3 {
        true
    } else if piece_count == 4 {
        popcount(wb | wn) == 1
    } else if popcount(wb) == 2 {
        if popcount(wb & BB::WHITE_SQUARES) == 1 {
            bb != 0
        } else {
            true
        }
    } else if popcount(bb) == 2 {
        if popcount(bb & BB::WHITE_SQUARES) == 1 {
            wb != 0
        } else {
            true
        }
    } else {
        true
    }
}

impl MoveGenerator {
    /// A generator with its tables filled.
    pub fn new() -> (r: Self)
        ensures
            r.tables.holds_tables(),
    {
        MoveGenerator { tables: Tables::new() }
    }

    /// The tables the generator uses.
    pub fn tables(&self) -> (r: Tables)
        ensures
            r == self.tables,
    {
        self.tables
    }

    /// The position info of the side to move.
    pub fn gen_info(&self, b: &Board) -> (r: PositionInfo)
        requires
            kings_present(*b),
        ensures
            position_info_spec(b.pieces.0@, player_index(b.state.player), r),
    {
        PositionInfo::about(&self.tables, b)
    }

    /// Pushes the moves of the given type of the side to move; see `moves_ok`. The list gains
    /// the moves `moves_ok` accepts, each once, and reports whether it filled up first. The
    /// board's bitboards must not share a square (else a move could come twice), and a king
    /// on an attacked square must be checked by a piece other than the other king
    /// (`check_is_real`): the evasion step asserts that some such piece gives check, and
    /// stops the program where none does.
    pub fn gen_moves_info(&self, gen: GenType, b: &Board, info: &PositionInfo, list: &mut InlineBuffer<MAX_MOVES, Move>) -> (full: bool)
        requires
            kings_present(*b),
            disjoint_pieces(b@),
            b.state.en_passant <= 8,
            old(list)@.len() <= MAX_MOVES,
            check_is_real(TypedMoveGenerator { tables: &self.tables, player: b.state.player, gen }, *b, *info),
        ensures
            adds(
                old(list)@,
                final(list)@,
                |v: u16| moves_ok(TypedMoveGenerator { tables: &self.tables, player: b.state.player, gen }, *b, *info, v),
                full,
            ),
    {
        TypedMoveGenerator::new(&self.tables, b.state.player, gen).gen_moves_info(b, info, list)
    }

    /// Whether a piece other than the king of the other side attacks the king of the side to
    /// move.
    pub fn checked_king(&self, b: &Board, info: &PositionInfo) -> (r: bool)
        requires
            kings_present(*b),
        ensures
            r == checked_by(
                b.pieces.0@,
                info.occupied.0,
                1 - player_index(b.state.player),
                king_square(b.pieces.0@, player_index(b.state.player)),
            ),
    {
        let g = TypedMoveGenerator::new(&self.tables, b.state.player, GenType::all());
        proof {
            lemma_lowest(b.pieces.0@[player_index(b.state.player)].0);
        }
        g.is_king_checked(b, info)
    }

    /// Whether the generator of all legal moves keeps the move `m`; see `legal_spec`.
    pub fn is_legal(&self, m: Move, b: &Board, info: &PositionInfo) -> (r: bool)
        requires
            kings_present(*b),
            move_ty(m@) == TYPE_EN_PASSANT ==> 0 <= captured_square(player_index(b.state.player), move_to(m@)) < 64,
        ensures
            r == legal_spec(
                true,
                player_index(b.state.player),
                b.pieces.0@,
                b.squares.0@,
                *info,
                king_square(b.pieces.0@, player_index(b.state.player)),
                m@,
            ),
    {
        let g = TypedMoveGenerator::new(&self.tables, b.state.player, GenType::all());
        proof {
            lemma_lowest(b.pieces.0@[player_index(b.state.player)].0);
        }
        g.is_legal(m, b, info)
    }

    /// Whether the side to move is mated; see `mate_spec`.
    pub fn check_mate(&self, b: &Board, info: &PositionInfo) -> (r: bool)
        requires
            kings_present(*b),
        ensures
            r == mate_spec(
                TypedMoveGenerator {
                    tables: &self.tables,
                    player: b.state.player,
                    gen: GenType { quiet: true, checks: false, legal: true },
                },
                *b,
                *info,
            ),
    {
        TypedMoveGenerator::new(&self.tables, b.state.player, GenType::all()).is_checkmate(b, info)
    }

    /// Returns if the game is drawn by material or by move clock.
    pub fn drawn_by_rule(&self, b: &Board, info: &PositionInfo) -> (r: bool)
        requires
            b.pieces.0@.len() == 12,
        ensures
            r == drawn_by_rule_spec(b.state.move_clock, b.pieces.0@, popcount(info.occupied.0)),
    {
        if b.state.move_clock >= 50 {
            return true;
        }
        let piece_count = info.occupied.count();
        if piece_count > 5 {
            return false;
        }
        if piece_count < 3 {
            return true;
        }
        if b.pieces.get(8).or(b.pieces.get(2)).or(b.pieces.get(9)).or(b.pieces.get(3)).or(b.pieces.get(10)).or(
            b.pieces.get(11),
        ).any() {
            return false;
        }
        if piece_count == 3 {
            return true;
        }
        let white_bishops = b.pieces.get(4);
        let black_bishops = b.pieces.get(5);
        if piece_count == 4 {
            return white_bishops.or(b.pieces.get(6)).count() == 1;
        }
        if white_bishops.count() == 2 {
            if white_bishops.and(BB(BB::WHITE_SQUARES)).count() == 1 {
                return black_bishops.any();
            } else {
                return true;
            }
        }
        if black_bishops.count() == 2 {
            if black_bishops.and(BB(BB::WHITE_SQUARES)).count() == 1 {
                return white_bishops.any();
            } else {
                return true;
            }
        }
        true
    }
}

/// Which moves a generator produces.
#[derive(Clone, Copy, Debug)]
pub struct GenType {
    /// Moves to empty squares as well as captures.
    pub quiet: bool,
    /// Also the moves of pawns, knights and sliders that give check.
    pub checks: bool,
    /// Only the moves that do not leave the own king attacked.
    pub legal: bool,
}

impl GenType {
    /// All legal moves.
    pub fn all() -> (r: GenType)
        ensures
            r.quiet && !r.checks && r.legal,
    {
        GenType { quiet: true, checks: false, legal: true }
    }
}

/// The move generator for one side to move.
pub struct TypedMoveGenerator<'a> {
    pub tables: &'a Tables,
    pub player: Player,
    pub gen: GenType,
}

/// The four promotions of a pawn move, in the order queen, rook, knight, bishop.
pub open spec fn promotions_of(from: int, to: int) -> Seq<u16> {
    seq![
        (from + 64 * to + TYPE_PROMOTION + promotion_bits(Promotion::Queen)) as u16,
        (from + 64 * to + TYPE_PROMOTION + promotion_bits(Promotion::Rook)) as u16,
        (from + 64 * to + TYPE_PROMOTION + promotion_bits(Promotion::Knight)) as u16,
        (from + 64 * to + TYPE_PROMOTION + promotion_bits(Promotion::Bishop)) as u16,
    ]
}

/// The square of the pawn that an en passant capture to `to` by `side` takes.
pub open spec fn captured_square(side: int, to: int) -> int {
    if side == 0 {
        to - 8
    } else {
        to + 8
    }
}

/// The occupied squares after an en passant capture from `from` to `to` that takes the pawn
/// on `cap`.
pub open spec fn ep_occupancy(occ: u64, from: int, to: int, cap: int) -> u64 {
    occ ^ ((1u64 << (cap as u64)) | (1u64 << (from as u64)) | (1u64 << (to as u64)))
}

/// Whether the generator of `side` keeps the move `v`, the king of `side` standing on `k`:
/// an en passant capture when no queen, rook or bishop of the other side then reaches the
/// king; a king move always (the generator gives the king only safe squares); another move
/// when its piece is not pinned or stays on the line of the pin.
#[verifier::opaque]
pub open spec fn legal_spec(
    legal: bool,
    side: int,
    pieces: Seq<BB>,
    squares: Seq<SquareContent>,
    info: PositionInfo,
    k: int,
    v: u16,
) -> bool {
    let from = move_from(v);
    let to = move_to(v);
    let opp = 1 - side;
    if !legal {
        true
    } else if move_ty(v) == TYPE_EN_PASSANT {
        let occ2 = ep_occupancy(info.occupied.0, from, to, captured_square(side, to));
        &&& forall|s: int|
            0 <= s < 64 && (piece_on(pieces, 10 + opp, s) || piece_on(pieces, 4 + opp, s)) ==> !#[trigger] bishop_attack(
                k,
                s,
                occ2,
            )
        &&& forall|s: int|
            0 <= s < 64 && (piece_on(pieces, 10 + opp, s) || piece_on(pieces, 8 + opp, s)) ==> !#[trigger] rook_attack(
                k,
                s,
                occ2,
            )
    } else if content_index(squares[from]) == side {
        true
    } else {
        !bb_has(info.blockers.0, from) || line_has(from, to, k)
    }
}

/// Whether `v` encodes a normal move: no kind or promotion bits.
pub open spec fn is_normal(v: u16) -> bool {
    v == move_from(v) + 64 * move_to(v)
}

/// Whether a piece of the given kind on `f` goes to `t` in one move, the squares in `occ`
/// being occupied: 0 a knight, 1 a bishop, 2 a rook, another number a king.
pub open spec fn reach(kind: u8, f: int, t: int, occ: u64) -> bool {
    if kind == 0 {
        knight_attack(f, t)
    } else if kind == 1 {
        bishop_attack(f, t, occ)
    } else if kind == 2 {
        rook_attack(f, t, occ)
    } else {
        king_attack(f, t)
    }
}

/// Whether the generator `g` keeps the move `v`, the king of its side standing on its
/// lowest square.
pub open spec fn legal_move(g: TypedMoveGenerator, b: Board, info: PositionInfo, v: u16) -> bool {
    let side = player_index(g.player);
    legal_spec(g.gen.legal, side, b.pieces.0@, b.squares.0@, info, king_square(b.pieces.0@, side), v)
}

/// The normal moves of pieces of the given kind from the squares of `froms` to the squares
/// of `target`, each kept by the legality test when `filter` is set.
pub open spec fn from_set_ok(
    g: TypedMoveGenerator,
    b: Board,
    info: PositionInfo,
    froms: u64,
    kind: u8,
    target: u64,
    filter: bool,
    v: u16,
) -> bool {
    &&& is_normal(v)
    &&& bb_has(froms, move_from(v))
    &&& reach(kind, move_from(v), move_to(v), info.occupied.0)
    &&& bb_has(target, move_to(v))
    &&& (filter ==> legal_move(g, b, info, v))
}

/// Whether both kings are on the board.
pub open spec fn kings_present(b: Board) -> bool {
    b.pieces.0@[0].0 != 0 && b.pieces.0@[1].0 != 0
}

/// The squares the knights of the side to move may leave: all of them, or when only legal
/// moves are wanted those of knights that are not pinned.
pub open spec fn knight_froms(g: TypedMoveGenerator, b: Board, info: PositionInfo) -> u64 {
    let knights = b.pieces.0@[6 + player_index(g.player)].0;
    if g.gen.legal {
        knights & !info.blockers.0
    } else {
        knights
    }
}

/// Whether a slider of the given kind (1 bishop, 2 rook) may go to `t`: a target square, or
/// when checks are wanted a square from which it would attack the other king, if not our own.
pub open spec fn slider_target(g: TypedMoveGenerator, b: Board, info: PositionInfo, target: u64, kind: u8, t: int) -> bool {
    let side = player_index(g.player);
    ||| bb_has(target, t)
    ||| g.gen.checks && reach(kind, king_square(b.pieces.0@, 1 - side), t, info.occupied.0) && !bb_has(info.my.0, t)
}

/// The moves of bishops, rooks and queens the generator makes towards `target`.
pub open spec fn slider_ok(g: TypedMoveGenerator, b: Board, info: PositionInfo, target: u64, v: u16) -> bool {
    let side = player_index(g.player);
    let pcs = b.pieces.0@;
    let f = move_from(v);
    let t = move_to(v);
    &&& is_normal(v)
    &&& legal_move(g, b, info, v)
    &&& {
        ||| (piece_on(pcs, 10 + side, f) || piece_on(pcs, 4 + side, f)) && bishop_attack(f, t, info.occupied.0)
            && slider_target(g, b, info, target, 1, t)
        ||| (piece_on(pcs, 10 + side, f) || piece_on(pcs, 8 + side, f)) && rook_attack(f, t, info.occupied.0)
            && slider_target(g, b, info, target, 2, t)
    }
}

/// Whether `t` holds a square of `x` moved by `delta` indices, its file changing by `df`.
pub open spec fn shifted(x: u64, delta: int, df: int, t: int) -> bool {
    0 <= t - delta < 64 && bb_has(x, t - delta) && file_of(t) == file_of(t - delta) + df
}

/// The moves of pawns into the squares of `dests`, each from `delta` indices back: of the
/// given shape (0 a single step, 1 a double step, 2 the four promotions) and kept by the
/// legality test.
pub open spec fn pawn_step_ok(g: TypedMoveGenerator, b: Board, info: PositionInfo, dests: u64, delta: int, shape: u8, v: u16) -> bool {
    let f = move_from(v);
    let t = move_to(v);
    &&& bb_has(dests, t)
    &&& f == t - delta
    &&& if shape == 0 {
        is_normal(v) && legal_move(g, b, info, v)
    } else if shape == 1 {
        v == f + 64 * t + DOUBLE_MOVE_PAWN && legal_move(g, b, info, v)
    } else {
        promotions_of(f, t).contains(v) && legal_move(g, b, info, (f + 64 * t) as u16)
    }
}

/// Whether a pawn of `side` on `f` captures on `t`: a piece of the other side stands there
/// and `t` is a target.
pub open spec fn pawn_capture(g: TypedMoveGenerator, b: Board, info: PositionInfo, target: u64, f: int, t: int) -> bool {
    let side = player_index(g.player);
    &&& piece_on(b.pieces.0@, 2 + side, f)
    &&& pawn_attack(side == 0, f, t)
    &&& bb_has(info.their.0, t)
    &&& bb_has(target, t)
}

/// The number of indices a pawn of `side` moves forward.
pub open spec fn forward(side: int) -> int {
    if side == 0 {
        8
    } else {
        -8
    }
}

/// Whether a pawn of `side` on `f` steps forward to the empty target square `t`.
pub open spec fn pawn_push(g: TypedMoveGenerator, b: Board, info: PositionInfo, target: u64, f: int, t: int) -> bool {
    let side = player_index(g.player);
    &&& piece_on(b.pieces.0@, 2 + side, f)
    &&& t == f + forward(side)
    &&& !bb_has(info.occupied.0, t)
    &&& bb_has(target, t)
}

/// Whether a pawn of `side` on its starting rank on `f` steps two squares forward to the
/// target square `t`, both squares being empty.
pub open spec fn pawn_double(g: TypedMoveGenerator, b: Board, info: PositionInfo, target: u64, f: int, t: int) -> bool {
    let side = player_index(g.player);
    &&& piece_on(b.pieces.0@, 2 + side, f)
    &&& t == f + 2 * forward(side)
    &&& rank_of(f) == if side == 0 {
        1int
    } else {
        6int
    }
    &&& !bb_has(info.occupied.0, f + forward(side))
    &&& !bb_has(info.occupied.0, t)
    &&& bb_has(target, t)
}

/// Whether `t` is on the rank where the pawns of `side` promote.
pub open spec fn last_rank(side: int, t: int) -> bool {
    rank_of(t) == if side == 0 {
        7int
    } else {
        0int
    }
}

/// The en passant captures of the side to move: the pawn beside the one that just moved two
/// squares takes it, when the square it lands on or the pawn it takes is a target.
pub open spec fn en_passant_ok(g: TypedMoveGenerator, b: Board, info: PositionInfo, target: u64, v: u16) -> bool {
    let side = player_index(g.player);
    let ep = b.state.en_passant as int;
    let c = if side == 0 {
        32 + ep
    } else {
        24 + ep
    };
    let e = c + forward(side);
    let f = move_from(v);
    &&& ep < 8
    &&& (bb_has(target, e) || bb_has(target, c))
    &&& v == f + 64 * e + TYPE_EN_PASSANT
    &&& piece_on(b.pieces.0@, 2 + side, f)
    &&& ((f == c - 1 && ep > 0) || (f == c + 1 && ep < 7))
    &&& legal_move(g, b, info, v)
}

/// The pawn moves the generator makes towards `target`: captures and single steps, promoting
/// on the last rank, double steps, and en passant captures.
pub open spec fn pawn_ok(g: TypedMoveGenerator, b: Board, info: PositionInfo, target: u64, v: u16) -> bool {
    let side = player_index(g.player);
    let f = move_from(v);
    let t = move_to(v);
    let step = pawn_capture(g, b, info, target, f, t) || pawn_push(g, b, info, target, f, t);
    ||| is_normal(v) && step && !last_rank(side, t) && legal_move(g, b, info, v)
    ||| promotions_of(f, t).contains(v) && step && last_rank(side, t) && legal_move(g, b, info, (f + 64 * t) as u16)
    ||| v == f + 64 * t + DOUBLE_MOVE_PAWN && pawn_double(g, b, info, target, f, t) && legal_move(g, b, info, v)
    ||| en_passant_ok(g, b, info, target, v)
}

/// The index step of a pawn capture of `side` towards the a-file.
pub open spec fn capture_west(side: int) -> int {
    if side == 0 {
        7
    } else {
        -9
    }
}

/// The index step of a pawn capture of `side` towards the h-file.
pub open spec fn capture_east(side: int) -> int {
    if side == 0 {
        9
    } else {
        -7
    }
}

/// A pawn capture goes one file west or one file east, by the matching index step.
pub proof fn lemma_pawn_diagonals(side: int, f: int, t: int)
    requires
        0 <= side < 2,
        0 <= f < 64,
        0 <= t < 64,
    ensures
        pawn_attack(side == 0, f, t) <==> ((t == f + capture_west(side) && file_of(t) == file_of(f) - 1) || (t == f
            + capture_east(side) && file_of(t) == file_of(f) + 1)),
{
}

/// The pawn captures and their promotions.
pub open spec fn capture_ok(g: TypedMoveGenerator, b: Board, info: PositionInfo, target: u64, v: u16) -> bool {
    let side = player_index(g.player);
    let f = move_from(v);
    let t = move_to(v);
    ||| is_normal(v) && pawn_capture(g, b, info, target, f, t) && !last_rank(side, t) && legal_move(g, b, info, v)
    ||| promotions_of(f, t).contains(v) && pawn_capture(g, b, info, target, f, t) && last_rank(side, t) && legal_move(
        g,
        b,
        info,
        (f + 64 * t) as u16,
    )
}

/// The pawn steps forward: single steps, promoting on the last rank, and double steps.
pub open spec fn push_ok(g: TypedMoveGenerator, b: Board, info: PositionInfo, target: u64, v: u16) -> bool {
    let side = player_index(g.player);
    let f = move_from(v);
    let t = move_to(v);
    ||| is_normal(v) && pawn_push(g, b, info, target, f, t) && !last_rank(side, t) && legal_move(g, b, info, v)
    ||| promotions_of(f, t).contains(v) && pawn_push(g, b, info, target, f, t) && last_rank(side, t) && legal_move(
        g,
        b,
        info,
        (f + 64 * t) as u16,
    )
    ||| v == f + 64 * t + DOUBLE_MOVE_PAWN && pawn_double(g, b, info, target, f, t) && legal_move(g, b, info, v)
}

/// The castling moves of the side to move: towards the king side when it has the right, the
/// squares the king crosses and lands on being empty and not attacked; towards the queen
/// side likewise, the square next to the rook being empty too.
pub open spec fn castle_ok(g: TypedMoveGenerator, b: Board, info: PositionInfo, v: u16) -> bool {
    let side = player_index(g.player);
    let base = 56 * side;
    let occ = info.occupied.0;
    let att = info.attacked.0;
    let kf: u8 = if side == 0 { 1 } else { 4 };
    let qf: u8 = if side == 0 { 2 } else { 8 };
    ||| v == base + 4 + 64 * (base + 6) + TYPE_CASTLE && b.state.castle & kf != 0 && !bb_has(occ, base + 5) && !bb_has(
        occ,
        base + 6,
    ) && !bb_has(att, base + 5) && !bb_has(att, base + 6)
    ||| v == base + 4 + 64 * (base + 2) + TYPE_CASTLE && b.state.castle & qf != 0 && !bb_has(occ, base + 1) && !bb_has(
        occ,
        base + 2,
    ) && !bb_has(occ, base + 3) && !bb_has(att, base + 2) && !bb_has(att, base + 3)
}

/// The steps of the king of the side to move to target squares the other side does not
/// attack.
pub open spec fn king_step_ok(g: TypedMoveGenerator, b: Board, info: PositionInfo, target: u64, v: u16) -> bool {
    let side = player_index(g.player);
    from_set_ok(g, b, info, 1u64 << (king_square(b.pieces.0@, side) as u64), 3, target & !info.attacked.0, false, v)
}

/// The squares pawns may go to: the targets, and when checks are wanted the squares west
/// of the front of the other king, from where a pawn gives check.
pub open spec fn pawn_target(g: TypedMoveGenerator, b: Board, target: u64) -> u64 {
    let opp = 1 - player_index(g.player);
    if g.gen.checks {
        target | mask(|t: int| shifted(b.pieces.0@[opp].0, capture_west(opp), -1, t))
    } else {
        target
    }
}

/// The squares knights may go to: the targets, and when checks are wanted the squares from
/// where a knight gives check.
pub open spec fn knight_target(g: TypedMoveGenerator, b: Board, target: u64) -> u64 {
    let opp = 1 - player_index(g.player);
    if g.gen.checks {
        target | mask(|t: int| knight_attack(king_square(b.pieces.0@, opp), t))
    } else {
        target
    }
}

/// The moves the generator makes when the king is not in check: king steps, pawn moves,
/// knight moves, slider moves, and castling when quiet moves are wanted.
pub open spec fn pseudo_ok(g: TypedMoveGenerator, b: Board, info: PositionInfo, target: u64, v: u16) -> bool {
    ||| king_step_ok(g, b, info, target, v)
    ||| pawn_ok(g, b, info, pawn_target(g, b, target), v)
    ||| from_set_ok(g, b, info, knight_froms(g, b, info), 0, knight_target(g, b, target), false, v)
    ||| slider_ok(g, b, info, target, v)
    ||| g.gen.quiet && castle_ok(g, b, info, v)
}

/// The pieces of the other side that give check to the king of `side`.
pub open spec fn checkers(b: Board, info: PositionInfo, side: int) -> u64 {
    mask(|p: int| checker_attack(b.pieces.0@, info.occupied.0, 1 - side, p, king_square(b.pieces.0@, side)))
}

/// Whether the king in check may step to `t`: a neighbouring target square the other side
/// does not attack, off the line of every checking bishop, rook or queen (unless it takes it).
pub open spec fn evasion_step(g: TypedMoveGenerator, b: Board, info: PositionInfo, target: u64, t: int) -> bool {
    let side = player_index(g.player);
    let opp = 1 - side;
    let pcs = b.pieces.0@;
    let k = king_square(pcs, side);
    &&& king_attack(k, t)
    &&& bb_has(target, t)
    &&& !bb_has(info.attacked.0, t)
    &&& forall|p: int|
        0 <= p < 64 && #[trigger] checker_attack(pcs, info.occupied.0, opp, p, k) && !piece_on(pcs, 6 + opp, p)
            && !piece_on(pcs, 2 + opp, p) ==> !(line_has(k, p, t) && t != p)
}

/// The squares where another piece may stop a single check: the checking piece, and when
/// quiet moves are wanted and it is no knight, the squares between it and the king.
pub open spec fn evasion_target(g: TypedMoveGenerator, b: Board, info: PositionInfo, t: int) -> bool {
    let side = player_index(g.player);
    let opp = 1 - side;
    let pcs = b.pieces.0@;
    let cs = checkers(b, info, side);
    let a = choose|p: int| lowest(cs, p);
    ||| bb_has(cs, t)
    ||| g.gen.quiet && !piece_on(pcs, 6 + opp, a) && between_has(a, king_square(pcs, side), t)
}

/// The moves the generator makes when the king is in check: king steps out of check, and
/// when a single piece gives check, the moves of other pieces that take it or stand between.
pub open spec fn evasion_ok(g: TypedMoveGenerator, b: Board, info: PositionInfo, target: u64, v: u16) -> bool {
    let side = player_index(g.player);
    let k = king_square(b.pieces.0@, side);
    let tt = mask(|t: int| evasion_target(g, b, info, t));
    ||| from_set_ok(g, b, info, 1u64 << (k as u64), 3, mask(|t: int| evasion_step(g, b, info, target, t)), false, v)
    ||| popcount(checkers(b, info, side)) == 1 && (slider_ok(g, b, info, tt, v) || from_set_ok(
        g,
        b,
        info,
        knight_froms(g, b, info),
        0,
        tt,
        false,
        v,
    ) || pawn_ok(g, b, info, tt, v))
}

/// The squares the generator aims at: every square not holding a piece of the side to move
/// when quiet moves are wanted, else the pieces of the other side.
pub open spec fn gen_target(g: TypedMoveGenerator, info: PositionInfo) -> u64 {
    if g.gen.quiet {
        !info.my.0
    } else {
        info.their.0
    }
}

/// The moves the generator makes in a position: moves out of check when the king stands on
/// an attacked square, else the moves of `pseudo_ok`.
pub open spec fn moves_ok(g: TypedMoveGenerator, b: Board, info: PositionInfo, v: u16) -> bool {
    let side = player_index(g.player);
    if info.attacked.0 & b.pieces.0@[side].0 != 0 {
        evasion_ok(g, b, info, gen_target(g, info), v)
    } else {
        pseudo_ok(g, b, info, gen_target(g, info), v)
    }
}

/// Whether a king standing on an attacked square is in check by a piece other than the
/// other king, as the generator needs.
pub open spec fn check_is_real(g: TypedMoveGenerator, b: Board, info: PositionInfo) -> bool {
    let side = player_index(g.player);
    info.attacked.0 & b.pieces.0@[side].0 != 0 ==> checked_by(
        b.pieces.0@,
        info.occupied.0,
        1 - side,
        king_square(b.pieces.0@, side),
    )
}

/// Whether a piece of the kind `kind` (see `reach`) on a square of `froms` reaches a square
/// of which `blk` holds.
pub open spec fn reaches_set(froms: u64, kind: u8, occ: u64, blk: spec_fn(int) -> bool) -> bool {
    exists|f: int, t: int| 0 <= f < 64 && 0 <= t < 64 && bb_has(froms, f) && #[trigger] reach(kind, f, t, occ) && blk(t)
}

/// The squares between the king of the side to move and the single piece that checks it,
/// when that piece is no knight.
pub open spec fn check_line(g: TypedMoveGenerator, b: Board, info: PositionInfo, t: int) -> bool {
    let side = player_index(g.player);
    let pcs = b.pieces.0@;
    let a = choose|p: int| lowest(checkers(b, info, side), p);
    !piece_on(pcs, 7 - side, a) && between_has(a, king_square(pcs, side), t)
}

/// Whether the side to move counts as mated: its king is in check; it has no square to step
/// to; and unless two pieces give check, no bishop, rook, queen or knight of its own reaches
/// the checking piece or a square between, no pawn takes the checking piece, and no pawn
/// steps, once or twice, between.
pub open spec fn mate_spec(g: TypedMoveGenerator, b: Board, info: PositionInfo) -> bool {
    let cs = checkers(b, info, player_index(g.player));
    &&& popcount(cs) != 0
    &&& !exists|t: int| 0 <= t < 64 && #[trigger] evasion_step(g, b, info, !info.my.0, t)
    &&& popcount(cs) > 1 || single_check_holds(g, b, info)
}

/// The rank a pawn of `side` reaches with its first single step.
pub open spec fn third_rank(side: int) -> int {
    if side == 0 {
        2
    } else {
        5
    }
}

/// The squares one step in front of a pawn, empty and on the given rank, from where the
/// pawn could step once more.
pub open spec fn pawns_before_double(pawns: u64, fwd: int, occ: u64, rank: int) -> u64 {
    mask(|m: int| shifted(pawns, fwd, 0, m) && !bb_has(occ, m) && rank_of(m) == rank)
}

/// Whether no piece of the side to move stops a single check: no bishop, rook, queen or
/// knight reaches the checking piece or a square between, no pawn takes the checking piece,
/// and no pawn steps, once or twice, between.
pub open spec fn single_check_holds(g: TypedMoveGenerator, b: Board, info: PositionInfo) -> bool {
    let side = player_index(g.player);
    let pcs = b.pieces.0@;
    let occ = info.occupied.0;
    let cs = checkers(b, info, side);
    let blk = |t: int| bb_has(cs, t) || check_line(g, b, info, t);
    let line = |t: int| check_line(g, b, info, t);
    let pawns = pcs[2 + side].0;
    let fwd = forward(side);
    let second = pawns_before_double(pawns, fwd, occ, third_rank(side));
    &&& !reaches_set(pcs[10 + side].0 | pcs[4 + side].0, 1, occ, blk)
    &&& !reaches_set(pcs[10 + side].0 | pcs[8 + side].0, 2, occ, blk)
    &&& !reaches_set(pcs[6 + side].0, 0, occ, blk)
    &&& !exists|t: int| 0 <= t < 64 && bb_has(cs, t) && (#[trigger] shifted(pawns, capture_west(side), -1, t)
        || shifted(pawns, capture_east(side), 1, t))
    &&& (forall|t: int| 0 <= t < 64 ==> !#[trigger] line(t)) || {
        &&& !exists|t: int| 0 <= t < 64 && #[trigger] shifted(pawns, fwd, 0, t) && line(t)
        &&& !exists|t: int| 0 <= t < 64 && #[trigger] shifted(second, fwd, 0, t) && line(t)
    }
}

/// On a board whose bitboards are disjoint, the king steps, pawn moves, knight moves,
/// slider moves and castling moves of the side to move never coincide: each starts on a
/// square of its own kind of piece, and castling moves alone are encoded between the
/// normal moves and the promotions.
pub proof fn lemma_kinds_apart(g: TypedMoveGenerator, b: Board, info: PositionInfo, tk: u64, tp: u64, tn: u64, ts: u64)
    requires
        kings_present(b),
        disjoint_pieces(b@),
    ensures
        forall|v: u16|
            #[trigger] from_set_ok(g, b, info, 1u64 << (king_square(b.pieces.0@, player_index(g.player)) as u64), 3, tk, false, v)
                ==> piece_on(b.pieces.0@, player_index(g.player), move_from(v)) && v < 0x1000,
        forall|v: u16|
            #[trigger] pawn_ok(g, b, info, tp, v) ==> piece_on(b.pieces.0@, 2 + player_index(g.player), move_from(v)) && (v
                < 0x1000 || v >= 0x2000),
        forall|v: u16|
            #[trigger] from_set_ok(g, b, info, knight_froms(g, b, info), 0, tn, false, v) ==> piece_on(
                b.pieces.0@,
                6 + player_index(g.player),
                move_from(v),
            ) && v < 0x1000,
        forall|v: u16|
            #[trigger] slider_ok(g, b, info, ts, v) ==> (piece_on(b.pieces.0@, 4 + player_index(g.player), move_from(v))
                || piece_on(b.pieces.0@, 8 + player_index(g.player), move_from(v)) || piece_on(
                b.pieces.0@,
                10 + player_index(g.player),
                move_from(v),
            )) && v < 0x1000,
        forall|v: u16| #[trigger] castle_ok(g, b, info, v) ==> 0x1000 <= v < 0x2000,
        forall|a: int, c: int, f: int|
            0 <= a < 12 && 0 <= c < 12 && a != c && 0 <= f < 64 ==> !(#[trigger] piece_on(b.pieces.0@, a, f)
                && #[trigger] piece_on(b.pieces.0@, c, f)),
{
    let pcs = b.pieces.0@;
    let side = player_index(g.player);
    let k = king_square(pcs, side);
    lemma_lowest(pcs[side].0);
    lemma_square_bit(k);
    lemma_bits(pcs[6 + side].0, info.blockers.0);
    assert forall|a: int, c: int, f: int|
        0 <= a < 12 && 0 <= c < 12 && a != c && 0 <= f < 64 implies !(#[trigger] piece_on(pcs, a, f) && #[trigger] piece_on(
            pcs,
            c,
            f,
        )) by {
        assert(b@.pieces == pcs);
        if a > c {
            assert(b@.pieces[a].0 & b@.pieces[c].0 == 0);
            lemma_disjoint(pcs[a].0, pcs[c].0);
        } else {
            assert(b@.pieces[c].0 & b@.pieces[a].0 == 0);
            lemma_disjoint(pcs[c].0, pcs[a].0);
        }
    }
    assert forall|v: u16| #[trigger] pawn_ok(g, b, info, tp, v) implies piece_on(pcs, 2 + side, move_from(v)) && (v < 0x1000
        || v >= 0x2000) by {
        let f = move_from(v);
        let t = move_to(v);
        if promotions_of(f, t).contains(v) {
            let i = choose|i: int| 0 <= i < 4 && promotions_of(f, t)[i] == v;
            assert(0 <= i < 4);
        }
    }
}

/// Reaching a set depends only on which squares of the board it holds.
pub proof fn lemma_reaches_same(froms: u64, kind: u8, occ: u64, p1: spec_fn(int) -> bool, p2: spec_fn(int) -> bool)
    requires
        forall|t: int| 0 <= t < 64 ==> #[trigger] p1(t) == p2(t),
    ensures
        reaches_set(froms, kind, occ, p1) == reaches_set(froms, kind, occ, p2),
{
    if reaches_set(froms, kind, occ, p1) {
        let (f, t) = choose|f: int, t: int| 0 <= f < 64 && 0 <= t < 64 && bb_has(froms, f) && #[trigger] reach(kind, f, t, occ) && p1(t);
        assert(reach(kind, f, t, occ) && p2(t));
    }
    if reaches_set(froms, kind, occ, p2) {
        let (f, t) = choose|f: int, t: int| 0 <= f < 64 && 0 <= t < 64 && bb_has(froms, f) && #[trigger] reach(kind, f, t, occ) && p2(t);
        assert(reach(kind, f, t, occ) && p1(t));
    }
}

/// A pawn that steps between the king and the single checking piece stops the check.
pub proof fn lemma_step_blocks(g: TypedMoveGenerator, b: Board, info: PositionInfo, t: int)
    requires
        0 <= t < 64,
        shifted(b.pieces.0@[2 + player_index(g.player)].0, forward(player_index(g.player)), 0, t),
        check_line(g, b, info, t),
    ensures
        !single_check_holds(g, b, info),
{
    let side = player_index(g.player);
    let pawns = b.pieces.0@[2 + side].0;
    let line = |u: int| check_line(g, b, info, u);
    assert(line(t));
    assert(exists|u: int| 0 <= u < 64 && #[trigger] shifted(pawns, forward(side), 0, u) && line(u));
}

/// A pawn that steps twice between the king and the single checking piece stops the check.
pub proof fn lemma_double_blocks(g: TypedMoveGenerator, b: Board, info: PositionInfo, t: int)
    requires
        0 <= t < 64,
        shifted(
            pawns_before_double(
                b.pieces.0@[2 + player_index(g.player)].0,
                forward(player_index(g.player)),
                info.occupied.0,
                third_rank(player_index(g.player)),
            ),
            forward(player_index(g.player)),
            0,
            t,
        ),
        check_line(g, b, info, t),
    ensures
        !single_check_holds(g, b, info),
{
    let side = player_index(g.player);
    let sec = pawns_before_double(b.pieces.0@[2 + side].0, forward(side), info.occupied.0, third_rank(side));
    let line = |u: int| check_line(g, b, info, u);
    assert(line(t));
    assert(exists|u: int| 0 <= u < 64 && #[trigger] shifted(sec, forward(side), 0, u) && line(u));
}

impl<'a> TypedMoveGenerator<'a> {
    /// A generator of the moves of `player` of the given type, using the given tables.
    pub fn new(tables: &'a Tables, player: Player, gen: GenType) -> (r: Self)
        ensures
            r.tables == tables,
            r.player == player,
            r.gen == gen,
    {
        TypedMoveGenerator { tables, player, gen }
    }

    /// The number of the side to move: 0 for white, 1 for black.
    fn side(&self) -> (r: u8)
        ensures
            r == player_index(self.player),
    {
        match self.player {
            Player::White => 0,
            Player::Black => 1,
        }
    }

    /// Whether a piece of the other side other than its king attacks the king.
    pub fn is_king_checked(&self, b: &Board, info: &PositionInfo) -> (r: bool)
        requires
            b.pieces.0@[player_index(self.player)].0 != 0,
        ensures
            forall|k: int|
                #[trigger] lowest(b.pieces.0@[player_index(self.player)].0, k) ==> r == checked_by(
                    b.pieces.0@,
                    info.occupied.0,
                    1 - player_index(self.player),
                    k,
                ),
    {
        let side = self.side();
        let king_sq = b.pieces.get(side).first_piece();
        let attackers = attackers_of(&self.tables, &b.pieces, 1 - side, king_sq, info.occupied);
        proof {
            let x = b.pieces.0@[side as int].0;
            lemma_nonempty(attackers.0);
            assert forall|k: int| #[trigger] lowest(x, k) implies k == king_sq@ by {
                if k < king_sq@ {
                    assert(!bb_has(x, k));
                } else if k > king_sq@ {
                    assert(forall|t: int| 0 <= t < k ==> !bb_has(x, t));
                    assert(!bb_has(x, king_sq@));
                }
            }
        }
        let r = attackers.any();
        proof {
            let pcs = b.pieces.0@;
            let occ = info.occupied.0;
            let opp = 1 - side as int;
            if r {
                let s = choose|s: int| 0 <= s < 64 && #[trigger] bb_has(attackers.0, s);
                assert(checker_attack(pcs, occ, opp, s, king_sq@));
            }
            if checked_by(pcs, occ, opp, king_sq@) {
                let s = choose|s: int| 0 <= s < 64 && #[trigger] checker_attack(pcs, occ, opp, s, king_sq@);
                assert(bb_has(attackers.0, s));
            }
        }
        r
    }

    /// Whether the generator keeps the move `m`; see `legal_spec`.
    pub fn is_legal(&self, m: Move, b: &Board, info: &PositionInfo) -> (r: bool)
        requires
            b.pieces.0@[player_index(self.player)].0 != 0,
            move_ty(m@) == TYPE_EN_PASSANT ==> 0 <= captured_square(player_index(self.player), move_to(m@)) < 64,
        ensures
            forall|k: int|
                #[trigger] lowest(b.pieces.0@[player_index(self.player)].0, k) ==> r == legal_spec(
                    self.gen.legal,
                    player_index(self.player),
                    b.pieces.0@,
                    b.squares.0@,
                    *info,
                    k,
                    m@,
                ),
    {
        let side = self.side();
        let king_sq = b.pieces.get(side).first_piece();
        proof {
            reveal(legal_spec);
            let x = b.pieces.0@[side as int].0;
            assert forall|k: int| #[trigger] lowest(x, k) implies k == king_sq@ by {
                if k < king_sq@ {
                    assert(!bb_has(x, k));
                } else if k > king_sq@ {
                    assert(forall|t: int| 0 <= t < k ==> !bb_has(x, t));
                    assert(!bb_has(x, king_sq@));
                }
            }
        }
        if !self.gen.legal {
            return true;
        }
        let from = m.from();
        let to = m.to();
        let opp = 1 - side;
        if m.ty() == TYPE_EN_PASSANT {
            let captured = if side == 0 {
                to.minus(8)
            } else {
                to.plus(8)
            };
            let gone = BB::square(captured).or(BB::square(from)).or(BB::square(to));
            let occupied = info.occupied.xor(gone);
            let bishops = b.pieces.get(10 + opp).or(b.pieces.get(4 + opp));
            let rooks = b.pieces.get(10 + opp).or(b.pieces.get(8 + opp));
            let bat = self.tables.bishop_attacks(king_sq, occupied);
            let rat = self.tables.rook_attacks(king_sq, occupied);
            let ba = bat.and(bishops);
            let ra = rat.and(rooks);
            proof {
                let pcs = b.pieces.0@;
                lemma_bits(pcs[10 + opp].0, pcs[4 + opp].0);
                lemma_bits(pcs[10 + opp].0, pcs[8 + opp].0);
                lemma_bits(bat.0, bishops.0);
                lemma_bits(rat.0, rooks.0);
                lemma_nonempty(ba.0);
                lemma_nonempty(ra.0);
                let occ2 = ep_occupancy(info.occupied.0, move_from(m@), move_to(m@), captured_square(side as int, move_to(m@)));
                assert(occupied.0 == occ2);
                let kk = king_sq@;
                if ba.0 == 0 {
                    assert forall|s: int|
                        0 <= s < 64 && (piece_on(pcs, 10 + opp, s) || piece_on(pcs, 4 + opp, s)) implies !#[trigger] bishop_attack(
                        kk,
                        s,
                        occ2,
                    ) by {
                        assert(!bb_has(ba.0, s));
                    }
                } else {
                    let s = choose|s: int| 0 <= s < 64 && #[trigger] bb_has(ba.0, s);
                    assert(bishop_attack(kk, s, occ2));
                }
                if ra.0 == 0 {
                    assert forall|s: int|
                        0 <= s < 64 && (piece_on(pcs, 10 + opp, s) || piece_on(pcs, 8 + opp, s)) implies !#[trigger] rook_attack(
                        kk,
                        s,
                        occ2,
                    ) by {
                        assert(!bb_has(ra.0, s));
                    }
                } else {
                    let s = choose|s: int| 0 <= s < 64 && #[trigger] bb_has(ra.0, s);
                    assert(rook_attack(kk, s, occ2));
                }
            }
            return ba.none() && ra.none();
        }
        if b.on(from).to_u8() == side {
            return true;
        }
        !contains(info.blockers, from) || self.tables.aligned(from, to, king_sq)
    }

    /// The squares a piece of the given kind on `f` goes to; see `reach`.
    fn reach_set(&self, kind: u8, f: Square, occ: BB) -> (r: BB)
        ensures
            forall|t: int| 0 <= t < 64 ==> (bb_has(r.0, t) <==> reach(kind, f@, t, occ.0)),
    {
        if kind == 0 {
            self.tables.knight_attacks(f)
        } else if kind == 1 {
            self.tables.bishop_attacks(f, occ)
        } else if kind == 2 {
            self.tables.rook_attacks(f, occ)
        } else {
            self.tables.king_attacks(f)
        }
    }

    /// Pushes the normal move from `from` to each square of `tos`, in increasing order, that
    /// the legality test keeps when `filter` is set: whether the list filled up.
    fn push_from(&self, b: &Board, info: &PositionInfo, list: &mut InlineBuffer<MAX_MOVES, Move>, from: Square, tos: BB, filter: bool) -> (full: bool)
        requires
            kings_present(*b),
            old(list)@.len() <= MAX_MOVES,
        ensures
            adds(
                old(list)@,
                final(list)@,
                |v: u16| is_normal(v) && move_from(v) == from@ && bb_has(tos.0, move_to(v)) && (filter ==> legal_move(*self, *b, *info, v)),
                full,
            ),
    {
        let ghost old_list = list@;
        let ghost side = player_index(self.player);
        let ghost ok = |v: u16| is_normal(v) && move_from(v) == from@ && bb_has(tos.0, move_to(v)) && (filter ==> legal_move(*self, *b, *info, v));
        proof {
            lemma_lowest(b.pieces.0@[side].0);
            lemma_adds_none(old_list, |v: u16| ok(v) && move_to(v) < 0);
        }
        let mut t: u8 = 0;
        let mut rest = tos;
        proof {
            lemma_empty();
        }
        while rest.any()
            invariant
                t <= 64,
                forall|k: int| 0 <= k < 64 ==> (#[trigger] bb_has(rest.0, k) <==> (bb_has(tos.0, k) && k >= t)),
                old_list == old(list)@,
                kings_present(*b),
                side == player_index(self.player),
                lowest(b.pieces.0@[side].0, king_square(b.pieces.0@, side)),
                ok == (|v: u16| is_normal(v) && move_from(v) == from@ && bb_has(tos.0, move_to(v)) && (filter ==> legal_move(*self, *b, *info, v))),
                adds(old_list, list@, |v: u16| ok(v) && move_to(v) < t, false),
            decreases 64 - t,
        {
            let ts = rest.first_piece();
            proof {
                let lo = |v: u16| ok(v) && move_to(v) < t;
                let hi = |v: u16| ok(v) && move_to(v) < ts@;
                assert forall|v: u16| #[trigger] lo(v) == hi(v) by {
                    if hi(v) && move_to(v) >= t {
                        assert(bb_has(rest.0, move_to(v)));
                    }
                }
                lemma_adds_same(old_list, list@, lo, hi, false);
            }
            t = ts.get();
            let ghost mid = list@;
            let ghost ok_lt = |v: u16| ok(v) && move_to(v) < t;
            let ghost ok_next = |v: u16| ok(v) && move_to(v) < t + 1;
            if contains(tos, ts) {
                let m = Move::normal(from, ts);
                assert(move_from(m@) == from@ && move_to(m@) == t);
                if !filter || self.is_legal(m, b, info) {
                    let full = push_move(list, m);
                    if full {
                        proof {
                            assert(list@ == mid);
                            assert(ok(m@));
                            assert forall|j: int| old_list.len() <= j < list@.len() implies #[trigger] ok(list@[j]@)
                                && list@[j]@ != m@ by {
                                assert(ok_lt(list@[j]@));
                            }
                            assert(left_out(old_list, list@, m@));
                        }
                        return true;
                    }
                    proof {
                        let only = |v: u16| v == m@;
                        lemma_adds_one(mid, m, only);
                        lemma_adds_union(old_list, mid, list@, ok_lt, only, false);
                        assert forall|v: u16| #[trigger] ok_next(v) == (ok_lt(v) || only(v)) by {
                            if ok_next(v) && move_to(v) == t {
                                assert(v == m@);
                            }
                        }
                        lemma_adds_same(old_list, list@, |v: u16| ok_lt(v) || only(v), ok_next, false);
                    }
                } else {
                    proof {
                        assert forall|v: u16| #[trigger] ok_lt(v) == ok_next(v) by {
                            if ok_next(v) && move_to(v) == t {
                                assert(v == m@);
                            }
                        }
                        lemma_adds_same(old_list, list@, ok_lt, ok_next, false);
                    }
                }
            } else {
                proof {
                    assert forall|v: u16| #[trigger] ok_lt(v) == ok_next(v) by {
                        if ok_next(v) && move_to(v) == t {
                            assert(bb_has(tos.0, t as int));
                        }
                    }
                    lemma_adds_same(old_list, list@, ok_lt, ok_next, false);
                }
            }
            t = t + 1;
            rest = without(rest, ts);
        }
        proof {
            assert forall|v: u16| #[trigger] ok(v) == (ok(v) && move_to(v) < t) by {
                if ok(v) && move_to(v) >= t {
                    assert(bb_has(rest.0, move_to(v)));
                }
            }
            lemma_adds_same(old_list, list@, |v: u16| ok(v) && move_to(v) < t, ok, false);
        }
        false
    }

    /// Pushes the normal moves of pieces of the given kind from the squares of `froms`, in
    /// increasing order of origin and then of target, to the squares of `target`, each kept
    /// by the legality test when `filter` is set: whether the list filled up.
    fn gen_from_set(
        &self,
        b: &Board,
        info: &PositionInfo,
        list: &mut InlineBuffer<MAX_MOVES, Move>,
        froms: BB,
        kind: u8,
        target: BB,
        filter: bool,
    ) -> (full: bool)
        requires
            kings_present(*b),
            old(list)@.len() <= MAX_MOVES,
        ensures
            adds(
                old(list)@,
                final(list)@,
                |v: u16| from_set_ok(*self, *b, *info, froms.0, kind, target.0, filter, v),
                full,
            ),
    {
        let ghost old_list = list@;
        let ghost ok = |v: u16| from_set_ok(*self, *b, *info, froms.0, kind, target.0, filter, v);
        proof {
            lemma_adds_none(old_list, |v: u16| ok(v) && move_from(v) < 0);
        }
        let mut f: u8 = 0;
        let mut rest = froms;
        proof {
            lemma_empty();
        }
        while rest.any()
            invariant
                f <= 64,
                forall|k: int| 0 <= k < 64 ==> (#[trigger] bb_has(rest.0, k) <==> (bb_has(froms.0, k) && k >= f)),
                old_list == old(list)@,
                kings_present(*b),
                ok == (|v: u16| from_set_ok(*self, *b, *info, froms.0, kind, target.0, filter, v)),
                adds(old_list, list@, |v: u16| ok(v) && move_from(v) < f, false),
            decreases 64 - f,
        {
            let fs = rest.first_piece();
            proof {
                let lo = |v: u16| ok(v) && move_from(v) < f;
                let hi = |v: u16| ok(v) && move_from(v) < fs@;
                assert forall|v: u16| #[trigger] lo(v) == hi(v) by {
                    if hi(v) && move_from(v) >= f {
                        assert(bb_has(rest.0, move_from(v)));
                    }
                }
                lemma_adds_same(old_list, list@, lo, hi, false);
            }
            f = fs.get();
            let ghost mid = list@;
            let ghost ok_lt = |v: u16| ok(v) && move_from(v) < f;
            let ghost ok_next = |v: u16| ok(v) && move_from(v) < f + 1;
            if contains(froms, fs) {
                let reached = self.reach_set(kind, fs, info.occupied);
                let tos = reached.and(target);
                proof {
                    lemma_bits(reached.0, target.0);
                }
                let full = self.push_from(b, info, list, fs, tos, filter);
                let ghost okf = |v: u16| is_normal(v) && move_from(v) == fs@ && bb_has(tos.0, move_to(v)) && (filter ==> legal_move(*self, *b, *info, v));
                proof {
                    assert forall|v: u16| #[trigger] okf(v) == (ok(v) && move_from(v) == f) by {}
                }
                if full {
                    proof {
                        lemma_adds_union(old_list, mid, list@, ok_lt, okf, true);
                        assert forall|v: u16| ok_lt(v) || #[trigger] okf(v) implies ok(v) by {}
                        lemma_adds_widen(old_list, list@, |v: u16| ok_lt(v) || okf(v), ok);
                    }
                    return true;
                }
                proof {
                    lemma_adds_union(old_list, mid, list@, ok_lt, okf, false);
                    assert forall|v: u16| #[trigger] ok_next(v) == (ok_lt(v) || okf(v)) by {}
                    lemma_adds_same(old_list, list@, |v: u16| ok_lt(v) || okf(v), ok_next, false);
                }
            } else {
                proof {
                    assert forall|v: u16| #[trigger] ok_lt(v) == ok_next(v) by {
                        if ok_next(v) && move_from(v) == f {
                            assert(bb_has(froms.0, f as int));
                        }
                    }
                    lemma_adds_same(old_list, list@, ok_lt, ok_next, false);
                }
            }
            f = f + 1;
            rest = without(rest, fs);
        }
        proof {
            assert forall|v: u16| #[trigger] ok(v) == (ok(v) && move_from(v) < f) by {
                if ok(v) && move_from(v) >= f {
                    assert(bb_has(rest.0, move_from(v)));
                }
            }
            lemma_adds_same(old_list, list@, |v: u16| ok(v) && move_from(v) < f, ok, false);
        }
        false
    }

    /// Pushes the moves of the knights that may move to the squares of `target`.
    pub fn gen_moves_knight(&self, b: &Board, info: &PositionInfo, list: &mut InlineBuffer<MAX_MOVES, Move>, target: BB) -> (full: bool)
        requires
            kings_present(*b),
            old(list)@.len() <= MAX_MOVES,
        ensures
            adds(
                old(list)@,
                final(list)@,
                |v: u16| from_set_ok(*self, *b, *info, knight_froms(*self, *b, *info), 0, target.0, false, v),
                full,
            ),
    {
        let knights = b.pieces.get(6 + self.side());
        let froms = if self.gen.legal {
            knights.and(info.blockers.not())
        } else {
            knights
        };
        self.gen_from_set(b, info, list, froms, 0, target, false)
    }

    /// The squares a slider of the given kind may go to: the targets, and when checks are
    /// wanted the squares from which it would attack the other king.
    fn slider_targets(&self, b: &Board, info: &PositionInfo, target: BB, kind: u8) -> (r: BB)
        requires
            kings_present(*b),
        ensures
            forall|t: int| 0 <= t < 64 ==> (bb_has(r.0, t) <==> slider_target(*self, *b, *info, target.0, kind, t)),
    {
        let side = self.side();
        if !self.gen.checks {
            return target;
        }
        let their_king = b.pieces.get(1 - side).first_piece();
        proof {
            lemma_lowest(b.pieces.0@[1 - side].0);
        }
        let seen = self.reach_set(kind, their_king, info.occupied);
        let extra = seen.and(info.my.not());
        proof {
            lemma_bits(seen.0, info.my.0);
            lemma_bits(target.0, extra.0);
        }
        target.or(extra)
    }

    /// Pushes the moves of bishops, rooks and queens to the squares of `target`, those of
    /// the diagonal movers first.
    pub fn gen_moves_sliders(&self, b: &Board, info: &PositionInfo, list: &mut InlineBuffer<MAX_MOVES, Move>, target: BB) -> (full: bool)
        requires
            kings_present(*b),
            old(list)@.len() <= MAX_MOVES,
        ensures
            adds(old(list)@, final(list)@, |v: u16| slider_ok(*self, *b, *info, target.0, v), full),
    {
        let ghost old_list = list@;
        let ghost ok = |v: u16| slider_ok(*self, *b, *info, target.0, v);
        let side = self.side();
        let ps = &b.pieces;
        let tb = self.slider_targets(b, info, target, 1);
        let bishops = ps.get(10 + side).or(ps.get(4 + side));
        proof {
            lemma_bits(ps.0@[10 + side].0, ps.0@[4 + side].0);
            lemma_bits(ps.0@[10 + side].0, ps.0@[8 + side].0);
        }
        let full = self.gen_from_set(b, info, list, bishops, 1, tb, true);
        let ghost ok1 = |v: u16| from_set_ok(*self, *b, *info, bishops.0, 1, tb.0, true, v);
        proof {
            assert forall|v: u16| #[trigger] ok1(v) implies ok(v) by {}
        }
        if full {
            proof {
                lemma_adds_widen(old_list, list@, ok1, ok);
            }
            return true;
        }
        let ghost mid = list@;
        let tr = self.slider_targets(b, info, target, 2);
        let rooks = ps.get(10 + side).or(ps.get(8 + side));
        let full = self.gen_from_set(b, info, list, rooks, 2, tr, true);
        let ghost ok2 = |v: u16| from_set_ok(*self, *b, *info, rooks.0, 2, tr.0, true, v);
        proof {
            lemma_adds_union(old_list, mid, list@, ok1, ok2, full);
            assert forall|v: u16| #[trigger] ok(v) == (ok1(v) || ok2(v)) by {}
            lemma_adds_same(old_list, list@, |v: u16| ok1(v) || ok2(v), ok, full);
        }
        full
    }

    /// The squares of the given rank.
    fn rank_set(r: u8) -> (m: BB)
        requires
            r < 8,
        ensures
            forall|t: int| 0 <= t < 64 ==> (bb_has(m.0, t) <==> rank_of(t) == r),
    {
        let mut m: u64 = 0;
        proof {
            lemma_empty();
        }
        let mut f: u8 = 0;
        while f < 8
            invariant
                f <= 8,
                r < 8,
                forall|k: int| 0 <= k < 64 ==> (#[trigger] bb_has(m, k) <==> (rank_of(k) == r && file_of(k) < f)),
            decreases 8 - f,
        {
            m = add_if(m, 8 * r + f, true);
            proof {
                assert forall|k: int| 0 <= k < 64 implies (#[trigger] bb_has(m, k) <==> (rank_of(k) == r && file_of(k) < f
                    + 1)) by {
                    if rank_of(k) == r && file_of(k) == f {
                        assert(k == 8 * r + f);
                    }
                }
            }
            f = f + 1;
        }
        BB(m)
    }

    /// Pushes the move `m` when the legality test keeps it: whether the list was full.
    fn push_if_legal(&self, b: &Board, info: &PositionInfo, list: &mut InlineBuffer<MAX_MOVES, Move>, m: Move) -> (full: bool)
        requires
            kings_present(*b),
            old(list)@.len() <= MAX_MOVES,
            move_ty(m@) == TYPE_EN_PASSANT ==> 0 <= captured_square(player_index(self.player), move_to(m@)) < 64,
        ensures
            adds(old(list)@, final(list)@, |v: u16| v == m@ && legal_move(*self, *b, *info, v), full),
    {
        let ghost mid = list@;
        let ghost ok = |v: u16| v == m@ && legal_move(*self, *b, *info, v);
        proof {
            lemma_lowest(b.pieces.0@[player_index(self.player)].0);
        }
        if !self.is_legal(m, b, info) {
            proof {
                lemma_adds_none(mid, ok);
            }
            return false;
        }
        let full = push_move(list, m);
        proof {
            if !full {
                lemma_adds_one(mid, m, ok);
            } else {
                lemma_adds_full(mid, m, ok);
            }
        }
        full
    }

    /// Pushes the captures of pawns going one file west (when `west`) or east, without
    /// and then with promotion.
    fn gen_pawn_captures_towards(
        &self,
        b: &Board,
        info: &PositionInfo,
        list: &mut InlineBuffer<MAX_MOVES, Move>,
        target: BB,
        west: bool,
    ) -> (full: bool)
        requires
            kings_present(*b),
            old(list)@.len() <= MAX_MOVES,
        ensures
            adds(
                old(list)@,
                final(list)@,
                |v: u16| capture_ok(*self, *b, *info, target.0, v) && (file_of(move_to(v)) == file_of(move_from(v)) + if west {
                    -1int
                } else {
                    1int
                }),
                full,
            ),
    {
        let ghost old_list = list@;
        let side = self.side();
        let ghost sd = side as int;
        let ghost ok = |v: u16| capture_ok(*self, *b, *info, target.0, v) && (file_of(move_to(v)) == file_of(move_from(v)) + if west {
            -1int
        } else {
            1int
        });
        let delta: i8 = if west {
            if side == 0 { 7 } else { -9 }
        } else {
            if side == 0 { 9 } else { -7 }
        };
        let df: i8 = if west { -1 } else { 1 };
        let last = Self::rank_set(if side == 0 { 7 } else { 0 });
        let pawns = b.pieces.get(2 + side);
        let reached = Self::shift_pawns(pawns, delta, df);
        let caps = reached.and(info.their);
        let tgt = target.and(last.not());
        let tgp = target.and(last);
        let d1 = caps.and(tgt);
        let d2 = caps.and(tgp);
        proof {
            lemma_bits(reached.0, info.their.0);
            lemma_bits(target.0, last.0);
            lemma_bits(caps.0, tgt.0);
            lemma_bits(caps.0, tgp.0);
        }
        let full = self.push_pawn_steps(b, info, list, d1, delta, 0);
        let ghost ok1 = |v: u16| pawn_step_ok(*self, *b, *info, d1.0, delta as int, 0, v);
        let ghost ok2 = |v: u16| pawn_step_ok(*self, *b, *info, d2.0, delta as int, 2, v);
        proof {
            assert forall|v: u16| #[trigger] ok(v) == (ok1(v) || ok2(v)) by {
                lemma_pawn_diagonals(sd, move_from(v), move_to(v));
            }
        }
        if full {
            proof {
                lemma_adds_widen(old_list, list@, ok1, ok);
            }
            return true;
        }
        let ghost mid = list@;
        let full = self.push_pawn_steps(b, info, list, d2, delta, 2);
        proof {
            lemma_adds_union(old_list, mid, list@, ok1, ok2, full);
            lemma_adds_same(old_list, list@, |v: u16| ok1(v) || ok2(v), ok, full);
        }
        full
    }

    /// Pushes the steps of pawns forward: single steps, then promotions, then double steps.
    fn gen_pawn_pushes(&self, b: &Board, info: &PositionInfo, list: &mut InlineBuffer<MAX_MOVES, Move>, target: BB) -> (full: bool)
        requires
            kings_present(*b),
            old(list)@.len() <= MAX_MOVES,
        ensures
            adds(old(list)@, final(list)@, |v: u16| push_ok(*self, *b, *info, target.0, v), full),
    {
        let ghost old_list = list@;
        let side = self.side();
        let ghost ok = |v: u16| push_ok(*self, *b, *info, target.0, v);
        let fwd: i8 = if side == 0 { 8 } else { -8 };
        let last = Self::rank_set(if side == 0 { 7 } else { 0 });
        let third = Self::rank_set(if side == 0 { 2 } else { 5 });
        let pawns = b.pieces.get(2 + side);
        let empty = info.occupied.not();
        let stepped = Self::shift_pawns(pawns, fwd, 0);
        let moved = stepped.and(empty);
        let tgt = target.and(last.not());
        let tgp = target.and(last);
        let d1 = moved.and(tgt);
        let d2 = moved.and(tgp);
        let on_third = moved.and(third);
        let stepped2 = Self::shift_pawns(on_third, fwd, 0);
        let double_moved = stepped2.and(empty);
        let d3 = double_moved.and(tgt);
        proof {
            lemma_bits(stepped.0, info.occupied.0);
            lemma_bits(target.0, last.0);
            lemma_bits(moved.0, tgt.0);
            lemma_bits(moved.0, tgp.0);
            lemma_bits(moved.0, third.0);
            lemma_bits(stepped2.0, info.occupied.0);
            lemma_bits(double_moved.0, tgt.0);
        }
        let ghost ok1 = |v: u16| pawn_step_ok(*self, *b, *info, d1.0, fwd as int, 0, v);
        let ghost ok2 = |v: u16| pawn_step_ok(*self, *b, *info, d2.0, fwd as int, 2, v);
        let ghost ok3 = |v: u16| pawn_step_ok(*self, *b, *info, d3.0, 2 * fwd as int, 1, v);
        proof {
            let sd = side as int;
            assert forall|v: u16| #[trigger] ok1(v) == (is_normal(v) && pawn_push(*self, *b, *info, target.0, move_from(v), move_to(v))
                && !last_rank(sd, move_to(v)) && legal_move(*self, *b, *info, v)) by {}
            assert forall|v: u16| #[trigger] ok2(v) == (promotions_of(move_from(v), move_to(v)).contains(v) && pawn_push(*self, *b, *info, target.0, move_from(v), move_to(v))
                && last_rank(sd, move_to(v)) && legal_move(*self, *b, *info, (move_from(v) + 64 * move_to(v)) as u16)) by {}
            assert forall|v: u16| #[trigger] ok3(v) == (v == move_from(v) + 64 * move_to(v) + DOUBLE_MOVE_PAWN && pawn_double(*self, *b, *info, target.0, move_from(v), move_to(v))
                && legal_move(*self, *b, *info, v)) by {
                let f = move_from(v);
                let t = move_to(v);
                if ok3(v) {
                    assert(bb_has(d3.0, t));
                    assert(shifted(on_third.0, fwd as int, 0, t));
                    assert(bb_has(moved.0, t - fwd));
                    assert(bb_has(third.0, t - fwd));
                    assert(shifted(pawns.0, fwd as int, 0, t - fwd));
                    assert(t - fwd == f + fwd);
                    assert(rank_of(t - fwd) == rank_of(f) + if sd == 0 { 1int } else { -1int });
                }
                if v == f + 64 * t + DOUBLE_MOVE_PAWN && pawn_double(*self, *b, *info, target.0, f, t) {
                    assert(0 <= t - fwd < 64);
                    assert(rank_of(t - fwd) == rank_of(f) + if sd == 0 { 1int } else { -1int });
                    assert(shifted(pawns.0, fwd as int, 0, t - fwd));
                    assert(bb_has(moved.0, t - fwd));
                    assert(bb_has(third.0, t - fwd));
                    assert(bb_has(on_third.0, t - fwd));
                    assert(shifted(on_third.0, fwd as int, 0, t));
                    assert(bb_has(double_moved.0, t));
                    assert(rank_of(t) == rank_of(f) + if sd == 0 { 2int } else { -2int });
                    assert(!bb_has(last.0, t));
                    assert(bb_has(tgt.0, t));
                    assert(bb_has(d3.0, t));
                }
            }
            assert forall|v: u16| #[trigger] ok(v) == (ok1(v) || ok2(v) || ok3(v)) by {}
        }
        let full = self.push_pawn_steps(b, info, list, d1, fwd, 0);
        if full {
            proof {
                lemma_adds_widen(old_list, list@, ok1, ok);
            }
            return true;
        }
        let ghost mid1 = list@;
        let full = self.push_pawn_steps(b, info, list, d2, fwd, 2);
        proof {
            lemma_adds_union(old_list, mid1, list@, ok1, ok2, full);
        }
        if full {
            proof {
                lemma_adds_widen(old_list, list@, |v: u16| ok1(v) || ok2(v), ok);
            }
            return true;
        }
        let ghost mid2 = list@;
        let ghost ok12 = |v: u16| ok1(v) || ok2(v);
        let full = self.push_pawn_steps(b, info, list, d3, 2 * fwd, 1);
        proof {
            lemma_adds_union(old_list, mid2, list@, ok12, ok3, full);
            assert forall|v: u16| #[trigger] ok(v) == (ok12(v) || ok3(v)) by {}
            lemma_adds_same(old_list, list@, |v: u16| ok12(v) || ok3(v), ok, full);
        }
        full
    }

    /// Pushes the en passant captures: that of the pawn west of the pawn that just moved two
    /// squares, then that of the pawn east of it.
    fn gen_en_passant(&self, b: &Board, info: &PositionInfo, list: &mut InlineBuffer<MAX_MOVES, Move>, target: BB) -> (full: bool)
        requires
            kings_present(*b),
            b.state.en_passant <= 8,
            old(list)@.len() <= MAX_MOVES,
        ensures
            adds(old(list)@, final(list)@, |v: u16| en_passant_ok(*self, *b, *info, target.0, v), full),
    {
        let ghost old_list = list@;
        let ghost ok = |v: u16| en_passant_ok(*self, *b, *info, target.0, v);
        let side = self.side();
        let ep = b.state.en_passant;
        if ep == 8 {
            proof {
                lemma_adds_none(old_list, ok);
            }
            return false;
        }
        let c: u8 = if side == 0 { 32 + ep } else { 24 + ep };
        let e: u8 = if side == 0 { c + 8 } else { c - 8 };
        let cs = Square::new(c);
        let es = Square::new(e);
        if !contains(target, es) && !contains(target, cs) {
            proof {
                lemma_adds_none(old_list, ok);
            }
            return false;
        }
        let pawns = b.pieces.get(2 + side);
        let ghost ok1 = |v: u16| ok(v) && move_from(v) == c - 1;
        let ghost ok2 = |v: u16| ok(v) && move_from(v) == c + 1;
        let mut full = false;
        if ep > 0 && contains(pawns, Square::new(c - 1)) {
            let m = Move::en_passant(Square::new(c - 1), es);
            full = self.push_if_legal(b, info, list, m);
            proof {
                assert forall|v: u16| #[trigger] ok1(v) == (v == m@ && legal_move(*self, *b, *info, v)) by {}
                lemma_adds_same(old_list, list@, |v: u16| v == m@ && legal_move(*self, *b, *info, v), ok1, full);
            }
            if full {
                proof {
                    lemma_adds_widen(old_list, list@, ok1, ok);
                }
                return true;
            }
        } else {
            proof {
                assert forall|v: u16| !#[trigger] ok1(v) by {}
                lemma_adds_none(old_list, ok1);
            }
        }
        let ghost mid = list@;
        if ep < 7 && contains(pawns, Square::new(c + 1)) {
            let m = Move::en_passant(Square::new(c + 1), es);
            full = self.push_if_legal(b, info, list, m);
            proof {
                assert forall|v: u16| #[trigger] ok2(v) == (v == m@ && legal_move(*self, *b, *info, v)) by {}
                lemma_adds_same(mid, list@, |v: u16| v == m@ && legal_move(*self, *b, *info, v), ok2, full);
            }
        } else {
            proof {
                assert forall|v: u16| !#[trigger] ok2(v) by {}
                lemma_adds_none(mid, ok2);
            }
        }
        proof {
            lemma_adds_union(old_list, mid, list@, ok1, ok2, full);
            assert forall|v: u16| #[trigger] ok(v) == (ok1(v) || ok2(v)) by {}
            lemma_adds_same(old_list, list@, |v: u16| ok1(v) || ok2(v), ok, full);
        }
        full
    }

    /// Pushes the moves of the pawns to the squares of `target`: captures west, then east
    /// (each followed by its promotions), steps forward, promotions, double steps, and en
    /// passant captures.
    pub fn gen_pawn_moves(&self, b: &Board, info: &PositionInfo, list: &mut InlineBuffer<MAX_MOVES, Move>, target: BB) -> (full: bool)
        requires
            kings_present(*b),
            b.state.en_passant <= 8,
            old(list)@.len() <= MAX_MOVES,
        ensures
            adds(old(list)@, final(list)@, |v: u16| pawn_ok(*self, *b, *info, target.0, v), full),
    {
        let ghost old_list = list@;
        let ghost ok = |v: u16| pawn_ok(*self, *b, *info, target.0, v);
        let ghost okw = |v: u16| capture_ok(*self, *b, *info, target.0, v) && (file_of(move_to(v)) == file_of(move_from(v)) + -1int);
        let ghost oke = |v: u16| capture_ok(*self, *b, *info, target.0, v) && (file_of(move_to(v)) == file_of(move_from(v)) + 1int);
        let ghost okp = |v: u16| push_ok(*self, *b, *info, target.0, v);
        let ghost okx = |v: u16| en_passant_ok(*self, *b, *info, target.0, v);
        let ghost ok1 = |v: u16| okw(v) || oke(v);
        let ghost ok2 = |v: u16| ok1(v) || okp(v);
        let ghost ok3 = |v: u16| ok2(v) || okx(v);
        proof {
            assert forall|v: u16| #[trigger] ok(v) == ok3(v) by {}
        }
        let full = self.gen_pawn_captures_towards(b, info, list, target, true);
        if full {
            proof {
                lemma_adds_widen(old_list, list@, okw, ok);
            }
            return true;
        }
        let ghost m1 = list@;
        let full = self.gen_pawn_captures_towards(b, info, list, target, false);
        proof {
            lemma_adds_union(old_list, m1, list@, okw, oke, full);
        }
        if full {
            proof {
                lemma_adds_widen(old_list, list@, ok1, ok);
            }
            return true;
        }
        let ghost m2 = list@;
        let full = self.gen_pawn_pushes(b, info, list, target);
        proof {
            lemma_adds_union(old_list, m2, list@, ok1, okp, full);
        }
        if full {
            proof {
                lemma_adds_widen(old_list, list@, ok2, ok);
            }
            return true;
        }
        let ghost m3 = list@;
        let full = self.gen_en_passant(b, info, list, target);
        proof {
            lemma_adds_union(old_list, m3, list@, ok2, okx, full);
            lemma_adds_same(old_list, list@, ok3, ok, full);
        }
        full
    }

    /// Pushes the castling moves: towards the king side, then the queen side.
    pub fn gen_castle(&self, b: &Board, info: &PositionInfo, list: &mut InlineBuffer<MAX_MOVES, Move>) -> (full: bool)
        requires
            old(list)@.len() <= MAX_MOVES,
        ensures
            adds(old(list)@, final(list)@, |v: u16| castle_ok(*self, *b, *info, v), full),
    {
        let ghost old_list = list@;
        let ghost ok = |v: u16| castle_ok(*self, *b, *info, v);
        let side = self.side();
        let base: u8 = if side == 0 { 0 } else { 56 };
        let kf: u8 = if side == 0 { 1 } else { 4 };
        let qf: u8 = if side == 0 { 2 } else { 8 };
        let occ = info.occupied;
        let att = info.attacked;
        let from = Square::new(base + 4);
        let king_side = b.state.castle & kf != 0 && !contains(occ, Square::new(base + 5)) && !contains(occ, Square::new(base + 6))
            && !contains(att, Square::new(base + 5)) && !contains(att, Square::new(base + 6));
        let queen_side = b.state.castle & qf != 0 && !contains(occ, Square::new(base + 1)) && !contains(occ, Square::new(base + 2))
            && !contains(occ, Square::new(base + 3)) && !contains(att, Square::new(base + 2)) && !contains(att, Square::new(base + 3));
        let mk = Move::castle(from, Square::new(base + 6));
        let mq = Move::castle(from, Square::new(base + 2));
        let ghost ok1 = |v: u16| v == mk@ && king_side;
        let ghost ok2 = |v: u16| v == mq@ && queen_side;
        proof {
            assert forall|v: u16| #[trigger] ok(v) == (ok1(v) || ok2(v)) by {}
        }
        let mut full = false;
        if king_side {
            full = push_move(list, mk);
            proof {
                if !full {
                    lemma_adds_one(old_list, mk, ok1);
                } else {
                    lemma_adds_full(old_list, mk, ok1);
                }
            }
            if full {
                proof {
                    lemma_adds_widen(old_list, list@, ok1, ok);
                }
                return true;
            }
        } else {
            proof {
                lemma_adds_none(old_list, ok1);
            }
        }
        let ghost mid = list@;
        if queen_side {
            full = push_move(list, mq);
            proof {
                if !full {
                    lemma_adds_one(mid, mq, ok2);
                } else {
                    lemma_adds_full(mid, mq, ok2);
                }
            }
        } else {
            proof {
                lemma_adds_none(mid, ok2);
            }
        }
        proof {
            assert(move_to(mk@) != move_to(mq@));
            lemma_adds_union(old_list, mid, list@, ok1, ok2, full);
            lemma_adds_same(old_list, list@, |v: u16| ok1(v) || ok2(v), ok, full);
        }
        full
    }

    /// Pushes the steps of the king to target squares the other side does not attack.
    fn gen_king_steps(&self, b: &Board, info: &PositionInfo, list: &mut InlineBuffer<MAX_MOVES, Move>, target: BB) -> (full: bool)
        requires
            kings_present(*b),
            old(list)@.len() <= MAX_MOVES,
        ensures
            adds(old(list)@, final(list)@, |v: u16| king_step_ok(*self, *b, *info, target.0, v), full),
    {
        let side = self.side();
        let king_sq = b.pieces.get(side).first_piece();
        proof {
            lemma_lowest(b.pieces.0@[side as int].0);
        }
        let kt = target.and(info.attacked.not());
        let kb = BB::square(king_sq);
        proof {
            let x = b.pieces.0@[side as int].0;
            assert(lowest(x, king_sq@));
            assert(king_sq@ == king_square(b.pieces.0@, side as int));
        }
        let full = self.gen_from_set(b, info, list, kb, 3, kt, false);
        proof {
            lemma_adds_same(
                old(list)@,
                list@,
                |v: u16| from_set_ok(*self, *b, *info, kb.0, 3, kt.0, false, v),
                |v: u16| king_step_ok(*self, *b, *info, target.0, v),
                full,
            );
        }
        full
    }

    /// The squares pawns may go to; see `pawn_target`.
    fn pawn_targets(&self, b: &Board, target: BB) -> (r: BB)
        ensures
            forall|t: int| 0 <= t < 64 ==> (bb_has(r.0, t) <==> bb_has(pawn_target(*self, *b, target.0), t)),
    {
        let side = self.side();
        let opp = 1 - side;
        if !self.gen.checks {
            return target;
        }
        let west: i8 = if opp == 0 { 7 } else { -9 };
        let front = Self::shift_pawns(b.pieces.get(opp), west, -1);
        proof {
            let p = |t: int| shifted(b.pieces.0@[opp as int].0, capture_west(opp as int), -1, t);
            lemma_mask(p);
            lemma_bits(target.0, front.0);
            lemma_bits(target.0, mask(p));
        }
        target.or(front)
    }

    /// The squares knights may go to; see `knight_target`.
    fn knight_targets(&self, b: &Board, target: BB) -> (r: BB)
        requires
            kings_present(*b),
        ensures
            forall|t: int| 0 <= t < 64 ==> (bb_has(r.0, t) <==> bb_has(knight_target(*self, *b, target.0), t)),
    {
        let side = self.side();
        let opp = 1 - side;
        if !self.gen.checks {
            return target;
        }
        let their_king = b.pieces.get(opp).first_piece();
        let near = self.tables.knight_attacks(their_king);
        proof {
            lemma_lowest(b.pieces.0@[opp as int].0);
            let p = |t: int| knight_attack(king_square(b.pieces.0@, opp as int), t);
            lemma_mask(p);
            lemma_bits(target.0, near.0);
            lemma_bits(target.0, mask(p));
        }
        target.or(near)
    }

    /// Pushes the moves when the king is not in check: king steps, pawn moves, knight
    /// moves, slider moves, and castling when quiet moves are wanted.
    pub fn gen_moves_pseudo(&self, b: &Board, info: &PositionInfo, list: &mut InlineBuffer<MAX_MOVES, Move>, target: BB) -> (full: bool)
        requires
            kings_present(*b),
            disjoint_pieces(b@),
            b.state.en_passant <= 8,
            old(list)@.len() <= MAX_MOVES,
        ensures
            adds(old(list)@, final(list)@, |v: u16| pseudo_ok(*self, *b, *info, target.0, v), full),
    {
        let ghost old_list = list@;
        let ghost ok = |v: u16| pseudo_ok(*self, *b, *info, target.0, v);
        let ghost ok1 = |v: u16| king_step_ok(*self, *b, *info, target.0, v);
        let ghost ok2 = |v: u16| pawn_ok(*self, *b, *info, pawn_target(*self, *b, target.0), v);
        let ghost ok3 = |v: u16| from_set_ok(*self, *b, *info, knight_froms(*self, *b, *info), 0, knight_target(*self, *b, target.0), false, v);
        let ghost ok4 = |v: u16| slider_ok(*self, *b, *info, target.0, v);
        let ghost ok5 = |v: u16| self.gen.quiet && castle_ok(*self, *b, *info, v);
        let ghost u2 = |v: u16| ok1(v) || ok2(v);
        let ghost u3 = |v: u16| u2(v) || ok3(v);
        let ghost u4 = |v: u16| u3(v) || ok4(v);
        let ghost u5 = |v: u16| u4(v) || ok5(v);
        proof {
            assert forall|v: u16| #[trigger] ok(v) == u5(v) by {}
            lemma_kinds_apart(
                *self,
                *b,
                *info,
                target.0 & !info.attacked.0,
                pawn_target(*self, *b, target.0),
                knight_target(*self, *b, target.0),
                target.0,
            );
        }
        let full = self.gen_king_steps(b, info, list, target);
        if full {
            proof {
                lemma_adds_widen(old_list, list@, ok1, ok);
            }
            return true;
        }
        let ghost m1 = list@;
        let pt = self.pawn_targets(b, target);
        let full = self.gen_pawn_moves(b, info, list, pt);
        proof {
            assert forall|v: u16| #[trigger] pawn_ok(*self, *b, *info, pt.0, v) == ok2(v) by {}
            lemma_adds_same(m1, list@, |v: u16| pawn_ok(*self, *b, *info, pt.0, v), ok2, full);
            lemma_adds_union(old_list, m1, list@, ok1, ok2, full);
        }
        if full {
            proof {
                lemma_adds_widen(old_list, list@, u2, ok);
            }
            return true;
        }
        let ghost m2 = list@;
        let nt = self.knight_targets(b, target);
        let full = self.gen_moves_knight(b, info, list, nt);
        proof {
            let kf = knight_froms(*self, *b, *info);
            assert forall|v: u16| #[trigger] from_set_ok(*self, *b, *info, kf, 0, nt.0, false, v) == ok3(v) by {}
            lemma_adds_same(m2, list@, |v: u16| from_set_ok(*self, *b, *info, kf, 0, nt.0, false, v), ok3, full);
            lemma_adds_union(old_list, m2, list@, u2, ok3, full);
        }
        if full {
            proof {
                lemma_adds_widen(old_list, list@, u3, ok);
            }
            return true;
        }
        let ghost m3 = list@;
        let full = self.gen_moves_sliders(b, info, list, target);
        proof {
            lemma_adds_union(old_list, m3, list@, u3, ok4, full);
        }
        if full {
            proof {
                lemma_adds_widen(old_list, list@, u4, ok);
            }
            return true;
        }
        let ghost m4 = list@;
        let full = if self.gen.quiet {
            self.gen_castle(b, info, list)
        } else {
            proof {
                lemma_adds_none(m4, ok5);
            }
            false
        };
        proof {
            if self.gen.quiet {
                lemma_adds_same(m4, list@, |v: u16| castle_ok(*self, *b, *info, v), ok5, full);
            }
            lemma_adds_union(old_list, m4, list@, u4, ok5, full);
            lemma_adds_same(old_list, list@, u5, ok, full);
        }
        full
    }

    /// The squares the king in check on `king` may step to; see `evasion_step`.
    fn evasion_steps(&self, b: &Board, info: &PositionInfo, target: BB, king: Square, attackers: BB) -> (r: BB)
        requires
            kings_present(*b),
            king@ == king_square(b.pieces.0@, player_index(self.player)),
            forall|p: int| 0 <= p < 64 ==> (#[trigger] bb_has(attackers.0, p) <==> checker_attack(
                b.pieces.0@,
                info.occupied.0,
                1 - player_index(self.player),
                p,
                king@,
            )),
        ensures
            forall|t: int| 0 <= t < 64 ==> (bb_has(r.0, t) <==> evasion_step(*self, *b, *info, target.0, t)),
    {
        let side = self.side();
        let opp = 1 - side;
        let ghost pcs = b.pieces.0@;
        let ghost occ = info.occupied.0;
        let near = self.tables.king_attacks(king);
        let t1 = near.and(target);
        let base = t1.and(info.attacked.not());
        let leapers = b.pieces.get(6 + opp).or(b.pieces.get(2 + opp));
        let sliding = attackers.and(leapers.not());
        proof {
            lemma_bits(near.0, target.0);
            lemma_bits(t1.0, info.attacked.0);
            lemma_bits(pcs[6 + opp].0, pcs[2 + opp].0);
            lemma_bits(attackers.0, leapers.0);
        }
        let mut km = base;
        let mut p: u8 = 0;
        while p < 64
            invariant
                p <= 64,
                forall|t: int| 0 <= t < 64 ==> (#[trigger] bb_has(km.0, t) <==> (bb_has(base.0, t) && forall|q: int|
                    0 <= q < p && #[trigger] bb_has(sliding.0, q) ==> !(line_has(king@, q, t) && t != q))),
            decreases 64 - p,
        {
            let ps = Square::new(p);
            if contains(sliding, ps) {
                let line = self.tables.line(king, ps);
                let sq = BB::square(ps);
                let cut = line.and(sq.not());
                let before = km;
                proof {
                    lemma_bits(line.0, sq.0);
                    lemma_bits(km.0, cut.0);
                }
                km = km.and(cut.not());
                assert forall|t: int| 0 <= t < 64 implies (#[trigger] bb_has(km.0, t) <==> (bb_has(base.0, t) && forall|q: int|
                    0 <= q < p + 1 && #[trigger] bb_has(sliding.0, q) ==> !(line_has(king@, q, t) && t != q))) by {
                    if bb_has(km.0, t) {
                        assert forall|q: int| 0 <= q < p + 1 && #[trigger] bb_has(sliding.0, q) implies !(line_has(king@, q, t) && t != q) by {
                            if q < p {
                                assert(bb_has(before.0, t));
                            } else {
                                assert(!bb_has(cut.0, t));
                            }
                        }
                    }
                    if bb_has(base.0, t) && forall|q: int| 0 <= q < p + 1 && #[trigger] bb_has(sliding.0, q) ==> !(line_has(king@, q, t) && t != q) {
                        assert(!(line_has(king@, p as int, t) && t != p));
                        assert(!bb_has(cut.0, t));
                    }
                }
            } else {
                assert forall|t: int| 0 <= t < 64 implies (#[trigger] bb_has(km.0, t) <==> (bb_has(base.0, t) && forall|q: int|
                    0 <= q < p + 1 && #[trigger] bb_has(sliding.0, q) ==> !(line_has(king@, q, t) && t != q))) by {
                    if bb_has(km.0, t) {
                        assert forall|q: int| 0 <= q < p + 1 && #[trigger] bb_has(sliding.0, q) implies !(line_has(king@, q, t) && t != q) by {
                            if q == p {
                                assert(!bb_has(sliding.0, p as int));
                            }
                        }
                    }
                }
            }
            p = p + 1;
        }
        proof {
            assert forall|t: int| 0 <= t < 64 implies (bb_has(km.0, t) <==> evasion_step(*self, *b, *info, target.0, t)) by {
                if bb_has(km.0, t) {
                    assert forall|q: int|
                        0 <= q < 64 && #[trigger] checker_attack(pcs, occ, 1 - side as int, q, king@) && !piece_on(pcs, 6 + opp, q)
                            && !piece_on(pcs, 2 + opp, q) implies !(line_has(king@, q, t) && t != q) by {
                        assert(bb_has(sliding.0, q));
                    }
                }
                if evasion_step(*self, *b, *info, target.0, t) {
                    assert forall|q: int| 0 <= q < 64 && #[trigger] bb_has(sliding.0, q) implies !(line_has(king@, q, t) && t != q) by {
                        assert(checker_attack(pcs, occ, 1 - side as int, q, king@));
                    }
                }
            }
        }
        km
    }

    /// Pushes the moves out of check: king steps, then, when a single piece gives check, the
    /// slider, knight and pawn moves that take it or stand between it and the king.
    pub fn gen_evasion(&self, b: &Board, info: &PositionInfo, list: &mut InlineBuffer<MAX_MOVES, Move>, target: BB) -> (full: bool)
        requires
            kings_present(*b),
            disjoint_pieces(b@),
            b.state.en_passant <= 8,
            old(list)@.len() <= MAX_MOVES,
            checked_by(b.pieces.0@, info.occupied.0, 1 - player_index(self.player), king_square(b.pieces.0@, player_index(self.player))),
        ensures
            adds(old(list)@, final(list)@, |v: u16| evasion_ok(*self, *b, *info, target.0, v), full),
    {
        let ghost old_list = list@;
        let ghost ok = |v: u16| evasion_ok(*self, *b, *info, target.0, v);
        let side = self.side();
        let opp = 1 - side;
        let ghost sd = side as int;
        let ghost pcs = b.pieces.0@;
        let king_sq = b.pieces.get(side).first_piece();
        proof {
            lemma_lowest(pcs[sd].0);
            assert(lowest(pcs[sd].0, king_sq@));
            assert(king_sq@ == king_square(pcs, sd));
        }
        let attackers = attackers_of(&self.tables, &b.pieces, opp, king_sq, info.occupied);
        let ghost cs = checkers(*b, *info, sd);
        proof {
            lemma_mask(|p: int| checker_attack(pcs, info.occupied.0, 1 - sd, p, king_square(pcs, sd)));
            assert forall|t: int| 0 <= t < 64 implies (bb_has(attackers.0, t) <==> bb_has(cs, t)) by {}
            lemma_popcount_same(attackers.0, cs, 64);
        }
        let attackers_count = attackers.count();
        let king_moves = self.evasion_steps(b, info, target, king_sq, attackers);
        let kb = BB::square(king_sq);
        let ghost ks = mask(|t: int| evasion_step(*self, *b, *info, target.0, t));
        let ghost ok1 = |v: u16| from_set_ok(*self, *b, *info, 1u64 << (king_square(pcs, sd) as u64), 3, ks, false, v);
        let full = self.gen_from_set(b, info, list, kb, 3, king_moves, false);
        proof {
            lemma_mask(|t: int| evasion_step(*self, *b, *info, target.0, t));
            assert forall|v: u16| #[trigger] from_set_ok(*self, *b, *info, kb.0, 3, king_moves.0, false, v) == ok1(v) by {}
            lemma_adds_same(old_list, list@, |v: u16| from_set_ok(*self, *b, *info, kb.0, 3, king_moves.0, false, v), ok1, full);
        }
        if full {
            proof {
                lemma_adds_widen(old_list, list@, ok1, ok);
            }
            return true;
        }
        if attackers_count > 1 {
            proof {
                assert forall|v: u16| #[trigger] ok(v) == ok1(v) by {}
                lemma_adds_same(old_list, list@, ok1, ok, false);
            }
            return false;
        }
        proof {
            let w = choose|s: int| 0 <= s < 64 && #[trigger] checker_attack(pcs, info.occupied.0, 1 - sd, s, king_sq@);
            assert(bb_has(attackers.0, w));
            lemma_popcount_one(attackers.0, w, 64);
            lemma_nonempty(attackers.0);
        }
        let a = attackers.first_piece();
        proof {
            lemma_single(attackers.0, a@);
            lemma_lowest(cs);
            assert(lowest(cs, a@));
        }
        let knights = b.pieces.get(6 + opp);
        let with_knight = attackers.and(knights);
        proof {
            lemma_bits(attackers.0, knights.0);
            lemma_nonempty(with_knight.0);
        }
        let blockers = if self.gen.quiet && with_knight.none() {
            let between = self.tables.between(a, king_sq);
            proof {
                lemma_bits(attackers.0, between.0);
            }
            attackers.or(between)
        } else {
            attackers
        };
        let ghost tt = mask(|t: int| evasion_target(*self, *b, *info, t));
        proof {
            lemma_mask(|t: int| evasion_target(*self, *b, *info, t));
            assert forall|t: int| 0 <= t < 64 implies (bb_has(blockers.0, t) <==> bb_has(tt, t)) by {
                if bb_has(with_knight.0, a@) {
                }
            }
        }
        let ghost ok2 = |v: u16| slider_ok(*self, *b, *info, tt, v);
        let ghost ok3 = |v: u16| from_set_ok(*self, *b, *info, knight_froms(*self, *b, *info), 0, tt, false, v);
        let ghost ok4 = |v: u16| pawn_ok(*self, *b, *info, tt, v);
        let ghost u2 = |v: u16| ok1(v) || ok2(v);
        let ghost u3 = |v: u16| u2(v) || ok3(v);
        let ghost u4 = |v: u16| u3(v) || ok4(v);
        proof {
            assert forall|v: u16| #[trigger] ok(v) == u4(v) by {}
            lemma_kinds_apart(*self, *b, *info, ks, tt, tt, tt);
        }
        let ghost m1 = list@;
        let full = self.gen_moves_sliders(b, info, list, blockers);
        proof {
            assert forall|v: u16| #[trigger] slider_ok(*self, *b, *info, blockers.0, v) == ok2(v) by {}
            lemma_adds_same(m1, list@, |v: u16| slider_ok(*self, *b, *info, blockers.0, v), ok2, full);
            lemma_adds_union(old_list, m1, list@, ok1, ok2, full);
        }
        if full {
            proof {
                lemma_adds_widen(old_list, list@, u2, ok);
            }
            return true;
        }
        let ghost m2 = list@;
        let full = self.gen_moves_knight(b, info, list, blockers);
        proof {
            let kf = knight_froms(*self, *b, *info);
            assert forall|v: u16| #[trigger] from_set_ok(*self, *b, *info, kf, 0, blockers.0, false, v) == ok3(v) by {}
            lemma_adds_same(m2, list@, |v: u16| from_set_ok(*self, *b, *info, kf, 0, blockers.0, false, v), ok3, full);
            lemma_adds_union(old_list, m2, list@, u2, ok3, full);
        }
        if full {
            proof {
                lemma_adds_widen(old_list, list@, u3, ok);
            }
            return true;
        }
        let ghost m3 = list@;
        let full = self.gen_pawn_moves(b, info, list, blockers);
        proof {
            assert forall|v: u16| #[trigger] pawn_ok(*self, *b, *info, blockers.0, v) == ok4(v) by {}
            lemma_adds_same(m3, list@, |v: u16| pawn_ok(*self, *b, *info, blockers.0, v), ok4, full);
            lemma_adds_union(old_list, m3, list@, u3, ok4, full);
            lemma_adds_same(old_list, list@, u4, ok, full);
        }
        full
    }

    /// Pushes the moves of the side to move in the position; see `moves_ok`. The list gains
    /// the moves `moves_ok` accepts, each once, and reports whether it filled up first. The
    /// board's bitboards must not share a square (else a move could come twice), and a king
    /// on an attacked square must be checked by a piece other than the other king
    /// (`check_is_real`): the evasion step asserts that some such piece gives check, and
    /// stops the program where none does.
    pub fn gen_moves_info(&self, b: &Board, info: &PositionInfo, list: &mut InlineBuffer<MAX_MOVES, Move>) -> (full: bool)
        requires
            kings_present(*b),
            disjoint_pieces(b@),
            b.state.en_passant <= 8,
            old(list)@.len() <= MAX_MOVES,
            check_is_real(*self, *b, *info),
        ensures
            adds(old(list)@, final(list)@, |v: u16| moves_ok(*self, *b, *info, v), full),
    {
        let side = self.side();
        let target = if self.gen.quiet {
            info.my.not()
        } else {
            info.their
        };
        let checked = info.attacked.and(b.pieces.get(side));
        if checked.any() {
            let full = self.gen_evasion(b, info, list, target);
            proof {
                lemma_adds_same(
                    old(list)@,
                    list@,
                    |v: u16| evasion_ok(*self, *b, *info, target.0, v),
                    |v: u16| moves_ok(*self, *b, *info, v),
                    full,
                );
            }
            full
        } else {
            let full = self.gen_moves_pseudo(b, info, list, target);
            proof {
                lemma_adds_same(
                    old(list)@,
                    list@,
                    |v: u16| pseudo_ok(*self, *b, *info, target.0, v),
                    |v: u16| moves_ok(*self, *b, *info, v),
                    full,
                );
            }
            full
        }
    }

    /// Whether a piece of the given kind on a square of `froms` reaches a square of `blk`.
    fn reaches_any(&self, froms: BB, kind: u8, occ: BB, blk: BB) -> (r: bool)
        ensures
            r == reaches_set(froms.0, kind, occ.0, |t: int| bb_has(blk.0, t)),
    {
        let ghost p = |t: int| bb_has(blk.0, t);
        let mut f: u8 = 0;
        while f < 64
            invariant
                f <= 64,
                p == (|t: int| bb_has(blk.0, t)),
                !exists|a: int, t: int| 0 <= a < f && 0 <= t < 64 && bb_has(froms.0, a) && #[trigger] reach(kind, a, t, occ.0) && p(t),
            decreases 64 - f,
        {
            let fs = Square::new(f);
            if contains(froms, fs) {
                let reached = self.reach_set(kind, fs, occ);
                let seen = reached.and(blk);
                proof {
                    lemma_bits(reached.0, blk.0);
                }
                if seen.any() {
                    proof {
                        lemma_nonempty(seen.0);
                        let t = choose|t: int| 0 <= t < 64 && #[trigger] bb_has(seen.0, t);
                        assert(reach(kind, f as int, t, occ.0) && p(t));
                    }
                    return true;
                } else {
                    proof {
                        lemma_nonempty(seen.0);
                        assert forall|a: int, t: int| 0 <= a < f + 1 && 0 <= t < 64 && bb_has(froms.0, a) && #[trigger] reach(kind, a, t, occ.0) implies !p(t) by {
                            if a == f {
                                assert(!bb_has(seen.0, t));
                            }
                        }
                    }
                }
            } else {
                proof {
                    assert forall|a: int, t: int| 0 <= a < f + 1 && 0 <= t < 64 && bb_has(froms.0, a) && #[trigger] reach(kind, a, t, occ.0) implies !p(t) by {
                        if a == f {
                            assert(!bb_has(froms.0, f as int));
                        }
                    }
                }
            }
            f = f + 1;
        }
        false
    }

    /// Whether no piece of the side to move stops the single check; see
    /// `single_check_holds`.
    #[verifier::rlimit(40)]
    fn single_check_holds_exec(&self, b: &Board, info: &PositionInfo, king_sq: Square, attackers: BB) -> (r: bool)
        requires
            kings_present(*b),
            king_sq@ == king_square(b.pieces.0@, player_index(self.player)),
            forall|t: int| 0 <= t < 64 ==> (bb_has(attackers.0, t) <==> bb_has(checkers(*b, *info, player_index(self.player)), t)),
            popcount(checkers(*b, *info, player_index(self.player))) == 1,
        ensures
            r == single_check_holds(*self, *b, *info),
    {
        let side = self.side();
        let opp = 1 - side;
        let ghost sd = side as int;
        let ghost pcs = b.pieces.0@;
        let ghost occ = info.occupied.0;
        let ghost cs = checkers(*b, *info, sd);
        proof {
            lemma_popcount_same(attackers.0, cs, 64);
            if attackers.0 == 0 {
                lemma_popcount_zero(64);
            }
            lemma_lowest(cs);
        }
        let a = attackers.first_piece();
        proof {
            assert forall|t: int| 0 <= t < a@ implies !bb_has(cs, t) by {
                assert(!bb_has(attackers.0, t));
            }
            assert(lowest(cs, a@));
            assert(a@ == choose|p: int| lowest(cs, p));
            lemma_single(cs, a@);
        }
        let knight_check = contains(b.pieces.get(6 + opp), a);
        let blocking = if knight_check {
            proof {
                lemma_empty();
            }
            BB::empty()
        } else {
            self.tables.between(a, king_sq)
        };
        let blockers = attackers.or(blocking);
        proof {
            lemma_bits(attackers.0, blocking.0);
            assert forall|t: int| 0 <= t < 64 implies (bb_has(blocking.0, t) == check_line(*self, *b, *info, t)) by {}
            let blk = |t: int| bb_has(cs, t) || check_line(*self, *b, *info, t);
            let p = |t: int| bb_has(blockers.0, t);
            lemma_reaches_same(pcs[10 + sd].0 | pcs[4 + sd].0, 1, occ, p, blk);
            lemma_reaches_same(pcs[10 + sd].0 | pcs[8 + sd].0, 2, occ, p, blk);
            lemma_reaches_same(pcs[6 + sd].0, 0, occ, p, blk);
        }
        let ps = &b.pieces;
        if self.reaches_any(ps.get(10 + side).or(ps.get(4 + side)), 1, info.occupied, blockers) {
            return false;
        }
        if self.reaches_any(ps.get(10 + side).or(ps.get(8 + side)), 2, info.occupied, blockers) {
            return false;
        }
        if self.reaches_any(ps.get(6 + side), 0, info.occupied, blockers) {
            return false;
        }
        let pawns = ps.get(2 + side);
        let west: i8 = if side == 0 { 7 } else { -9 };
        let east: i8 = if side == 0 { 9 } else { -7 };
        let w = Self::shift_pawns(pawns, west, -1);
        let e = Self::shift_pawns(pawns, east, 1);
        let takes = w.or(e).and(attackers);
        proof {
            lemma_bits(w.0, e.0);
            lemma_bits(w.0 | e.0, attackers.0);
            lemma_nonempty(takes.0);
            if takes.0 != 0 {
                let t = choose|t: int| 0 <= t < 64 && #[trigger] bb_has(takes.0, t);
                assert(bb_has(cs, t) && (shifted(pawns.0, capture_west(sd), -1, t) || shifted(pawns.0, capture_east(sd), 1, t)));
            }
        }
        if takes.any() {
            proof {
                let t = choose|t: int| 0 <= t < 64 && #[trigger] bb_has(takes.0, t);
                assert(bb_has(cs, t) && (shifted(pawns.0, capture_west(sd), -1, t) || shifted(pawns.0, capture_east(sd), 1, t)));
                assert(exists|t: int| 0 <= t < 64 && bb_has(cs, t) && (#[trigger] shifted(pawns.0, capture_west(sd), -1, t)
                    || shifted(pawns.0, capture_east(sd), 1, t)));
                assert(pawns.0 == pcs[2 + sd].0);
                assert(!single_check_holds(*self, *b, *info));
            }
            return false;
        }
        proof {
            assert forall|t: int| 0 <= t < 64 && bb_has(cs, t) implies !(#[trigger] shifted(pawns.0, capture_west(sd), -1, t)
                || shifted(pawns.0, capture_east(sd), 1, t)) by {
                assert(!bb_has(takes.0, t));
            }
        }
        proof {
            lemma_nonempty(blocking.0);
        }
        if blocking.none() {
            proof {
                assert forall|t: int| 0 <= t < 64 implies !#[trigger] check_line(*self, *b, *info, t) by {
                    assert(!bb_has(blocking.0, t));
                }
            }
            return true;
        }
        let fwd: i8 = if side == 0 { 8 } else { -8 };
        let moved = Self::shift_pawns(pawns, fwd, 0);
        let step_in = moved.and(blocking);
        proof {
            lemma_bits(moved.0, blocking.0);
            lemma_nonempty(step_in.0);
            if step_in.0 != 0 {
                let t = choose|t: int| 0 <= t < 64 && #[trigger] bb_has(step_in.0, t);
                assert(shifted(pawns.0, fwd as int, 0, t) && check_line(*self, *b, *info, t));
            }
        }
        if step_in.any() {
            proof {
                let t = choose|t: int| 0 <= t < 64 && #[trigger] bb_has(step_in.0, t);
                assert(shifted(pawns.0, fwd as int, 0, t) && check_line(*self, *b, *info, t));
                assert(fwd as int == forward(sd));
                assert(pawns.0 == pcs[2 + sd].0);
                assert(shifted(pcs[2 + sd].0, forward(sd), 0, t));
                lemma_step_blocks(*self, *b, *info, t);
            }
            return false;
        }
        proof {
            assert forall|t: int| 0 <= t < 64 && #[trigger] shifted(pawns.0, fwd as int, 0, t) implies !check_line(*self, *b, *info, t) by {
                assert(!bb_has(step_in.0, t));
            }
        }
        let third = Self::rank_set(if side == 0 { 2 } else { 5 });
        let free = moved.and(info.occupied.not());
        let second = free.and(third);
        let dbl = Self::shift_pawns(second, fwd, 0);
        let dbl_in = dbl.and(blocking);
        proof {
            lemma_bits(moved.0, info.occupied.0);
            lemma_bits(free.0, third.0);
            lemma_bits(dbl.0, blocking.0);
            assert(fwd as int == forward(sd));
            assert(pawns.0 == pcs[2 + sd].0);
            let third_i = third_rank(sd);
            let sp = |m: int| shifted(pcs[2 + sd].0, forward(sd), 0, m) && !bb_has(info.occupied.0, m) && rank_of(m) == third_i;
            lemma_mask(sp);
            assert(mask(sp) == pawns_before_double(pcs[2 + sd].0, forward(sd), info.occupied.0, third_i));
            assert forall|t: int| 0 <= t < 64 implies (#[trigger] shifted(second.0, fwd as int, 0, t) == shifted(mask(sp), fwd as int, 0, t)) by {}
            lemma_nonempty(dbl_in.0);
            if dbl_in.0 != 0 {
                let t = choose|t: int| 0 <= t < 64 && #[trigger] bb_has(dbl_in.0, t);
                assert(shifted(mask(sp), fwd as int, 0, t) && check_line(*self, *b, *info, t));
                assert(shifted(mask(sp), forward(sd), 0, t));
                let sec = pawns_before_double(pcs[2 + sd].0, forward(sd), info.occupied.0, third_i);
                assert(shifted(sec, forward(sd), 0, t));
                assert(check_line(*self, *b, *info, t));
                lemma_double_blocks(*self, *b, *info, t);
            } else {
                assert forall|t: int| 0 <= t < 64 && #[trigger] shifted(mask(sp), fwd as int, 0, t) implies !check_line(*self, *b, *info, t) by {
                    assert(!bb_has(dbl_in.0, t));
                }
                assert(single_check_holds(*self, *b, *info));
            }
        }
        !dbl_in.any()
    }

    /// Whether the side to move is mated; see `mate_spec`.
    pub fn is_checkmate(&self, b: &Board, info: &PositionInfo) -> (r: bool)
        requires
            kings_present(*b),
        ensures
            r == mate_spec(*self, *b, *info),
    {
        let side = self.side();
        let opp = 1 - side;
        let ghost sd = side as int;
        let ghost pcs = b.pieces.0@;
        let king_sq = b.pieces.get(side).first_piece();
        proof {
            lemma_lowest(pcs[sd].0);
            assert(lowest(pcs[sd].0, king_sq@));
            assert(king_sq@ == king_square(pcs, sd));
        }
        let attackers = attackers_of(&self.tables, &b.pieces, opp, king_sq, info.occupied);
        let ghost cs = checkers(*b, *info, sd);
        proof {
            lemma_mask(|p: int| checker_attack(pcs, info.occupied.0, 1 - sd, p, king_square(pcs, sd)));
            assert forall|t: int| 0 <= t < 64 implies (bb_has(attackers.0, t) <==> bb_has(cs, t)) by {}
            lemma_popcount_same(attackers.0, cs, 64);
        }
        let attackers_count = attackers.count();
        if attackers_count == 0 {
            return false;
        }
        let king_moves = self.evasion_steps(b, info, info.my.not(), king_sq, attackers);
        proof {
            lemma_nonempty(king_moves.0);
            if king_moves.0 != 0 {
                let t = choose|t: int| 0 <= t < 64 && #[trigger] bb_has(king_moves.0, t);
                assert(evasion_step(*self, *b, *info, !info.my.0, t));
            }
        }
        if king_moves.any() {
            return false;
        }
        proof {
            assert forall|t: int| 0 <= t < 64 implies !#[trigger] evasion_step(*self, *b, *info, !info.my.0, t) by {
                assert(!bb_has(king_moves.0, t));
            }
        }
        if attackers_count > 1 {
            return true;
        }
        self.single_check_holds_exec(b, info, king_sq, attackers)
    }

    /// The squares of `pawns` moved by `delta` indices, those whose file changes by other
    /// than `df` left out.
    fn shift_pawns(pawns: BB, delta: i8, df: i8) -> (r: BB)
        ensures
            forall|t: int| 0 <= t < 64 ==> (bb_has(r.0, t) <==> shifted(pawns.0, delta as int, df as int, t)),
    {
        let mut m: u64 = 0;
        let mut rest = pawns;
        let mut lo: u8 = 0;
        proof {
            lemma_empty();
        }
        while rest.any()
            invariant
                lo <= 64,
                forall|k: int| 0 <= k < 64 ==> (#[trigger] bb_has(rest.0, k) <==> (bb_has(pawns.0, k) && k >= lo)),
                forall|k: int|
                    0 <= k < 64 ==> (#[trigger] bb_has(m, k) <==> (shifted(pawns.0, delta as int, df as int, k) && k - delta < lo)),
            decreases 64 - lo,
        {
            let ps = rest.first_piece();
            let p = ps.get();
            let t: i32 = p as i32 + delta as i32;
            let ghost before = m;
            let hit = 0 <= t && t < 64 && t % 8 == (p as i32) % 8 + df as i32;
            if hit {
                m = add_if(m, t as u8, true);
            }
            proof {
                assert forall|k: int| 0 <= k < 64 implies (#[trigger] bb_has(m, k) <==> (shifted(
                    pawns.0,
                    delta as int,
                    df as int,
                    k,
                ) && k - delta < p + 1)) by {
                    if shifted(pawns.0, delta as int, df as int, k) && lo <= k - delta < p {
                        assert(bb_has(rest.0, k - delta));
                    }
                }
            }
            lo = p + 1;
            rest = without(rest, ps);
        }
        proof {
            assert forall|k: int| 0 <= k < 64 implies (bb_has(m, k) <==> shifted(pawns.0, delta as int, df as int, k)) by {
                if shifted(pawns.0, delta as int, df as int, k) && k - delta >= lo {
                    assert(bb_has(rest.0, k - delta));
                }
            }
        }
        BB(m)
    }

    /// Pushes the move of the given shape of the pawn from `from` to `to`, a square of
    /// `dests` that lies `delta` indices after it, when the legality test keeps it.
    #[verifier::rlimit(60)]
    fn push_pawn_step(
        &self,
        b: &Board,
        info: &PositionInfo,
        list: &mut InlineBuffer<MAX_MOVES, Move>,
        dests: BB,
        delta: i8,
        shape: u8,
        from: Square,
        to: Square,
    ) -> (full: bool)
        requires
            kings_present(*b),
            old(list)@.len() <= MAX_MOVES,
            bb_has(dests.0, to@),
            from@ == to@ - delta,
            shape <= 2,
        ensures
            adds(
                old(list)@,
                final(list)@,
                |v: u16| pawn_step_ok(*self, *b, *info, dests.0, delta as int, shape, v) && move_to(v) == to@,
                full,
            ),
    {
        let ghost side = player_index(self.player);
        let ghost mid = list@;
        let ghost ok = |v: u16| pawn_step_ok(*self, *b, *info, dests.0, delta as int, shape, v) && move_to(v) == to@;
        proof {
            lemma_lowest(b.pieces.0@[side].0);
        }
        let normal = Move::normal(from, to);
        let m = if shape == 1 {
            Move::double_pawn(from, to)
        } else {
            normal
        };
        let keep = if shape == 2 {
            self.is_legal(normal, b, info)
        } else {
            self.is_legal(m, b, info)
        };
        if !keep {
            proof {
                assert forall|v: u16| !#[trigger] ok(v) by {
                    if ok(v) {
                        assert(move_from(v) == from@);
                    }
                }
                lemma_adds_none(mid, ok);
            }
            return false;
        }
        if shape == 2 {
            let full = self.gen_promotions(from, to, list);
            assert(adds(mid, list@, ok, full)) by {
                let here = |v: u16| promotions_of(from@, to@).contains(v);
                assert forall|v: u16| #[trigger] here(v) == ok(v) by {
                    if here(v) {
                        let k = choose|k: int| 0 <= k < 4 && promotions_of(from@, to@)[k] == v;
                        assert(0 <= k < 4);
                    }
                }
                lemma_adds_same(mid, list@, here, ok, full);
            }
            full
        } else {
            let full = push_move(list, m);
            assert(adds(mid, list@, ok, full)) by {
                let here = |v: u16| v == m@;
                if !full {
                    lemma_adds_one(mid, m, here);
                } else {
                    lemma_adds_full(mid, m, here);
                }
                assert forall|v: u16| #[trigger] here(v) == ok(v) by {}
                lemma_adds_same(mid, list@, here, ok, full);
            }
            full
        }
    }

    /// Pushes, for each square `t` of `dests` in increasing order, the move of the pawn
    /// from `t - delta` to `t` of the given shape (0 a single step, 1 a double step, 2 the
    /// four promotions), when the legality test keeps it: whether the list filled up.
    fn push_pawn_steps(
        &self,
        b: &Board,
        info: &PositionInfo,
        list: &mut InlineBuffer<MAX_MOVES, Move>,
        dests: BB,
        delta: i8,
        shape: u8,
    ) -> (full: bool)
        requires
            kings_present(*b),
            old(list)@.len() <= MAX_MOVES,
            forall|t: int| 0 <= t < 64 && bb_has(dests.0, t) ==> 0 <= t - delta < 64,
            shape <= 2,
        ensures
            adds(old(list)@, final(list)@, |v: u16| pawn_step_ok(*self, *b, *info, dests.0, delta as int, shape, v), full),
    {
        let ghost old_list = list@;
        let ghost side = player_index(self.player);
        let ghost ok = |v: u16| pawn_step_ok(*self, *b, *info, dests.0, delta as int, shape, v);
        proof {
            lemma_lowest(b.pieces.0@[side].0);
            lemma_adds_none(old_list, |v: u16| ok(v) && move_to(v) < 0);
        }
        let mut t: u8 = 0;
        let mut rest = dests;
        proof {
            lemma_empty();
        }
        while rest.any()
            invariant
                t <= 64,
                forall|k: int| 0 <= k < 64 ==> (#[trigger] bb_has(rest.0, k) <==> (bb_has(dests.0, k) && k >= t)),
                old_list == old(list)@,
                kings_present(*b),
                side == player_index(self.player),
                lowest(b.pieces.0@[side].0, king_square(b.pieces.0@, side)),
                forall|t: int| 0 <= t < 64 && bb_has(dests.0, t) ==> 0 <= t - delta < 64,
                shape <= 2,
                ok == (|v: u16| pawn_step_ok(*self, *b, *info, dests.0, delta as int, shape, v)),
                adds(old_list, list@, |v: u16| ok(v) && move_to(v) < t, false),
            decreases 64 - t,
        {
            let ts = rest.first_piece();
            proof {
                let lo = |v: u16| ok(v) && move_to(v) < t;
                let hi = |v: u16| ok(v) && move_to(v) < ts@;
                assert forall|v: u16| #[trigger] lo(v) == hi(v) by {
                    if hi(v) && move_to(v) >= t {
                        assert(bb_has(rest.0, move_to(v)));
                    }
                }
                lemma_adds_same(old_list, list@, lo, hi, false);
            }
            t = ts.get();
            let ghost mid = list@;
            let ghost ok_lt = |v: u16| ok(v) && move_to(v) < t;
            let ghost ok_next = |v: u16| ok(v) && move_to(v) < t + 1;
            if contains(dests, ts) {
                let from = Square::new((t as i32 - delta as i32) as u8);
                let full = self.push_pawn_step(b, info, list, dests, delta, shape, from, ts);
                let ghost here = |v: u16| pawn_step_ok(*self, *b, *info, dests.0, delta as int, shape, v) && move_to(v) == t;
                proof {
                    lemma_adds_union(old_list, mid, list@, ok_lt, here, full);
                }
                if full {
                    proof {
                        assert forall|v: u16| ok_lt(v) || #[trigger] here(v) implies ok(v) by {}
                        lemma_adds_widen(old_list, list@, |v: u16| ok_lt(v) || here(v), ok);
                    }
                    return true;
                }
                proof {
                    assert forall|v: u16| #[trigger] ok_next(v) == (ok_lt(v) || here(v)) by {}
                    lemma_adds_same(old_list, list@, |v: u16| ok_lt(v) || here(v), ok_next, false);
                }
            } else {
                proof {
                    assert forall|v: u16| #[trigger] ok_lt(v) == ok_next(v) by {
                        if ok_next(v) && move_to(v) == t {
                            assert(bb_has(dests.0, t as int));
                        }
                    }
                    lemma_adds_same(old_list, list@, ok_lt, ok_next, false);
                }
            }
            t = t + 1;
            rest = without(rest, ts);
        }
        proof {
            assert forall|v: u16| #[trigger] ok(v) == (ok(v) && move_to(v) < t) by {
                if ok(v) && move_to(v) >= t {
                    assert(bb_has(rest.0, move_to(v)));
                }
            }
            lemma_adds_same(old_list, list@, |v: u16| ok(v) && move_to(v) < t, ok, false);
        }
        false
    }

    /// Generate promotions: the move from `from` to `to` promoting to a queen, a rook, a
    /// knight and a bishop, in that order, as long as the list has room: whether it filled
    /// up. Caller should check if the promotions are legal.
    pub fn gen_promotions(&self, from: Square, to: Square, list: &mut InlineBuffer<MAX_MOVES, Move>) -> (full: bool)
        requires
            old(list)@.len() <= MAX_MOVES,
        ensures
            adds(old(list)@, final(list)@, |v: u16| promotions_of(from@, to@).contains(v), full),
            full <==> old(list)@.len() + 4 > MAX_MOVES,
            final(list)@.len() == if full { MAX_MOVES as int } else { old(list)@.len() + 4int },
            forall|k: int|
                0 <= k < final(list)@.len() - old(list)@.len() ==> (#[trigger] final(list)@[old(list)@.len() + k])@
                    == promotions_of(from@, to@)[k],
    {
        let ghost a = list@;
        let ghost ps = promotions_of(from@, to@);
        let ms = [
            Move::promotion(from, to, Promotion::Queen),
            Move::promotion(from, to, Promotion::Rook),
            Move::promotion(from, to, Promotion::Knight),
            Move::promotion(from, to, Promotion::Bishop),
        ];
        assert(forall|k: int| 0 <= k < 4 ==> (#[trigger] ms@[k])@ == ps[k]);
        assert(forall|k1: int, k2: int| 0 <= k1 < k2 < 4 ==> #[trigger] ps[k1] != #[trigger] ps[k2]);
        let mut i: usize = 0;
        while i < 4
            invariant
                i <= 4,
                a == old(list)@,
                ps == promotions_of(from@, to@),
                forall|k: int| 0 <= k < 4 ==> (#[trigger] ms@[k])@ == ps[k],
                forall|k1: int, k2: int| 0 <= k1 < k2 < 4 ==> #[trigger] ps[k1] != #[trigger] ps[k2],
                list@.len() == a.len() + i,
                list@.len() <= MAX_MOVES,
                list@.subrange(0, a.len() as int) == a,
                forall|k: int| 0 <= k < i ==> (#[trigger] list@[a.len() + k])@ == ps[k],
            decreases 4 - i,
        {
            let ghost before = list@;
            let full = push_move(list, ms[i]);
            if full {
                proof {
                    let ok = |v: u16| ps.contains(v);
                    assert forall|j: int| a.len() <= j < list@.len() implies #[trigger] ok(list@[j]@) by {
                        let k = j - a.len();
                        assert((list@[a.len() + k])@ == ps[k]);
                        assert(ps[k] == list@[j]@);
                    }
                    assert(a.len() + i == MAX_MOVES);
                    assert forall|j1: int, j2: int| a.len() <= j1 < j2 < list@.len() implies list@[j1]@ != list@[j2]@ by {
                        assert((list@[a.len() + (j1 - a.len())])@ == ps[j1 - a.len()]);
                        assert((list@[a.len() + (j2 - a.len())])@ == ps[j2 - a.len()]);
                    }
                    let w = ps[i as int];
                    assert forall|j: int| a.len() <= j < list@.len() implies #[trigger] list@[j]@ != w by {
                        assert((list@[a.len() + (j - a.len())])@ == ps[j - a.len()]);
                    }
                    assert(ok(w));
                    assert(left_out(a, list@, w));
                }
                return true;
            }
            proof {
                assert(list@.subrange(0, a.len() as int) =~= before.subrange(0, a.len() as int));
                assert forall|k: int| 0 <= k < i + 1 implies (#[trigger] list@[a.len() + k])@ == ps[k] by {
                    if k < i {
                        assert(list@[a.len() + k] == before[a.len() + k]);
                    }
                }
            }
            i = i + 1;
        }
        proof {
            let ok = |v: u16| ps.contains(v);
            assert forall|j: int| a.len() <= j < list@.len() implies #[trigger] ok(list@[j]@) by {
                let k = j - a.len();
                assert((list@[a.len() + k])@ == ps[k]);
                assert(ps[k] == list@[j]@);
            }
            assert forall|v: u16| #[trigger] ok(v) implies exists|j: int| a.len() <= j < list@.len() && list@[j]@ == v by {
                let k = choose|k: int| 0 <= k < ps.len() && ps[k] == v;
                assert(list@[a.len() + k]@ == v);
            }
            assert forall|j1: int, j2: int| a.len() <= j1 < j2 < list@.len() implies list@[j1]@ != list@[j2]@ by {
                assert((list@[a.len() + (j1 - a.len())])@ == ps[j1 - a.len()]);
                assert((list@[a.len() + (j2 - a.len())])@ == ps[j2 - a.len()]);
            }
        }
        false
    }
}

} // verus!
