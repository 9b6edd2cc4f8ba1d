//! The moves the generator gives can be made and undone.
use vstd::prelude::*;
use super::attacks::{
    checked_by, checker_attack, king_square, lemma_bits, lemma_lowest, lemma_mask, lemma_single, lowest, mask,
    pawn_attack, piece_on,
};
use super::generator::{
    castle_ok, checkers, en_passant_ok, evasion_ok, evasion_step, evasion_target, from_set_ok, gen_target, is_normal,
    knight_froms, moves_ok, pawn_ok, pawn_target, position_info_spec, promotions_of, pseudo_ok,
    side_union, slider_ok, GenType, PositionInfo, TypedMoveGenerator, pawn_capture, pawn_push,
    pawn_double, forward, last_rank,
};
use super::tables::{between_has, king_attack, knight_attack, Tables};
use crate::chess_core::mov::{lemma_pack, move_from, move_to, move_ty, Move, INVALID, NULL, TYPE_CASTLE, TYPE_EN_PASSANT, TYPE_NORMAL, TYPE_PROMOTION};
use crate::common::bb::{bb_has, lemma_square_bit, popcount};
use crate::common::board::{can_make, made, reversible_move, unmade, valid_position, well_formed, Board, BoardModel};
use crate::common::hash::HashTables;
use crate::common::board_laws::{lemma_unmake_restores_board, restorable};
use crate::common::make_laws::{lands_cleanly, lemma_make_keeps_valid};
use crate::common::misc::{player_index, Player};
use crate::common::piece::{content_index, content_of_index, SquareContent};

verus! {

/// Whether a square's content is a piece of `side`.
pub open spec fn owned_by(c: SquareContent, side: int) -> bool {
    content_index(c) < 12 && content_index(c) % 2 == side
}

/// Whether the castling rights match where the kings and rooks stand: a right is kept only
/// while the king and that rook are on their first squares.
pub open spec fn castle_rights_match(b: BoardModel) -> bool {
    &&& b.state.castle & 1 != 0 ==> b.squares[4] == SquareContent::WhiteKing && b.squares[7] == SquareContent::WhiteRook
    &&& b.state.castle & 2 != 0 ==> b.squares[4] == SquareContent::WhiteKing && b.squares[0] == SquareContent::WhiteRook
    &&& b.state.castle & 4 != 0 ==> b.squares[60] == SquareContent::BlackKing && b.squares[63] == SquareContent::BlackRook
    &&& b.state.castle & 8 != 0 ==> b.squares[60] == SquareContent::BlackKing && b.squares[56] == SquareContent::BlackRook
}

/// Whether the en passant state matches the board: the pawn that just moved two squares
/// stands on its file, and the square it crossed is empty.
pub open spec fn en_passant_matches(b: BoardModel) -> bool {
    let ep = b.state.en_passant as int;
    ep < 8 ==> match b.state.player {
        Player::White => b.squares[32 + ep] == SquareContent::BlackPawn && b.squares[40 + ep] == SquareContent::Empty,
        Player::Black => b.squares[24 + ep] == SquareContent::WhitePawn && b.squares[16 + ep] == SquareContent::Empty,
    }
}

/// Whether a position can arise in play: a valid board with one king of each colour, the
/// king of the side that just moved not attacked, the kings apart, and the castling rights
/// and the en passant state matching the board.
pub open spec fn playable(b: Board) -> bool {
    let pcs = b.pieces.0@;
    let side = player_index(b.state.player);
    let opp = 1 - side;
    let occ = side_union(pcs, side) | side_union(pcs, opp);
    &&& well_formed(b@)
    &&& popcount(pcs[0].0) == 1
    &&& popcount(pcs[1].0) == 1
    &&& !checked_by(pcs, occ, side, king_square(pcs, opp))
    &&& !king_attack(king_square(pcs, side), king_square(pcs, opp))
    &&& castle_rights_match(b@)
    &&& en_passant_matches(b@)
}

/// What the position info and a valid board tell of each square.
proof fn lemma_board_facts(b: Board, info: PositionInfo)
    requires
        playable(b),
        position_info_spec(b.pieces.0@, player_index(b.state.player), info),
    ensures
        forall|s: int| 0 <= s < 64 ==> (bb_has(info.occupied.0, s) <==> #[trigger] b.squares.0@[s] != SquareContent::Empty),
        forall|s: int| 0 <= s < 64 ==> (bb_has(info.my.0, s) <==> owned_by(#[trigger] b.squares.0@[s], player_index(b.state.player))),
        forall|s: int|
            0 <= s < 64 ==> (bb_has(info.their.0, s) <==> owned_by(#[trigger] b.squares.0@[s], 1 - player_index(b.state.player))),
        forall|p: int, s: int|
            0 <= p < 12 && 0 <= s < 64 ==> (#[trigger] piece_on(b.pieces.0@, p, s) <==> content_index(b.squares.0@[s]) == p),
        lowest(b.pieces.0@[player_index(b.state.player)].0, king_square(b.pieces.0@, player_index(b.state.player))),
        lowest(b.pieces.0@[1 - player_index(b.state.player)].0, king_square(b.pieces.0@, 1 - player_index(b.state.player))),
        forall|s: int|
            0 <= s < 64 && content_index(#[trigger] b.squares.0@[s]) == 1 - player_index(b.state.player) ==> s == king_square(
                b.pieces.0@,
                1 - player_index(b.state.player),
            ),
        forall|s: int|
            0 <= s < 64 && content_index(#[trigger] b.squares.0@[s]) == player_index(b.state.player) ==> s == king_square(
                b.pieces.0@,
                player_index(b.state.player),
            ),
{
    let pcs = b.pieces.0@;
    let sq = b.squares.0@;
    let side = player_index(b.state.player);
    let opp = 1 - side;
    assert(b@.pieces == pcs && b@.squares == sq);
    assert forall|p: int, s: int| 0 <= p < 12 && 0 <= s < 64 implies (#[trigger] piece_on(pcs, p, s) <==> content_index(sq[s])
        == p) by {
        assert(bb_has(b@.pieces[p].0, s) <==> content_index(b@.squares[s]) == p);
    }
    assert forall|x: int| 0 <= x < 2 implies pcs[x].0 != 0 && lowest(pcs[x].0, king_square(pcs, x)) && forall|s: int|
        0 <= s < 64 ==> (#[trigger] bb_has(pcs[x].0, s) <==> s == king_square(pcs, x)) by {
        if pcs[x].0 == 0 {
            assert(popcount(0) == 0) by {
                super::attacks::lemma_popcount_zero(64);
            }
        }
        lemma_lowest(pcs[x].0);
        lemma_single(pcs[x].0, king_square(pcs, x));
    }
    assert forall|sd: int, s: int|
        0 <= sd < 2 && 0 <= s < 64 implies (#[trigger] bb_has(side_union(pcs, sd), s) <==> owned_by(sq[s], sd)) by {
        let a = pcs[sd].0;
        let q = pcs[10 + sd].0;
        let r = pcs[8 + sd].0;
        let bi = pcs[4 + sd].0;
        let n = pcs[6 + sd].0;
        let pw = pcs[2 + sd].0;
        lemma_bits(a, q);
        lemma_bits(a | q, r);
        lemma_bits(a | q | r, bi);
        lemma_bits(a | q | r | bi, n);
        lemma_bits(a | q | r | bi | n, pw);
        assert(piece_on(pcs, sd, s) == bb_has(a, s));
        assert(piece_on(pcs, 10 + sd, s) == bb_has(q, s));
        assert(piece_on(pcs, 8 + sd, s) == bb_has(r, s));
        assert(piece_on(pcs, 4 + sd, s) == bb_has(bi, s));
        assert(piece_on(pcs, 6 + sd, s) == bb_has(n, s));
        assert(piece_on(pcs, 2 + sd, s) == bb_has(pw, s));
    }
    lemma_bits(info.my.0, info.their.0);
    assert forall|s: int| 0 <= s < 64 implies (bb_has(info.occupied.0, s) <==> #[trigger] sq[s] != SquareContent::Empty) by {
        assert(bb_has(side_union(pcs, side), s) <==> owned_by(sq[s], side));
        assert(bb_has(side_union(pcs, opp), s) <==> owned_by(sq[s], opp));
    }
    assert forall|s: int| 0 <= s < 64 implies (bb_has(info.my.0, s) <==> owned_by(#[trigger] sq[s], side)) by {
        assert(bb_has(side_union(pcs, side), s) <==> owned_by(sq[s], side));
    }
    assert forall|s: int| 0 <= s < 64 implies (bb_has(info.their.0, s) <==> owned_by(#[trigger] sq[s], opp)) by {
        assert(bb_has(side_union(pcs, opp), s) <==> owned_by(sq[s], opp));
    }
    assert forall|s: int| 0 <= s < 64 && content_index(#[trigger] sq[s]) == opp implies s == king_square(pcs, opp) by {
        assert(piece_on(pcs, opp, s));
    }
    assert forall|s: int| 0 <= s < 64 && content_index(#[trigger] sq[s]) == side implies s == king_square(pcs, side) by {
        assert(piece_on(pcs, side, s));
    }
}

/// A normal move of a piece of `side` to a square that holds neither a piece of `side` nor
/// a king can be made, undone, and lands cleanly.
proof fn lemma_plain_move(b: BoardModel, m: Move, side: int)
    requires
        well_formed(b),
        reversible_move(b, m) ==> b.state.move_clock < 255,
        move_ty(m@) == TYPE_NORMAL,
        m@ != INVALID,
        move_from(m@) != move_to(m@),
        owned_by(b.squares[move_from(m@)], side),
        !owned_by(b.squares[move_to(m@)], side),
        content_index(b.squares[move_to(m@)]) != 0,
        content_index(b.squares[move_to(m@)]) != 1,
    ensures
        can_make(b, m),
        restorable(b, m),
        lands_cleanly(b, m),
{
    let f = move_from(m@);
    let t = move_to(m@);
    assert(m@ != NULL);
    assert(b.squares.update(f, SquareContent::Empty)[t] == b.squares[t]);
}

/// The king steps, knight moves and slider moves of the side to move, to squares without a
/// piece of its own, can be made, undone, and land cleanly.
proof fn lemma_piece_move(g: TypedMoveGenerator, b: Board, info: PositionInfo, m: Move, tk: u64, tn: u64, ts: u64)
    requires
        playable(b),
        position_info_spec(b.pieces.0@, player_index(b.state.player), info),
        g.player == b.state.player,
        !g.gen.checks,
        reversible_move(b@, m) ==> b.state.move_clock < 255,
        forall|t: int| 0 <= t < 64 && (bb_has(tk, t) || bb_has(tn, t) || bb_has(ts, t)) ==> !owned_by(#[trigger] b.squares.0@[t], player_index(b.state.player)),
        ({
            let k = king_square(b.pieces.0@, player_index(b.state.player));
            ||| from_set_ok(g, b, info, 1u64 << (k as u64), 3, tk, false, m@)
            ||| from_set_ok(g, b, info, knight_froms(g, b, info), 0, tn, false, m@)
            ||| slider_ok(g, b, info, ts, m@)
        }),
    ensures
        can_make(b@, m),
        restorable(b@, m),
        lands_cleanly(b@, m),
{
    let pcs = b.pieces.0@;
    let sq = b.squares.0@;
    let side = player_index(b.state.player);
    let opp = 1 - side;
    let occ = info.occupied.0;
    let k = king_square(pcs, side);
    let ko = king_square(pcs, opp);
    let v = m@;
    let f = move_from(v);
    let t = move_to(v);
    lemma_board_facts(b, info);
    lemma_square_bit(k);
    lemma_bits(pcs[6 + side].0, info.blockers.0);
    lemma_pack(f as u16, t as u16, 0);
    assert(v == f + 64 * t);
    assert(move_ty(v) == TYPE_NORMAL);
    assert(b@.squares == sq);
    if content_index(sq[t]) == opp {
        assert(t == ko);
        if from_set_ok(g, b, info, 1u64 << (k as u64), 3, tk, false, v) {
            assert(f == k);
            assert(king_attack(k, ko));
        } else if from_set_ok(g, b, info, knight_froms(g, b, info), 0, tn, false, v) {
            assert(piece_on(pcs, 6 + side, f));
            assert(checker_attack(pcs, occ, side, f, ko));
        } else {
            assert(checker_attack(pcs, occ, side, f, ko));
        }
    }
    if from_set_ok(g, b, info, 1u64 << (k as u64), 3, tk, false, v) {
        assert(f == k);
        assert(piece_on(pcs, side, f));
    } else if from_set_ok(g, b, info, knight_froms(g, b, info), 0, tn, false, v) {
        assert(piece_on(pcs, 6 + side, f));
        assert(knight_attack(f, t));
    } else {
        assert(piece_on(pcs, 4 + side, f) || piece_on(pcs, 8 + side, f) || piece_on(pcs, 10 + side, f));
    }
    lemma_plain_move(b@, m, side);
}

/// The pawn moves of the side to move can be made, undone, and land cleanly.
proof fn lemma_pawn_move(g: TypedMoveGenerator, b: Board, info: PositionInfo, m: Move, tp: u64)
    requires
        playable(b),
        position_info_spec(b.pieces.0@, player_index(b.state.player), info),
        g.player == b.state.player,
        pawn_ok(g, b, info, tp, m@),
    ensures
        can_make(b@, m),
        restorable(b@, m),
        lands_cleanly(b@, m),
{
    let pcs = b.pieces.0@;
    let sq = b.squares.0@;
    let side = player_index(b.state.player);
    let opp = 1 - side;
    let occ = info.occupied.0;
    let ko = king_square(pcs, opp);
    let v = m@;
    let f = move_from(v);
    let t = move_to(v);
    lemma_board_facts(b, info);
    assert(b@.squares == sq);
    let step = pawn_capture(g, b, info, tp, f, t) || pawn_push(g, b, info, tp, f, t);
    if step {
        if pawn_capture(g, b, info, tp, f, t) {
            assert(owned_by(sq[t], opp));
            if content_index(sq[t]) == opp {
                assert(t == ko);
                assert(checker_attack(pcs, occ, side, f, ko));
            }
        } else {
            assert(sq[t] == SquareContent::Empty);
        }
    }
    if is_normal(v) && step && !last_rank(side, t) {
        lemma_pack(f as u16, t as u16, 0);
        lemma_plain_move(b@, m, side);
    } else if promotions_of(f, t).contains(v) && step && last_rank(side, t) {
        let i = choose|i: int| 0 <= i < 4 && promotions_of(f, t)[i] == v;
        if i == 0 {
            lemma_pack(f as u16, t as u16, 0x2000);
        } else if i == 1 {
            lemma_pack(f as u16, t as u16, 0xa000);
        } else if i == 2 {
            lemma_pack(f as u16, t as u16, 0x6000);
        } else {
            lemma_pack(f as u16, t as u16, 0xe000);
        }
        assert(move_ty(v) == TYPE_PROMOTION);
        assert(m@ != NULL);
        assert(sq.update(f, SquareContent::Empty)[t] == sq[t]);
    } else if v == f + 64 * t + 0x4000 && pawn_double(g, b, info, tp, f, t) {
        lemma_pack(f as u16, t as u16, 0x4000);
        assert(sq[t] == SquareContent::Empty);
        lemma_plain_move(b@, m, side);
    } else {
        assert(en_passant_ok(g, b, info, tp, v));
        let ep = b.state.en_passant as int;
        let c = if side == 0 { 32 + ep } else { 24 + ep };
        let e = c + forward(side);
        lemma_pack(f as u16, e as u16, 0x3000);
        assert(t == e);
        assert(move_ty(v) == TYPE_EN_PASSANT);
        assert(m@ != NULL);
        assert(sq[e] == SquareContent::Empty);
        assert(sq.update(f, SquareContent::Empty)[t] == sq[t]);
        assert(content_of_index(3) == SquareContent::BlackPawn);
        assert(content_of_index(2) == SquareContent::WhitePawn);
    }
}

/// The castling moves of the side to move can be made, undone, and land cleanly.
proof fn lemma_castle_move(g: TypedMoveGenerator, b: Board, info: PositionInfo, m: Move)
    requires
        playable(b),
        position_info_spec(b.pieces.0@, player_index(b.state.player), info),
        g.player == b.state.player,
        castle_ok(g, b, info, m@),
    ensures
        can_make(b@, m),
        restorable(b@, m),
        lands_cleanly(b@, m),
{
    let sq = b.squares.0@;
    let side = player_index(b.state.player);
    let base = 56 * side;
    let v = m@;
    lemma_board_facts(b, info);
    assert(b@.squares == sq);
    assert(content_of_index(8) == SquareContent::WhiteRook);
    assert(content_of_index(9) == SquareContent::BlackRook);
    if v == base + 4 + 64 * (base + 6) + TYPE_CASTLE {
        lemma_pack((base + 4) as u16, (base + 6) as u16, 0x1000);
        assert(move_from(v) == base + 4 && move_to(v) == base + 6);
        assert(sq[base + 5] == SquareContent::Empty);
        assert(sq[base + 6] == SquareContent::Empty);
    } else {
        lemma_pack((base + 4) as u16, (base + 2) as u16, 0x1000);
        assert(move_from(v) == base + 4 && move_to(v) == base + 2);
        assert(sq[base + 3] == SquareContent::Empty);
        assert(sq[base + 2] == SquareContent::Empty);
    }
    assert(move_ty(v) == TYPE_CASTLE);
    assert(m@ != NULL);
}

/// No square strictly between a pawn and a square it attacks.
pub(crate) proof fn lemma_pawn_between(w: bool, a: int, k: int, t: int)
    requires
        0 <= a < 64,
        0 <= k < 64,
        0 <= t < 64,
        pawn_attack(w, a, k),
    ensures
        !between_has(a, k, t),
{
    if between_has(a, k, t) {
        let fa = a % 8;
        let ra = a / 8;
        let fk = k % 8;
        let rk = k / 8;
        let ft = t % 8;
        let rt = t / 8;
        let df = fk - fa;
        let dr = rk - ra;
        assert(df == 1 || df == -1);
        assert(dr == 1 || dr == -1);
        assert((ft - fa) * dr == (rt - ra) * df);
        assert(ft == fa || ft == fk);
        assert(rt == ra || rt == rk);
        if ft == fa && rt == ra {
            assert(t == a);
        } else if ft == fk && rt == rk {
            assert(t == k);
        } else if ft == fa {
            assert(rt == rk);
            assert((ft - fa) * dr == 0) by (nonlinear_arith)
                requires
                    ft == fa,
            ;
            assert((rt - ra) * df == dr * df);
            assert(dr * df != 0) by (nonlinear_arith)
                requires
                    dr == 1 || dr == -1,
                    df == 1 || df == -1,
            ;
        } else {
            assert(ft == fk && rt == ra);
            assert((rt - ra) * df == 0) by (nonlinear_arith)
                requires
                    rt == ra,
            ;
            assert((ft - fa) * dr == df * dr);
            assert(df * dr != 0) by (nonlinear_arith)
                requires
                    dr == 1 || dr == -1,
                    df == 1 || df == -1,
            ;
        }
    }
}

/// When one piece gives check, the squares where another piece may stop it hold no piece
/// of the side to move.
proof fn lemma_evasion_targets(g: TypedMoveGenerator, b: Board, info: PositionInfo)
    requires
        playable(b),
        position_info_spec(b.pieces.0@, player_index(b.state.player), info),
        g.player == b.state.player,
        popcount(checkers(b, info, player_index(b.state.player))) == 1,
    ensures
        forall|t: int|
            0 <= t < 64 && bb_has(mask(|t: int| evasion_target(g, b, info, t)), t) ==> !owned_by(
                #[trigger] b.squares.0@[t],
                player_index(b.state.player),
            ),
{
    let pcs = b.pieces.0@;
    let sq = b.squares.0@;
    let side = player_index(b.state.player);
    let opp = 1 - side;
    let occ = info.occupied.0;
    let k = king_square(pcs, side);
    let cp = |p: int| checker_attack(pcs, occ, opp, p, k);
    let cs = checkers(b, info, side);
    lemma_board_facts(b, info);
    lemma_mask(cp);
    lemma_mask(|t: int| evasion_target(g, b, info, t));
    assert(cs == mask(cp));
    if cs == 0 {
        assert(popcount(0) == 0) by {
            super::attacks::lemma_popcount_zero(64);
        }
    }
    lemma_lowest(cs);
    let a = choose|p: int| lowest(cs, p);
    assert(lowest(cs, a));
    assert(cp(a));
    assert forall|t: int|
        0 <= t < 64 && bb_has(mask(|t: int| evasion_target(g, b, info, t)), t) implies !owned_by(
        #[trigger] sq[t],
        side,
    ) by {
        assert(evasion_target(g, b, info, t));
        if bb_has(cs, t) {
            assert(cp(t));
        } else {
            assert(between_has(a, k, t));
            assert(!piece_on(pcs, 6 + opp, a));
            if piece_on(pcs, 2 + opp, a) && pawn_attack(opp == 0, a, k) {
                lemma_pawn_between(opp == 0, a, k, t);
            }
            assert(!bb_has(occ, t));
        }
    }
}

/// Every move that the generator of all legal moves gives in a playable position can be
/// made and undone, when the clock has room for it: the conditions under which making a
/// move keeps the board valid and undoing it gives the board back all hold of it.
pub proof fn lemma_generated_move_makeable(tables: Tables, b: Board, info: PositionInfo, m: Move)
    requires
        playable(b),
        reversible_move(b@, m) ==> b.state.move_clock < 255,
        position_info_spec(b.pieces.0@, player_index(b.state.player), info),
        moves_ok(
            TypedMoveGenerator { tables: &tables, player: b.state.player, gen: GenType { quiet: true, checks: false, legal: true } },
            b,
            info,
            m@,
        ),
    ensures
        can_make(b@, m),
        restorable(b@, m),
        lands_cleanly(b@, m),
{
    let g = TypedMoveGenerator { tables: &tables, player: b.state.player, gen: GenType { quiet: true, checks: false, legal: true } };
    let pcs = b.pieces.0@;
    let sq = b.squares.0@;
    let side = player_index(b.state.player);
    let target = gen_target(g, info);
    let v = m@;
    lemma_board_facts(b, info);
    lemma_bits(target, info.attacked.0);
    lemma_bits(target, info.my.0);
    assert(target == !info.my.0);
    assert(forall|t: int| 0 <= t < 64 && bb_has(target, t) ==> !owned_by(#[trigger] sq[t], side));
    if info.attacked.0 & pcs[side].0 != 0 {
        assert(evasion_ok(g, b, info, target, v));
        let k = king_square(pcs, side);
        let ks = mask(|t: int| evasion_step(g, b, info, target, t));
        lemma_mask(|t: int| evasion_step(g, b, info, target, t));
        if from_set_ok(g, b, info, 1u64 << (k as u64), 3, ks, false, v) {
            lemma_piece_move(g, b, info, m, ks, ks, ks);
        } else {
            let tt = mask(|t: int| evasion_target(g, b, info, t));
            lemma_evasion_targets(g, b, info);
            if pawn_ok(g, b, info, tt, v) {
                lemma_pawn_move(g, b, info, m, tt);
            } else {
                lemma_piece_move(g, b, info, m, tt, tt, tt);
            }
        }
    } else {
        assert(pseudo_ok(g, b, info, target, v));
        if pawn_ok(g, b, info, pawn_target(g, b, target), v) {
            lemma_pawn_move(g, b, info, m, pawn_target(g, b, target));
        } else if castle_ok(g, b, info, v) {
            lemma_castle_move(g, b, info, m);
        } else {
            lemma_piece_move(g, b, info, m, target & !info.attacked.0, target, target);
        }
    }
}

/// Making a move that the generator of all legal moves gives in a playable position keeps
/// a valid board valid, and undoing it gives the board back: same squares, bitboards,
/// state and hash.
pub proof fn lemma_generated_move_round_trip(tables: Tables, b: Board, info: PositionInfo, m: Move, k: HashTables)
    requires
        playable(b),
        reversible_move(b@, m) ==> b.state.move_clock < 255,
        valid_position(b@, k),
        position_info_spec(b.pieces.0@, player_index(b.state.player), info),
        moves_ok(
            TypedMoveGenerator { tables: &tables, player: b.state.player, gen: GenType { quiet: true, checks: false, legal: true } },
            b,
            info,
            m@,
        ),
    ensures
        valid_position(made(b@, k, m).0, k),
        unmade(made(b@, k, m).0, k, made(b@, k, m).1) == b@,
{
    lemma_generated_move_makeable(tables, b, info, m);
    lemma_make_keeps_valid(b@, k, m);
    lemma_unmake_restores_board(b@, k, m);
}

} // verus!
