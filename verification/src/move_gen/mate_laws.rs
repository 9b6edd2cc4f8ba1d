//! What the check-mate test tells of the moves the generator gives.
use vstd::prelude::*;
use super::attacks::{
    checked_by, checker_attack, king_square, lemma_bits, lemma_lowest, lemma_mask, lowest, mask, pawn_attack, piece_on,
};
use super::gen_laws::lemma_pawn_between;
use super::generator::{
    capture_east, capture_west, check_line, checkers, evasion_ok, evasion_step, evasion_target, forward, from_set_ok,
    gen_target, kings_present, knight_froms, lemma_pawn_diagonals, mate_spec, moves_ok, pawn_capture, pawn_double,
    pawn_ok, pawn_push, pawns_before_double, position_info_spec, reach, shifted, side_union, slider_ok, third_rank,
    GenType, PositionInfo, TypedMoveGenerator, legal_spec, legal_move, is_normal, promotions_of, last_rank,
    slider_target, reaches_set,
};
use crate::chess_core::mov::{lemma_pack, move_from, move_to, move_ty, TYPE_EN_PASSANT};
use crate::common::bb::lemma_square_bit;
use super::tables::{between_has, rank_of};
use crate::common::bb::{bb_has, lemma_empty, popcount};
use crate::common::board::Board;
use crate::common::misc::player_index;

verus! {

/// A piece of `sd` stands on a square of its side's union.
proof fn lemma_in_side_union(pcs: Seq<crate::common::bb::BB>, sd: int)
    requires
        0 <= sd < 2,
        pcs.len() == 12,
    ensures
        forall|s: int|
            0 <= s < 64 && (piece_on(pcs, sd, s) || piece_on(pcs, 2 + sd, s) || piece_on(pcs, 4 + sd, s) || piece_on(
                pcs,
                6 + sd,
                s,
            ) || piece_on(pcs, 8 + sd, s) || piece_on(pcs, 10 + sd, s)) ==> #[trigger] bb_has(side_union(pcs, sd), s),
{
    let a = pcs[sd].0;
    let q = pcs[10 + sd].0;
    let r = pcs[8 + sd].0;
    let bi = pcs[4 + sd].0;
    let n = pcs[6 + sd].0;
    let pw = pcs[2 + sd].0;
    lemma_bits(a, q);
    lemma_bits(a | q, r);
    lemma_bits(a | q | r, bi);
    lemma_bits(a | q | r | bi, n);
    lemma_bits(a | q | r | bi | n, pw);
}

/// The squares between the king and the single piece that checks it are empty.
proof fn lemma_check_line_empty(g: TypedMoveGenerator, b: Board, info: PositionInfo)
    requires
        checkers(b, info, player_index(g.player)) != 0,
        b.pieces.0@[player_index(g.player)].0 != 0,
    ensures
        forall|t: int| 0 <= t < 64 && #[trigger] check_line(g, b, info, t) ==> !bb_has(info.occupied.0, t),
{
    let pcs = b.pieces.0@;
    let side = player_index(g.player);
    let opp = 1 - side;
    let occ = info.occupied.0;
    let k = king_square(pcs, side);
    let cp = |p: int| checker_attack(pcs, occ, opp, p, k);
    let cs = checkers(b, info, side);
    lemma_mask(cp);
    lemma_lowest(cs);
    lemma_lowest(pcs[side].0);
    let a = choose|p: int| lowest(cs, p);
    assert(lowest(cs, a));
    assert(cp(a));
    assert forall|t: int| 0 <= t < 64 && #[trigger] check_line(g, b, info, t) implies !bb_has(occ, t) by {
        assert(between_has(a, k, t));
        if piece_on(pcs, 2 + opp, a) && pawn_attack(opp == 0, a, k) {
            lemma_pawn_between(opp == 0, a, k, t);
        }
    }
}

/// Whether `g` is the generator of all legal moves of the side to move of `b`.
pub open spec fn all_legal(g: TypedMoveGenerator, b: Board) -> bool {
    g.player == b.state.player && g.gen == (GenType { quiet: true, checks: false, legal: true })
}

/// In a position the check-mate test calls mate, no pawn move stops the check.
proof fn lemma_mate_no_pawn_move(g: TypedMoveGenerator, b: Board, info: PositionInfo, v: u16)
    requires
        all_legal(g, b),
        kings_present(b),
        position_info_spec(b.pieces.0@, player_index(b.state.player), info),
        b.state.en_passant == 8,
        mate_spec(g, b, info),
        popcount(checkers(b, info, player_index(b.state.player))) == 1,
    ensures
        !pawn_ok(g, b, info, mask(|t: int| evasion_target(g, b, info, t)), v),
{
    let pcs = b.pieces.0@;
    let side = player_index(b.state.player);
    let opp = 1 - side;
    let occ = info.occupied.0;
    let k = king_square(pcs, side);
    let cp = |p: int| checker_attack(pcs, occ, opp, p, k);
    let cs = checkers(b, info, side);
    let tt = mask(|t: int| evasion_target(g, b, info, t));
    let f = super::super::chess_core::mov::move_from(v);
    let t = super::super::chess_core::mov::move_to(v);
    let pawns = pcs[2 + side].0;
    let fwd = forward(side);
    let line = |t: int| check_line(g, b, info, t);
    lemma_mask(cp);
    lemma_empty();
    lemma_mask(|t: int| evasion_target(g, b, info, t));
    if cs == 0 {
        assert(popcount(0) == 0) by {
            super::attacks::lemma_popcount_zero(64);
        }
    }
    lemma_check_line_empty(g, b, info);
    lemma_bits(info.my.0, info.their.0);
    if pawn_ok(g, b, info, tt, v) {
        assert(bb_has(tt, t) ==> (bb_has(cs, t) || line(t)));
        if pawn_capture(g, b, info, tt, f, t) {
            assert(bb_has(occ, t));
            assert(bb_has(cs, t));
            lemma_pawn_diagonals(side, f, t);
            assert(shifted(pawns, capture_west(side), -1, t) || shifted(pawns, capture_east(side), 1, t));
            assert(false);
        } else if pawn_push(g, b, info, tt, f, t) {
            if bb_has(cs, t) {
                assert(cp(t));
                lemma_in_side_union(pcs, opp);
                assert(bb_has(side_union(pcs, opp), t));
                assert(bb_has(info.their.0, t));
            }
            assert(line(t));
            assert(bb_has(pawns, f));
            assert(super::tables::file_of(t) == super::tables::file_of(f)) by {
                if side == 0 {
                    assert(t == f + 8);
                } else {
                    assert(t == f - 8);
                }
            }
            assert(shifted(pawns, fwd, 0, t));
            assert(false);
        } else {
            assert(pawn_double(g, b, info, tt, f, t));
            if bb_has(cs, t) {
                assert(cp(t));
                lemma_in_side_union(pcs, opp);
                assert(bb_has(side_union(pcs, opp), t));
                assert(bb_has(info.their.0, t));
            }
            assert(line(t));
            let second = pawns_before_double(pawns, fwd, occ, third_rank(side));
            let m = f + fwd;
            lemma_mask(|m: int| shifted(pawns, fwd, 0, m) && !bb_has(occ, m) && rank_of(m) == third_rank(side));
            assert(bb_has(pawns, f));
            assert(super::tables::file_of(m) == super::tables::file_of(f) && super::tables::file_of(t)
                == super::tables::file_of(m)) by {
                if side == 0 {
                    assert(m == f + 8 && t == m + 8);
                } else {
                    assert(m == f - 8 && t == m - 8);
                }
            }
            assert(shifted(pawns, fwd, 0, m));
            assert(bb_has(second, m));
            assert(shifted(second, fwd, 0, t));
            assert(false);
        }
    }
}

/// In a position the check-mate test calls mate, no bishop, rook, queen or knight move
/// stops the check.
proof fn lemma_mate_no_piece_move(g: TypedMoveGenerator, b: Board, info: PositionInfo, v: u16)
    requires
        all_legal(g, b),
        kings_present(b),
        mate_spec(g, b, info),
        popcount(checkers(b, info, player_index(b.state.player))) == 1,
    ensures
        !slider_ok(g, b, info, mask(|t: int| evasion_target(g, b, info, t)), v),
        !from_set_ok(g, b, info, knight_froms(g, b, info), 0, mask(|t: int| evasion_target(g, b, info, t)), false, v),
{
    let pcs = b.pieces.0@;
    let side = player_index(b.state.player);
    let occ = info.occupied.0;
    let cs = checkers(b, info, side);
    let tt = mask(|t: int| evasion_target(g, b, info, t));
    let f = super::super::chess_core::mov::move_from(v);
    let t = super::super::chess_core::mov::move_to(v);
    let blk = |t: int| bb_has(cs, t) || check_line(g, b, info, t);
    lemma_mask(|t: int| evasion_target(g, b, info, t));
    assert(bb_has(tt, t) ==> blk(t));
    lemma_bits(pcs[10 + side].0, pcs[4 + side].0);
    lemma_bits(pcs[10 + side].0, pcs[8 + side].0);
    lemma_bits(pcs[6 + side].0, info.blockers.0);
    if slider_ok(g, b, info, tt, v) {
        if (piece_on(pcs, 10 + side, f) || piece_on(pcs, 4 + side, f)) && reach(1, f, t, occ) && bb_has(tt, t) {
            assert(bb_has(pcs[10 + side].0 | pcs[4 + side].0, f));
            assert(blk(t));
        } else {
            assert(reach(2, f, t, occ));
            assert(bb_has(pcs[10 + side].0 | pcs[8 + side].0, f));
            assert(blk(t));
        }
    }
    if from_set_ok(g, b, info, knight_froms(g, b, info), 0, tt, false, v) {
        assert(bb_has(pcs[6 + side].0, f));
        assert(reach(0, f, t, occ));
        assert(blk(t));
    }
}

/// When the check-mate test of the generator of all legal moves says mate, the king of the
/// side to move is in check and the generator gives no move at all, when no en passant
/// capture is open (the test does not look at en passant captures).
pub proof fn lemma_mate_means_no_moves(g: TypedMoveGenerator, b: Board, info: PositionInfo, v: u16)
    requires
        all_legal(g, b),
        kings_present(b),
        position_info_spec(b.pieces.0@, player_index(b.state.player), info),
        b.state.en_passant == 8,
        mate_spec(g, b, info),
    ensures
        checked_by(
            b.pieces.0@,
            info.occupied.0,
            1 - player_index(b.state.player),
            king_square(b.pieces.0@, player_index(b.state.player)),
        ),
        !moves_ok(g, b, info, v),
{
    let pcs = b.pieces.0@;
    let side = player_index(b.state.player);
    let opp = 1 - side;
    let occ = info.occupied.0;
    let k = king_square(pcs, side);
    let cp = |p: int| checker_attack(pcs, occ, opp, p, k);
    let cs = checkers(b, info, side);
    let target = gen_target(g, info);
    lemma_mask(cp);
    lemma_empty();
    if cs == 0 {
        assert(popcount(0) == 0) by {
            super::attacks::lemma_popcount_zero(64);
        }
    }
    lemma_lowest(cs);
    let w = choose|p: int| lowest(cs, p);
    assert(lowest(cs, w) && cp(w));
    assert(checked_by(pcs, occ, opp, k));
    lemma_lowest(pcs[side].0);
    lemma_lowest(pcs[opp].0);
    let ko = choose|q: int| lowest(pcs[opp].0, q);
    assert(lowest(pcs[opp].0, ko));
    assert(bb_has(info.attacked.0, k));
    lemma_bits(info.attacked.0, pcs[side].0);
    assert(bb_has(info.attacked.0 & pcs[side].0, k));
    assert(target == !info.my.0);
    if moves_ok(g, b, info, v) {
        assert(evasion_ok(g, b, info, target, v));
        let t = super::super::chess_core::mov::move_to(v);
        let ks = mask(|t: int| evasion_step(g, b, info, target, t));
        lemma_mask(|t: int| evasion_step(g, b, info, target, t));
        if from_set_ok(g, b, info, 1u64 << (k as u64), 3, ks, false, v) {
            assert(evasion_step(g, b, info, target, t));
        } else {
            lemma_mate_no_piece_move(g, b, info, v);
            lemma_mate_no_pawn_move(g, b, info, v);
        }
    }
}

/// What the converse needs: the generator of all legal moves, both kings on the board, the
/// position info of the board, and no piece of the side to move pinned.
pub open spec fn unpinned_setting(g: TypedMoveGenerator, b: Board, info: PositionInfo) -> bool {
    &&& all_legal(g, b)
    &&& kings_present(b)
    &&& position_info_spec(b.pieces.0@, player_index(b.state.player), info)
    &&& info.blockers.0 == 0
}

/// A move out of check that the evasion code makes is a move the generator gives.
proof fn lemma_evasion_given(g: TypedMoveGenerator, b: Board, info: PositionInfo, v: u16)
    requires
        unpinned_setting(g, b, info),
        checkers(b, info, player_index(b.state.player)) != 0,
        evasion_ok(g, b, info, !info.my.0, v),
    ensures
        moves_ok(g, b, info, v),
{
    let pcs = b.pieces.0@;
    let side = player_index(b.state.player);
    let opp = 1 - side;
    let occ = info.occupied.0;
    let k = king_square(pcs, side);
    let cp = |p: int| checker_attack(pcs, occ, opp, p, k);
    let cs = checkers(b, info, side);
    lemma_mask(cp);
    lemma_lowest(cs);
    let w = choose|p: int| lowest(cs, p);
    assert(lowest(cs, w) && cp(w));
    lemma_lowest(pcs[side].0);
    lemma_lowest(pcs[opp].0);
    let ko = choose|q: int| lowest(pcs[opp].0, q);
    assert(lowest(pcs[opp].0, ko));
    assert(bb_has(info.attacked.0, k));
    lemma_bits(info.attacked.0, pcs[side].0);
    lemma_empty();
    assert(bb_has(info.attacked.0 & pcs[side].0, k));
}

/// With no piece pinned, every move but an en passant capture is kept by the legality
/// test.
proof fn lemma_unpinned_legal(g: TypedMoveGenerator, b: Board, info: PositionInfo, v: u16)
    requires
        unpinned_setting(g, b, info),
        move_ty(v) != TYPE_EN_PASSANT,
        0 <= move_from(v) < 64,
    ensures
        legal_move(g, b, info, v),
{
    reveal(legal_spec);
    lemma_empty();
}

/// What the converse proves a case at a time: a single check, no move from the generator.
pub open spec fn single_check_no_moves(g: TypedMoveGenerator, b: Board, info: PositionInfo) -> bool {
    &&& unpinned_setting(g, b, info)
    &&& popcount(checkers(b, info, player_index(b.state.player))) == 1
    &&& forall|v: u16| !#[trigger] moves_ok(g, b, info, v)
}

/// A square where a piece may stop a single check is a square the evasion code aims at.
proof fn lemma_block_is_target(g: TypedMoveGenerator, b: Board, info: PositionInfo, t: int)
    requires
        all_legal(g, b),
        0 <= t < 64,
        bb_has(checkers(b, info, player_index(b.state.player)), t) || check_line(g, b, info, t),
    ensures
        bb_has(mask(|t: int| evasion_target(g, b, info, t)), t),
{
    lemma_mask(|t: int| evasion_target(g, b, info, t));
}

/// With a single check and no piece pinned, a pawn that takes the checking piece or steps
/// between it and the king has a move the generator gives.
proof fn lemma_pawn_move_given(g: TypedMoveGenerator, b: Board, info: PositionInfo, f: int, t: int) -> (v: u16)
    requires
        unpinned_setting(g, b, info),
        popcount(checkers(b, info, player_index(b.state.player))) == 1,
        0 <= f < 64,
        0 <= t < 64,
        pawn_capture(g, b, info, mask(|t: int| evasion_target(g, b, info, t)), f, t) || pawn_push(
            g,
            b,
            info,
            mask(|t: int| evasion_target(g, b, info, t)),
            f,
            t,
        ),
    ensures
        moves_ok(g, b, info, v),
{
    let side = player_index(b.state.player);
    let tt = mask(|t: int| evasion_target(g, b, info, t));
    let cs = checkers(b, info, side);
    if cs == 0 {
        assert(popcount(0) == 0) by {
            super::attacks::lemma_popcount_zero(64);
        }
    }
    lemma_pack(f as u16, t as u16, 0);
    let w = (f + 64 * t) as u16;
    assert(move_from(w) == f && move_to(w) == t);
    lemma_unpinned_legal(g, b, info, w);
    if last_rank(side, t) {
        lemma_pack(f as u16, t as u16, 0x2000);
        let v = (f + 64 * t + 0x2000) as u16;
        assert(move_from(v) == f && move_to(v) == t);
        assert(promotions_of(f, t)[0] == v);
        assert(promotions_of(f, t).contains(v));
        assert(pawn_ok(g, b, info, tt, v));
        lemma_evasion_given(g, b, info, v);
        v
    } else {
        assert(is_normal(w));
        assert(pawn_ok(g, b, info, tt, w));
        lemma_evasion_given(g, b, info, w);
        w
    }
}

/// With a single check and no move, no bishop, rook, queen or knight reaches a square
/// where it would stop the check.
proof fn lemma_no_piece_block(g: TypedMoveGenerator, b: Board, info: PositionInfo)
    requires
        single_check_no_moves(g, b, info),
    ensures
        ({
            let side = player_index(b.state.player);
            let pcs = b.pieces.0@;
            let occ = info.occupied.0;
            let cs = checkers(b, info, side);
            let blk = |t: int| bb_has(cs, t) || check_line(g, b, info, t);
            &&& !reaches_set(pcs[10 + side].0 | pcs[4 + side].0, 1, occ, blk)
            &&& !reaches_set(pcs[10 + side].0 | pcs[8 + side].0, 2, occ, blk)
            &&& !reaches_set(pcs[6 + side].0, 0, occ, blk)
        }),
{
    let side = player_index(b.state.player);
    let pcs = b.pieces.0@;
    let occ = info.occupied.0;
    let cs = checkers(b, info, side);
    let blk = |t: int| bb_has(cs, t) || check_line(g, b, info, t);
    let tt = mask(|t: int| evasion_target(g, b, info, t));
    if cs == 0 {
        assert(popcount(0) == 0) by {
            super::attacks::lemma_popcount_zero(64);
        }
    }
    lemma_bits(pcs[10 + side].0, pcs[4 + side].0);
    lemma_bits(pcs[10 + side].0, pcs[8 + side].0);
    lemma_bits(pcs[6 + side].0, info.blockers.0);
    lemma_empty();
    assert forall|kind: u8, froms: u64|
        (kind == 1 && froms == (pcs[10 + side].0 | pcs[4 + side].0)) || (kind == 2 && froms == (pcs[10 + side].0
            | pcs[8 + side].0)) || (kind == 0 && froms == pcs[6 + side].0) implies !#[trigger] reaches_set(
        froms,
        kind,
        occ,
        blk,
    ) by {
        if reaches_set(froms, kind, occ, blk) {
            let (f, t) = choose|f: int, t: int|
                0 <= f < 64 && 0 <= t < 64 && bb_has(froms, f) && #[trigger] reach(kind, f, t, occ) && blk(t);
            lemma_block_is_target(g, b, info, t);
            lemma_pack(f as u16, t as u16, 0);
            let v = (f + 64 * t) as u16;
            assert(move_from(v) == f && move_to(v) == t);
            assert(is_normal(v));
            lemma_unpinned_legal(g, b, info, v);
            if kind == 0 {
                assert(bb_has(knight_froms(g, b, info), f));
                assert(from_set_ok(g, b, info, knight_froms(g, b, info), 0, tt, false, v));
            } else {
                assert(slider_target(g, b, info, tt, kind, t));
                assert(slider_ok(g, b, info, tt, v));
            }
            lemma_evasion_given(g, b, info, v);
            assert(moves_ok(g, b, info, v));
        }
    }
}

/// With no piece of the side to move pinned, a king in check with no move from the
/// generator of all legal moves is mate by the check-mate test.
pub proof fn lemma_no_moves_means_mate(g: TypedMoveGenerator, b: Board, info: PositionInfo)
    requires
        unpinned_setting(g, b, info),
        checked_by(
            b.pieces.0@,
            info.occupied.0,
            1 - player_index(b.state.player),
            king_square(b.pieces.0@, player_index(b.state.player)),
        ),
        forall|v: u16| !#[trigger] moves_ok(g, b, info, v),
    ensures
        mate_spec(g, b, info),
{
    let pcs = b.pieces.0@;
    let side = player_index(b.state.player);
    let opp = 1 - side;
    let occ = info.occupied.0;
    let k = king_square(pcs, side);
    let cp = |p: int| checker_attack(pcs, occ, opp, p, k);
    let cs = checkers(b, info, side);
    lemma_mask(cp);
    let a = choose|s: int| 0 <= s < 64 && #[trigger] checker_attack(pcs, occ, opp, s, k);
    assert(bb_has(cs, a));
    lemma_empty();
    assert(cs != 0);
    super::attacks::lemma_popcount_one(cs, a, 64);
    lemma_lowest(pcs[side].0);
    lemma_square_bit(k);
    let ks = mask(|t: int| evasion_step(g, b, info, !info.my.0, t));
    lemma_mask(|t: int| evasion_step(g, b, info, !info.my.0, t));
    assert forall|t: int| 0 <= t < 64 implies !#[trigger] evasion_step(g, b, info, !info.my.0, t) by {
        if evasion_step(g, b, info, !info.my.0, t) {
            lemma_pack(k as u16, t as u16, 0);
            let v = (k + 64 * t) as u16;
            assert(move_from(v) == k && move_to(v) == t);
            assert(from_set_ok(g, b, info, 1u64 << (k as u64), 3, ks, false, v));
            lemma_evasion_given(g, b, info, v);
            assert(moves_ok(g, b, info, v));
        }
    }
    if popcount(cs) == 1 {
        lemma_no_piece_block(g, b, info);
        lemma_no_pawn_help(g, b, info);
    }
}

/// With a single check and no move, no pawn takes the checking piece, and no pawn steps,
/// once or twice, between it and the king.
proof fn lemma_no_pawn_help(g: TypedMoveGenerator, b: Board, info: PositionInfo)
    requires
        single_check_no_moves(g, b, info),
    ensures
        ({
            let side = player_index(b.state.player);
            let pcs = b.pieces.0@;
            let occ = info.occupied.0;
            let cs = checkers(b, info, side);
            let line = |t: int| check_line(g, b, info, t);
            let pawns = pcs[2 + side].0;
            let fwd = forward(side);
            let second = pawns_before_double(pawns, fwd, occ, third_rank(side));
            &&& !exists|t: int| 0 <= t < 64 && bb_has(cs, t) && (#[trigger] shifted(pawns, capture_west(side), -1, t)
                || shifted(pawns, capture_east(side), 1, t))
            &&& !exists|t: int| 0 <= t < 64 && #[trigger] shifted(pawns, fwd, 0, t) && line(t)
            &&& !exists|t: int| 0 <= t < 64 && #[trigger] shifted(second, fwd, 0, t) && line(t)
        }),
{
    let side = player_index(b.state.player);
    let opp = 1 - side;
    let pcs = b.pieces.0@;
    let occ = info.occupied.0;
    let k = king_square(pcs, side);
    let cp = |p: int| checker_attack(pcs, occ, opp, p, k);
    let cs = checkers(b, info, side);
    let line = |t: int| check_line(g, b, info, t);
    let pawns = pcs[2 + side].0;
    let fwd = forward(side);
    let second = pawns_before_double(pawns, fwd, occ, third_rank(side));
    let tt = mask(|t: int| evasion_target(g, b, info, t));
    if cs == 0 {
        assert(popcount(0) == 0) by {
            super::attacks::lemma_popcount_zero(64);
        }
    }
    lemma_mask(cp);
    lemma_check_line_empty(g, b, info);
    assert forall|t: int| 0 <= t < 64 && bb_has(cs, t) implies !(#[trigger] shifted(pawns, capture_west(side), -1, t)
        || shifted(pawns, capture_east(side), 1, t)) by {
        if shifted(pawns, capture_west(side), -1, t) || shifted(pawns, capture_east(side), 1, t) {
            let f = if shifted(pawns, capture_west(side), -1, t) {
                t - capture_west(side)
            } else {
                t - capture_east(side)
            };
            lemma_pawn_diagonals(side, f, t);
            assert(cp(t));
            lemma_in_side_union(pcs, opp);
            assert(bb_has(side_union(pcs, opp), t));
            lemma_block_is_target(g, b, info, t);
            assert(pawn_capture(g, b, info, tt, f, t));
            let v = lemma_pawn_move_given(g, b, info, f, t);
            assert(moves_ok(g, b, info, v));
        }
    }
    assert forall|t: int| 0 <= t < 64 && line(t) implies !#[trigger] shifted(pawns, fwd, 0, t) by {
        if shifted(pawns, fwd, 0, t) {
            let f = t - fwd;
            lemma_block_is_target(g, b, info, t);
            assert(pawn_push(g, b, info, tt, f, t));
            let v = lemma_pawn_move_given(g, b, info, f, t);
            assert(moves_ok(g, b, info, v));
        }
    }
    lemma_mask(|m: int| shifted(pawns, fwd, 0, m) && !bb_has(occ, m) && rank_of(m) == third_rank(side));
    assert forall|t: int| 0 <= t < 64 && line(t) implies !#[trigger] shifted(second, fwd, 0, t) by {
        if shifted(second, fwd, 0, t) {
            let m = t - fwd;
            let f = m - fwd;
            assert(shifted(pawns, fwd, 0, m));
            lemma_block_is_target(g, b, info, t);
            assert(pawn_double(g, b, info, tt, f, t)) by {
                if side == 0 {
                    assert(m == f + 8 && t == m + 8);
                } else {
                    assert(m == f - 8 && t == m - 8);
                }
            }
            lemma_pack(f as u16, t as u16, 0x4000);
            let v = (f + 64 * t + 0x4000) as u16;
            assert(move_from(v) == f && move_to(v) == t);
            lemma_unpinned_legal(g, b, info, v);
            assert(pawn_ok(g, b, info, tt, v));
            lemma_evasion_given(g, b, info, v);
            assert(moves_ok(g, b, info, v));
        }
    }
}

} // verus!
