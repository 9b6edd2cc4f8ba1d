use chess::chess_core::mov::{Move, Promotion};
use chess::common::bb::BB;
use chess::common::board::Board;
use chess::common::square::Square;
use chess::common::misc::Player;
use chess::move_gen::generator::{GenType, MoveGenerator, PositionInfo, TypedMoveGenerator};
use chess::move_gen::inline_buffer::{InlineBuffer, MAX_MOVES};
use chess::move_gen::tables::Tables;
use chess::move_gen::attacks::pawn_attacks;

fn sq(name: &str) -> Square {
    Square::from_name(name).unwrap()
}

fn names(b: BB) -> Vec<String> {
    b.squares().iter().map(|s| s.to_string()).collect()
}

#[test]
fn leaper_attacks() {
    let t = Tables::new();
    assert_eq!(t.knight_attacks(sq("a1")).count(), 2);
    assert_eq!(names(t.knight_attacks(sq("a1"))), vec!["c2", "b3"]);
    assert_eq!(t.knight_attacks(sq("e4")).count(), 8);
    assert_eq!(t.king_attacks(sq("e4")).count(), 8);
    assert_eq!(t.king_attacks(sq("h8")).count(), 3);
}

#[test]
fn slider_attacks() {
    let t = Tables::new();
    assert_eq!(t.rook_attacks(sq("a1"), BB(0)).count(), 14);
    assert_eq!(t.bishop_attacks(sq("d4"), BB(0)).count(), 13);
    let blockers = BB(sq("a4").to_bb().0 | sq("c1").to_bb().0);
    assert_eq!(names(t.rook_attacks(sq("a1"), blockers)), vec!["b1", "c1", "a2", "a3", "a4"]);
    let blockers = sq("f6").to_bb();
    assert_eq!(t.bishop_attacks(sq("d4"), blockers).count(), 11);
    let blockers = BB(sq("b2").to_bb().0 | sq("e5").to_bb().0 | sq("g1").to_bb().0);
    assert_eq!(names(t.bishop_attacks(sq("c3"), blockers)), vec!["e1", "b2", "d2", "b4", "d4", "a5", "e5"]);
    assert_eq!(names(t.rook_attacks(sq("h8"), BB(sq("h6").to_bb().0 | sq("g8").to_bb().0))), vec!["h6", "h7", "g8"]);
}

#[test]
fn pawn_attack_squares() {
    assert_eq!(names(pawn_attacks(sq("a2"), true)), vec!["b3"]);
    assert_eq!(names(pawn_attacks(sq("h7"), false)), vec!["g6"]);
    assert_eq!(names(pawn_attacks(sq("e4"), true)), vec!["d5", "f5"]);
    assert_eq!(pawn_attacks(sq("e8"), true).count(), 0);
}

#[test]
fn lines_between_aligned() {
    let t = Tables::new();
    assert_eq!(names(t.between(sq("a1"), sq("d4"))), vec!["b2", "c3"]);
    assert_eq!(t.between(sq("a1"), sq("b3")).count(), 0);
    assert_eq!(t.line(sq("a1"), sq("c3")).count(), 8);
    assert_eq!(t.line(sq("a1"), sq("b3")).count(), 0);
    assert!(t.aligned(sq("a1"), sq("d4"), sq("h8")));
    assert!(!t.aligned(sq("a1"), sq("d4"), sq("h7")));
}

#[test]
fn inline_buffer_operations() {
    let mut b: InlineBuffer<MAX_MOVES, u16> = InlineBuffer::new();
    assert!(b.is_empty());
    b.push(1);
    b.push(2);
    b.push(3);
    assert_eq!(b.len(), 3);
    assert_eq!(b.get(1), Some(2));
    assert_eq!(b.get(5), None);
    b.swap(0, 2);
    assert_eq!(b.as_slice(), &[3, 2, 1]);
    b.swap_remove(0);
    assert_eq!(b.as_slice(), &[1, 2]);
    assert_eq!(b.pop(), Some(2));
    b.truncate(0);
    assert!(b.is_empty());
    assert_eq!(b.pop(), None);
    b.push(9);
    let mut it = b.iter();
    assert_eq!(it.next(), Some(9));
    assert_eq!(it.next(), None);
    b.clear();
    assert_eq!(b.len(), 0);
}

#[test]
fn promotions_are_generated_in_order() {
    let tables = Tables::new();
    let g = TypedMoveGenerator::new(&tables, Player::White, GenType::all());
    let mut list = InlineBuffer::new();
    assert!(!g.gen_promotions(sq("a7"), sq("a8"), &mut list));
    let got: Vec<Option<Promotion>> = list.as_slice().iter().map(|m: &Move| m.get_promotion()).collect();
    assert_eq!(got, vec![Some(Promotion::Queen), Some(Promotion::Rook), Some(Promotion::Knight), Some(Promotion::Bishop)]);
}

#[test]
fn promotions_stop_when_the_list_fills() {
    let tables = Tables::new();
    let g = TypedMoveGenerator::new(&tables, Player::White, GenType::all());
    let mut list = InlineBuffer::new();
    let filler = Move::normal(sq("b1"), sq("c3"));
    while (list.len() as usize) < MAX_MOVES - 2 {
        list.push(filler);
    }
    assert!(g.gen_promotions(sq("a7"), sq("a8"), &mut list));
    assert_eq!(list.len() as usize, MAX_MOVES);
    let tail: Vec<Option<Promotion>> = list.as_slice()[MAX_MOVES - 2..].iter().map(|m: &Move| m.get_promotion()).collect();
    assert_eq!(tail, vec![Some(Promotion::Queen), Some(Promotion::Rook)]);

    let mut roomy = InlineBuffer::new();
    while (roomy.len() as usize) < MAX_MOVES - 4 {
        roomy.push(filler);
    }
    assert!(!g.gen_promotions(sq("a7"), sq("a8"), &mut roomy));
    assert_eq!(roomy.len() as usize, MAX_MOVES);
}

#[test]
fn generated_moves_are_distinct() {
    let gen = MoveGenerator::new();
    for fen in [
        "rnbqkbnr/pppppppp/8/8/8/8/PPPPPPPP/RNBQKBNR w KQkq - 0 1",
        "r3k2r/p1ppqpb1/bn2pnp1/3PN3/1p2P3/2N2Q1p/PPPBBPPP/R3K2R w KQkq -",
        "4k3/8/8/8/8/8/4r3/4K3 w - - 0 1",
    ] {
        let b = Board::from_fen(fen).unwrap();
        let info = gen.gen_info(&b);
        let mut list = InlineBuffer::new();
        assert!(!gen.gen_moves_info(GenType::all(), &b, &info, &mut list));
        let moves = list.as_slice();
        for i in 0..moves.len() {
            for j in i + 1..moves.len() {
                assert!(moves[i] != moves[j]);
            }
        }
    }
}

fn info_for(b: &Board) -> PositionInfo {
    let mut occ = 0u64;
    for p in 0..12 {
        occ |= b.pieces.0[p].0;
    }
    PositionInfo {
        occupied: BB(occ),
        my: BB(0),
        their: BB(0),
        attacked: BB(0),
        blockers: BB(0),
        pinners: BB(0),
    }
}

#[test]
fn draws_by_rule() {
    let gen = MoveGenerator::new();
    let drawn = |fen: &str| {
        let b = Board::from_fen(fen).unwrap();
        gen.drawn_by_rule(&b, &info_for(&b))
    };
    assert!(drawn("4k3/8/8/8/8/8/8/4K3 w - - 0 1"));
    assert!(drawn("4k3/8/8/8/8/8/8/3NK3 w - - 0 1"));
    assert!(!drawn("4k3/8/8/8/8/8/8/3RK3 w - - 0 1"));
    assert!(!drawn("7k/8/8/8/8/8/8/KQ6 w - - 0 1"));
    assert!(!drawn("7k/8/8/8/8/8/8/KR6 w - - 0 1"));
    assert!(drawn("7k/8/8/8/8/8/8/K7 w - - 0 1"));
    assert!(!drawn("7k/8/8/8/8/8/q7/K7 w - - 0 1"));
    assert!(!drawn("4k3/8/8/8/8/8/4P3/4K3 w - - 0 1"));
    let mut b = Board::from_fen("4k3/8/8/8/8/8/4P3/4K3 w - - 0 1").unwrap();
    b.state.move_clock = 50;
    assert!(gen.drawn_by_rule(&b, &info_for(&b)));
    assert!(!drawn("4k3/8/8/8/8/8/8/2BBK3 w - - 0 1"));
    assert!(!drawn(Board::start_position().to_fen().as_str()));
    let mut start = Board::start_position();
    start.state.move_clock = 50;
    assert!(gen.drawn_by_rule(&start, &info_for(&start)));
}

fn perft(gen: &MoveGenerator, b: &mut Board, depth: usize) -> usize {
    if depth == 0 {
        return 1;
    }
    let info = gen.gen_info(b);
    let mut list = InlineBuffer::new();
    assert!(!gen.gen_moves_info(GenType::all(), b, &info, &mut list));
    if depth == 1 {
        return list.len() as usize;
    }
    let mut count = 0;
    for &m in list.as_slice() {
        let u = b.make_move(m);
        count += perft(gen, b, depth - 1);
        b.unmake_move(u);
    }
    count
}

#[test]
fn perft_start_shallow() {
    let gen = MoveGenerator::new();
    let mut b = Board::start_position();
    assert_eq!(perft(&gen, &mut b, 1), 20);
    assert_eq!(perft(&gen, &mut b, 2), 400);
    assert_eq!(perft(&gen, &mut b, 3), 8902);
}

#[test]
fn perft_kiwipete_shallow() {
    let gen = MoveGenerator::new();
    let mut b = Board::from_fen("r3k2r/p1ppqpb1/bn2pnp1/3PN3/1p2P3/2N2Q1p/PPPBBPPP/R3K2R w KQkq -").unwrap();
    assert_eq!(perft(&gen, &mut b, 1), 48);
    assert_eq!(perft(&gen, &mut b, 2), 2039);
}

#[test]
fn perft_endgame_shallow() {
    let gen = MoveGenerator::new();
    let mut b = Board::from_fen("8/2p5/3p4/KP5r/1R3p1k/8/4P1P1/8 w - -").unwrap();
    assert_eq!(perft(&gen, &mut b, 1), 14);
    assert_eq!(perft(&gen, &mut b, 2), 191);
    assert_eq!(perft(&gen, &mut b, 3), 2812);
}

#[test]
fn checks_and_legality() {
    let gen = MoveGenerator::new();
    let b = Board::from_fen("4k3/8/8/8/8/8/4r3/4K3 w - - 0 1").unwrap();
    let info = gen.gen_info(&b);
    assert!(gen.checked_king(&b, &info));
    let mut list = InlineBuffer::new();
    gen.gen_moves_info(GenType::all(), &b, &info, &mut list);
    let mut names: Vec<String> = list.as_slice().iter().map(|m| m.to_string()).collect();
    names.sort();
    assert_eq!(names, vec!["e1d1", "e1e2", "e1f1"]);
    let b = Board::from_fen("4k3/8/8/8/8/8/8/4K3 w - - 0 1").unwrap();
    let info = gen.gen_info(&b);
    assert!(!gen.checked_king(&b, &info));
}

fn perft_with_mates(gen: &MoveGenerator, b: &mut Board, depth: usize, count: &mut usize) {
    if depth == 0 {
        *count += 1;
        return;
    }
    let info = gen.gen_info(b);
    if gen.check_mate(b, &info) {
        return;
    }
    let mut list = InlineBuffer::new();
    gen.gen_moves_info(GenType::all(), b, &info, &mut list);
    for i in 0..list.len() {
        let m = list.get(i).unwrap();
        let u = b.make_move(m);
        perft_with_mates(gen, b, depth - 1, count);
        b.unmake_move(u);
    }
}

#[test]
fn perft_position_3_shallow() {
    let gen = MoveGenerator::new();
    let mut b = Board::from_fen("r3k2r/Pppp1ppp/1b3nbN/nP6/BBP1P3/q4N2/Pp1P2PP/R2Q1RK1 w kq - 0 1").unwrap();
    let mut count = 0;
    perft_with_mates(&gen, &mut b, 3, &mut count);
    assert_eq!(count, 9467);
}

#[test]
fn perft_position_4_shallow() {
    let gen = MoveGenerator::new();
    let mut b = Board::from_fen("rnbq1k1r/pp1Pbppp/2p5/8/2B5/8/PPP1NnPP/RNBQK2R w KQ - 1 8  ").unwrap();
    let mut count = 0;
    perft_with_mates(&gen, &mut b, 2, &mut count);
    assert_eq!(count, 1486);
}

#[test]
fn mates_are_found() {
    let gen = MoveGenerator::new();
    let b = Board::from_fen("rnb1kbnr/pppp1ppp/8/4p3/6Pq/5P2/PPPPP2P/RNBQKBNR w KQkq - 1 3").unwrap();
    let info = gen.gen_info(&b);
    assert!(gen.check_mate(&b, &info));
    let mut list = InlineBuffer::new();
    gen.gen_moves_info(GenType::all(), &b, &info, &mut list);
    assert!(list.is_empty());
    let b = Board::from_fen("4k3/8/8/8/8/8/4r3/4K3 w - - 0 1").unwrap();
    let info = gen.gen_info(&b);
    assert!(!gen.check_mate(&b, &info));
    let b = Board::start_position();
    let info = gen.gen_info(&b);
    assert!(!gen.check_mate(&b, &info));
}

#[test]
fn buffer_length_follows_the_operations() {
    let mut buf: InlineBuffer<4, u16> = InlineBuffer::new();
    assert_eq!(buf.len(), 0);
    buf.push(1);
    buf.push(2);
    buf.push(3);
    assert_eq!(buf.len(), 3);
    assert_eq!(buf.pop(), Some(3));
    assert_eq!(buf.len(), 2);
    buf.swap_remove(0);
    assert_eq!(buf.len(), 1);
    assert_eq!(buf.get(0), Some(2));
    assert_eq!(buf.get(1), None);
    buf.push(5);
    buf.push(6);
    buf.push(7);
    assert_eq!(buf.len(), 4);
    buf.truncate(2);
    assert_eq!(buf.len(), 2);
    assert_eq!(buf.get(1), Some(5));
    buf.clear();
    assert_eq!(buf.len(), 0);
    assert_eq!(buf.pop(), None);
    assert_eq!(buf.len(), 0);
}

#[test]
fn generated_moves_make_and_unmake_cleanly() {
    let gen = MoveGenerator::new();
    for fen in [
        "rnbqkbnr/pppppppp/8/8/8/8/PPPPPPPP/RNBQKBNR w KQkq - 0 1",
        "r3k2r/p1ppqpb1/bn2pnp1/3PN3/1p2P3/2N2Q1p/PPPBBPPP/R3K2R w KQkq -",
        "8/2p5/3p4/KP5r/1R3p1k/8/4P1P1/8 w - -",
        "4k3/8/8/pP6/8/8/8/4K3 w - a6 0 1",
        "4k3/8/8/8/8/8/4r3/4K3 w - - 0 1",
    ] {
        let parsed = Board::from_fen(fen).unwrap();
        let mut b = Board::from_squares_state(parsed.squares, parsed.state);
        assert!(b.is_valid(), "{}", fen);
        let info = gen.gen_info(&b);
        let mut list = InlineBuffer::new();
        assert!(!gen.gen_moves_info(GenType::all(), &b, &info, &mut list));
        assert!(list.len() > 0);
        for &m in list.as_slice() {
            let before = b.clone();
            let u = b.make_move(m);
            assert!(b.is_valid(), "{} {:?} {}", fen, m, b.to_fen());
            b.unmake_move(u);
            assert!(b.is_equal(&before));
        }
    }
}


#[test]
fn perft_start_position() {
    let gen = MoveGenerator::new();
    let mut b = Board::start_position();
    assert_eq!(perft(&gen, &mut b, 5), 4_865_609);
}

#[test]
fn perft_position_2() {
    let gen = MoveGenerator::new();
    let mut b = Board::from_fen("8/2p5/3p4/KP5r/1R3p1k/8/4P1P1/8 w - -").unwrap();
    assert_eq!(perft(&gen, &mut b, 6), 11_030_083);
}

#[test]
fn perft_position_3() {
    let gen = MoveGenerator::new();
    let mut b = Board::from_fen("r3k2r/Pppp1ppp/1b3nbN/nP6/BBP1P3/q4N2/Pp1P2PP/R2Q1RK1 w kq - 0 1").unwrap();
    assert_eq!(perft(&gen, &mut b, 5), 15_833_292);
}

#[test]
fn perft_position_4() {
    let gen = MoveGenerator::new();
    let mut b = Board::from_fen("rnbq1k1r/pp1Pbppp/2p5/8/2B5/8/PPP1NnPP/RNBQK2R w KQ - 1 8  ").unwrap();
    assert_eq!(perft(&gen, &mut b, 5), 89_941_194);
}


#[test]
fn back_rank_mate_leaves_no_move() {
    let gen = MoveGenerator::new();
    let b = Board::from_fen("3R2k1/5ppp/8/8/8/8/8/6K1 b - - 0 1").unwrap();
    let info = gen.gen_info(&b);
    assert!(gen.check_mate(&b, &info));
    assert!(gen.checked_king(&b, &info));
    let mut list = InlineBuffer::new();
    assert!(!gen.gen_moves_info(GenType::all(), &b, &info, &mut list));
    assert!(list.is_empty());
}

#[test]
fn perft_position_1() {
    let gen = MoveGenerator::new();
    let mut b = Board::from_fen("r3k2r/p1ppqpb1/bn2pnp1/3PN3/1p2P3/2N2Q1p/PPPBBPPP/R3K2R w KQkq -").unwrap();
    assert_eq!(perft(&gen, &mut b, 5), 193_690_690);
}

#[test]
fn perft_position_5() {
    let gen = MoveGenerator::new();
    let mut b = Board::from_fen("r4rk1/1pp1qppp/p1np1n2/2b1p1B1/2B1P1b1/P1NP1N2/1PP1QPPP/R4RK1 w - - 0 10 ").unwrap();
    assert_eq!(perft(&gen, &mut b, 5), 164_075_551);
}
