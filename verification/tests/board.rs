use chess::chess_core::mov::Move;
use chess::common::board::Board;
use chess::common::hash::HashTables;
use rand::{Rng, SeedableRng};
use chess::common::misc::Player;
use chess::common::piece::SquareContent;
use chess::common::square::Square;

fn sq(name: &str) -> Square {
    Square::from_name(name).unwrap()
}

const START: &str = "rnbqkbnr/pppppppp/8/8/8/8/PPPPPPPP/RNBQKBNR w KQkq - 0 1";

#[test]
fn start_position_fen() {
    let b = Board::start_position();
    assert_eq!(b.to_fen(), START);
    assert!(b.is_valid());
    let parsed = Board::from_fen(START).unwrap();
    assert_eq!(parsed.to_fen(), START);
    assert_eq!(parsed.pieces, b.pieces);
    assert_eq!(parsed.state, b.state);
    // Reading a FEN string leaves the hash at the initial key.
    assert_eq!(parsed.hash, parsed.hash_tables.initial());
    assert!(!parsed.is_valid());
}

#[test]
fn fen_roundtrip_and_errors() {
    for fen in [
        "r3k2r/p1ppqpb1/bn2pnp1/3PN3/1p2P3/2N2Q1p/PPPBBPPP/R3K2R w KQkq - 0 1",
        "8/2p5/3p4/KP5r/1R3p1k/8/4P1P1/8 b - - 5 6",
        "rnbqkbnr/1ppppppp/8/p3P3/8/8/PPPP1PPP/RNBQKBNR w KQkq a6 0 1",
    ] {
        let b = Board::from_fen(fen).unwrap();
        assert_eq!(b.to_fen(), fen);
    }
    assert!(Board::from_fen("not a fen").is_err());
    assert!(Board::from_fen("8/8/8/8/8/8/8/8/8 w - - 0 1").is_err());
    assert!(Board::from_fen("8/8/8/8/8/8/8/8 x - - 0 1").is_err());
    // With a one-digit clock the move number is left unread.
    let (b, rest) = Board::from_fen_partial("4k3/8/8/8/8/8/8/4K3 w - - 0 1 moves e1e2").unwrap();
    assert_eq!(b.to_fen(), "4k3/8/8/8/8/8/8/4K3 w - - 0 1");
    assert_eq!(rest, "1 moves e1e2");
    // With a two-digit clock the move number is read, and the clock keeps its last digit.
    let (b, rest) = Board::from_fen_partial("4k3/8/8/8/8/8/8/4K3 w - - 12 30 moves e1e2").unwrap();
    assert_eq!(b.state.move_clock, 2);
    assert_eq!(rest, " moves e1e2");
    let (_, rest) = Board::from_fen_partial("4k3/8/8/8/8/8/8/4K3 b - -").unwrap();
    assert_eq!(rest, "");
}

#[test]
fn make_and_unmake_restore_the_board() {
    let mut b = Board::start_position();
    let before = b.clone();
    let u = b.make_move(Move::double_pawn(sq("e2"), sq("e4")));
    assert_eq!(b.state.player, Player::Black);
    assert_eq!(b.on(sq("e4")), SquareContent::WhitePawn);
    assert_eq!(b.on(sq("e2")), SquareContent::Empty);
    assert_ne!(b.hash, before.hash);
    assert!(b.is_valid());
    assert_eq!(b.to_fen(), "rnbqkbnr/pppppppp/8/8/4P3/8/PPPP1PPP/RNBQKBNR b KQkq e3 0 1");
    b.unmake_move(u);
    assert!(b.is_equal(&before));
    assert_eq!(b.to_fen(), START);
}

#[test]
fn make_capture_castle_and_promotion() {
    let mut b = Board::from_fen("r3k2r/1P6/8/8/8/8/8/R3K2R w KQkq - 0 1").unwrap();
    let before = b.clone();
    let u1 = b.make_move(Move::castle(sq("e1"), sq("g1")));
    assert_eq!(b.on(sq("g1")), SquareContent::WhiteKing);
    assert_eq!(b.on(sq("f1")), SquareContent::WhiteRook);
    assert_eq!(b.on(sq("h1")), SquareContent::Empty);
    assert_eq!(b.state.castle & 0b0011, 0);
    let mid = b.clone();
    let u2 = b.make_move(Move::normal(sq("h8"), sq("h1")));
    assert_eq!(u2.taken, SquareContent::Empty);
    assert_eq!(b.on(sq("h1")), SquareContent::BlackRook);
    b.unmake_move(u2);
    assert!(b.is_equal(&mid));
    b.unmake_move(u1);
    assert!(b.is_equal(&before));

    let mut b = Board::from_fen("r3k2r/1P6/8/8/8/8/8/R3K2R w KQkq - 0 1").unwrap();
    let before = b.clone();
    let u = b.make_move(Move::promotion(sq("b7"), sq("a8"), chess::chess_core::mov::Promotion::Queen));
    assert_eq!(b.on(sq("a8")), SquareContent::WhiteQueen);
    assert_eq!(u.taken, SquareContent::BlackRook);
    assert_eq!(b.on(sq("b7")), SquareContent::Empty);
    b.unmake_move(u);
    assert!(b.is_equal(&before));
}

#[test]
fn en_passant_capture() {
    let mut b = Board::from_fen("4k3/8/8/pP6/8/8/8/4K3 w - a6 0 1").unwrap();
    assert_eq!(b.state.en_passant, 0);
    let before = b.clone();
    let u = b.make_move(Move::en_passant(sq("b5"), sq("a6")));
    assert_eq!(b.on(sq("a5")), SquareContent::Empty);
    assert_eq!(b.on(sq("a6")), SquareContent::WhitePawn);
    assert_eq!(u.taken, SquareContent::BlackPawn);
    b.unmake_move(u);
    assert!(b.is_equal(&before));
}

#[test]
fn squares_and_names() {
    assert_eq!(sq("a1").get(), 0);
    assert_eq!(sq("h8").get(), 63);
    assert_eq!(sq("e4").to_string(), "e4");
    assert_eq!(sq("e4").file(), 4);
    assert_eq!(sq("e4").rank(), 3);
    assert_eq!(sq("a1").flip().get(), 63);
    assert!(Square::from_name("i9").is_none());
    assert!(Square::from_name("a").is_none());
    assert_eq!(Square::from_file_rank(2, 5).to_string(), "c6");
}

#[test]
fn moves_encode_their_parts() {
    let m = Move::normal(sq("g1"), sq("f3"));
    assert_eq!(m.from().get(), sq("g1").get());
    assert_eq!(m.to().get(), sq("f3").get());
    assert_eq!(m.to_string(), "g1f3");
    let p = Move::promotion(sq("a7"), sq("a8"), chess::chess_core::mov::Promotion::Knight);
    assert_eq!(p.get_promotion(), Some(chess::chess_core::mov::Promotion::Knight));
    assert_eq!(Move::from_u16(m.to_u16()), m);
    assert_eq!(Move::from_name("e2e4").unwrap().to_string(), "e2e4");
}

#[test]
fn hashes_are_reproducible() {
    let a = Board::start_position();
    let b = Board::from_fen(START).unwrap();
    assert_eq!(a.hash, Board::start_position().hash);
    assert_ne!(a.hash, 0);
    assert_eq!(a.hash_tables.initial(), b.hash_tables.initial());
    assert_ne!(a.hash_tables.piece(0, 0), a.hash_tables.piece(0, 1));
}

#[test]
fn written_positions_read_back() {
    let mut b = Board::start_position();
    b.make_move(Move::normal(sq("g1"), sq("f3")));
    b.make_move(Move::normal(sq("b8"), sq("c6")));
    b.make_move(Move::normal(sq("f3"), sq("g1")));
    let parsed = Board::from_fen(b.to_fen().as_str()).unwrap();
    assert_eq!(parsed.state, b.state);
    assert_eq!(parsed.state.move_clock, 3);
    assert_eq!(parsed.pieces, b.pieces);
    for i in 0..64u8 {
        let s = Square::new(i);
        assert_eq!(parsed.on(s), b.on(s));
    }
}

#[test]
fn hash_tables_place_draws_in_order() {
    let d: Vec<u64> = (0..795u64).map(|x| x * 3 + 1).collect();
    let t = HashTables::from_draws(&d);
    assert_eq!(t.piece(0, 0), 1);
    assert_eq!(t.piece(0, 63), 63 * 3 + 1);
    assert_eq!(t.piece(3, 5), (3 * 64 + 5) * 3 + 1);
    assert_eq!(t.piece(11, 63), 767 * 3 + 1);
    assert_eq!(t.castle_state(0), 768 * 3 + 1);
    assert_eq!(t.castle_state(15), 783 * 3 + 1);
    assert_eq!(t.en_passant_state(0), 784 * 3 + 1);
    assert_eq!(t.en_passant_state(8), 792 * 3 + 1);
    assert_eq!(t.turn(), 793 * 3 + 1);
    assert_eq!(t.initial(), 794 * 3 + 1);
}

#[test]
fn hash_tables_are_the_same_each_time() {
    let a = HashTables::new();
    let b = HashTables::new();
    assert!(a == b);
    assert_ne!(a.turn(), a.initial());
}

#[test]
fn clock_at_its_limit_resets_on_a_pawn_move() {
    let mut b = Board::start_position();
    b.state.move_clock = 255;
    let before = b.clone();
    let u = b.make_move(Move::double_pawn(sq("e2"), sq("e4")));
    assert_eq!(b.state.move_clock, 0);
    b.unmake_move(u);
    assert!(b.is_equal(&before));
    assert_eq!(b.state.move_clock, 255);
}

#[test]
fn hash_tables_hold_the_seeded_draws() {
    let mut rng = rand::rngs::StdRng::seed_from_u64(9291248438346573197);
    let d: Vec<u64> = (0..795).map(|_| rng.gen::<u64>()).collect();
    let expected = HashTables::from_draws(&d);
    let t = HashTables::new();
    assert!(t == expected);
    assert_eq!(t.piece(0, 0), d[0]);
    assert_eq!(t.initial(), d[794]);
}

#[test]
fn cond_flip_negates_on_request() {
    assert_eq!(chess::common::util::cond_flip(5, true), -5);
    assert_eq!(chess::common::util::cond_flip(5, false), 5);
    assert_eq!(chess::common::util::cond_flip(-7, true), 7);
    assert_eq!(chess::common::util::cond_flip(0, true), 0);
}
