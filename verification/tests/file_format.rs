use chess::chess_core::mov::Move;
use chess::common::board::Board;
use chess::common::misc::{DrawCause, Outcome, Player, WinCause};
use chess::common::square::Square;
use chess::file::board::FileBoard;
use chess::file::game::Game;
use chess::file::{FromBytes, Needed, ToBytes};

fn sq(name: &str) -> Square {
    Square::from_name(name).unwrap()
}

#[test]
fn file_board_roundtrip() {
    let b = Board::from_fen("r3k2r/p1ppqpb1/bn2pnp1/3PN3/1p2P3/2N2Q1p/PPPBBPPP/R3K2R b KQkq - 7 8").unwrap();
    let f = FileBoard::from_board(&b);
    let mut bytes = Vec::new();
    f.to_bytes(&mut bytes).unwrap();
    assert_eq!(bytes.len(), 34);
    let (n, g) = FileBoard::from_bytes(&bytes).unwrap();
    assert_eq!(n, 34);
    assert_eq!(g.to_board().to_fen(), b.to_fen());
    assert_eq!(g.to_board().pieces, b.pieces);
    assert_eq!(FileBoard::from_bytes(&bytes[..10]).unwrap_err(), Needed::Size(24));
}

#[test]
fn file_board_bytes() {
    let b = Board::from_fen("4k3/8/8/8/8/8/8/4K3 b - - 3 4").unwrap();
    let mut bytes = Vec::new();
    FileBoard::from_board(&b).to_bytes(&mut bytes).unwrap();
    let last = &bytes[32..];
    assert_eq!(last[0] & 0x0f, 8);
    assert_eq!(last[1], 0x80 | 3);
}

#[test]
fn move_bytes_roundtrip() {
    let m = Move::normal(sq("e2"), sq("e4"));
    let mut bytes = Vec::new();
    m.to_bytes(&mut bytes).unwrap();
    assert_eq!(bytes.len(), 2);
    let (n, back) = Move::from_bytes(&bytes).unwrap();
    assert_eq!(n, 2);
    assert_eq!(back, m);
    assert_eq!(Move::from_bytes(&bytes[..1]).unwrap_err(), Needed::Size(1));
}

#[test]
fn outcome_bytes() {
    for o in [Outcome::Undetermined, Outcome::Drawn(DrawCause::Stalemate), Outcome::Drawn(DrawCause::Material)] {
        let mut bytes = Vec::new();
        o.to_bytes(&mut bytes).unwrap();
        assert_eq!(bytes.len(), 1);
        assert_eq!(Outcome::from_bytes(&bytes).unwrap(), (1, o));
    }
    let won = Outcome::Won { by: Player::White, cause: WinCause::Mate };
    let mut bytes = Vec::new();
    won.to_bytes(&mut bytes).unwrap();
    let (_, back) = Outcome::from_bytes(&bytes).unwrap();
    assert_eq!(back, Outcome::Won { by: Player::Black, cause: WinCause::Mate });
    assert_eq!(Outcome::from_bytes(&[]).unwrap_err(), Needed::Size(1));
}

#[test]
fn game_roundtrip() {
    let start = Board::start_position();
    let g = Game {
        start_position: FileBoard::from_board(&start),
        moves: vec![Move::double_pawn(sq("e2"), sq("e4")), Move::normal(sq("g8"), sq("f6"))],
        outcome: Outcome::Drawn(DrawCause::Agreement),
    };
    let mut bytes = Vec::new();
    g.to_bytes(&mut bytes).unwrap();
    assert_eq!(bytes.len(), 34 + 4 + 2 * 2 + 1);
    let (n, back) = Game::from_bytes(&bytes).unwrap();
    assert_eq!(n, bytes.len());
    assert_eq!(back.moves, g.moves);
    assert_eq!(back.outcome, g.outcome);
    assert_eq!(back.start_position.to_board().to_fen(), start.to_fen());
    assert!(Game::from_bytes(&bytes[..bytes.len() - 1]).is_err());
}
