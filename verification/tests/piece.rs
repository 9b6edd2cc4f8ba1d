use chess::common::misc::Player;
use chess::common::piece::Piece;

#[test]
fn select() {
    assert_eq!(Piece::player_king(Player::White), Piece::WhiteKing);
    assert_eq!(Piece::player_king(Player::Black), Piece::BlackKing);
    assert_eq!(Piece::player_queen(Player::White), Piece::WhiteQueen);
    assert_eq!(Piece::player_queen(Player::Black), Piece::BlackQueen);
    assert_eq!(Piece::player_knight(Player::White), Piece::WhiteKnight);
    assert_eq!(Piece::player_knight(Player::Black), Piece::BlackKnight);
    assert_eq!(Piece::player_bishop(Player::White), Piece::WhiteBishop);
    assert_eq!(Piece::player_bishop(Player::Black), Piece::BlackBishop);
    assert_eq!(Piece::player_rook(Player::White), Piece::WhiteRook);
    assert_eq!(Piece::player_rook(Player::Black), Piece::BlackRook);
    assert_eq!(Piece::player_pawn(Player::White), Piece::WhitePawn);
    assert_eq!(Piece::player_pawn(Player::Black), Piece::BlackPawn);
}

#[test]
fn iter_all() {
    let all: Vec<Piece> = Piece::all().to_vec();
    assert_eq!(all.len(), 12);
    assert!(all.contains(&Piece::WhiteKing));
    assert!(all.contains(&Piece::BlackKing));

    assert!(all.contains(&Piece::WhitePawn));
    assert!(all.contains(&Piece::BlackPawn));

    assert!(all.contains(&Piece::WhiteBishop));
    assert!(all.contains(&Piece::BlackBishop));

    assert!(all.contains(&Piece::WhiteKnight));
    assert!(all.contains(&Piece::BlackKnight));

    assert!(all.contains(&Piece::WhiteRook));
    assert!(all.contains(&Piece::BlackRook));

    assert!(all.contains(&Piece::WhiteQueen));
    assert!(all.contains(&Piece::BlackQueen));
}

#[test]
fn iter_player() {
    let white: Vec<Piece> = Piece::player_pieces(Player::White).to_vec();
    assert_eq!(white.len(), 6);
    assert!(white.contains(&Piece::WhiteKing));
    assert!(white.contains(&Piece::WhitePawn));
    assert!(white.contains(&Piece::WhiteBishop));
    assert!(white.contains(&Piece::WhiteKnight));
    assert!(white.contains(&Piece::WhiteRook));
    assert!(white.contains(&Piece::WhiteQueen));

    let black: Vec<Piece> = Piece::player_pieces(Player::Black).to_vec();
    assert_eq!(black.len(), 6);
    assert!(black.contains(&Piece::BlackKing));
    assert!(black.contains(&Piece::BlackPawn));
    assert!(black.contains(&Piece::BlackBishop));
    assert!(black.contains(&Piece::BlackKnight));
    assert!(black.contains(&Piece::BlackRook));
    assert!(black.contains(&Piece::BlackQueen));
}

#[test]
fn iter_promote() {
    let white: Vec<Piece> = Piece::player_promote_pieces(Player::White).to_vec();
    println!("{:?}", white);
    assert_eq!(white.len(), 4);
    assert!(white.contains(&Piece::WhiteBishop));
    assert!(white.contains(&Piece::WhiteKnight));
    assert!(white.contains(&Piece::WhiteRook));
    assert!(white.contains(&Piece::WhiteQueen));

    let black: Vec<Piece> = Piece::player_promote_pieces(Player::Black).to_vec();
    assert_eq!(black.len(), 4);
    assert!(black.contains(&Piece::BlackBishop));
    assert!(black.contains(&Piece::BlackKnight));
    assert!(black.contains(&Piece::BlackRook));
    assert!(black.contains(&Piece::BlackQueen));
}
