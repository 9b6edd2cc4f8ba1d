use vstd::prelude::*;
use vstd::string::StrSliceExecFns;
use super::board::{Board, consistent, pieces_from_squares};
use super::extra_state::ExtraState;
use super::hash::{HashTables, hash_draws, placed};
use super::misc::Player;
use super::piece::{Piece, SquareContent, content_of_piece, piece_char, piece_of_char, piece_of_content};
use super::square::Square;
use crate::chess_core::util::BoardArray;
use crate::text::{chars_of, decimal, digit_char, digit_to_char, digit_value, is_digit, push_decimal, string_of};

verus! {

/// The error of a string that is not a position in Forsyth-Edwards notation.
#[derive(Debug, Clone, Copy, PartialEq, Eq, Structural)]
pub struct FenError;

/// How reading the piece placement of a FEN string ends.
pub enum FenPlacement {
    /// The placement is malformed.
    Fail,
    /// More than 255 ranks were closed with `/`: the rank counter overflows.
    Overflow,
    /// The placement was read; `next` is the index just after the space that ends it.
    Done { next: int, squares: Seq<SquareContent> },
}

/// Reads the piece placement from index `i` on, with the given file and rank counters and
/// the squares filled so far.
pub open spec fn fen_placement(s: Seq<char>, i: int, file: u8, rank: u8, sq: Seq<SquareContent>) -> FenPlacement
    decreases s.len() - i,
{
    if i < 0 || i >= s.len() {
        FenPlacement::Fail
    } else {
        let c = s[i];
        if is_digit(c) {
            let f = if file + digit_value(c) > 255 { 255u8 } else { (file + digit_value(c)) as u8 };
            fen_placement(s, i + 1, f, rank, sq)
        } else if c == '/' {
            if file != 8 {
                FenPlacement::Fail
            } else if rank == 255 {
                FenPlacement::Overflow
            } else {
                fen_placement(s, i + 1, 0, (rank + 1) as u8, sq)
            }
        } else if c == ' ' {
            if file != 8 || rank != 7 {
                FenPlacement::Fail
            } else {
                FenPlacement::Done { next: i + 1, squares: sq }
            }
        } else if file > 7 || rank > 7 {
            FenPlacement::Fail
        } else {
            match piece_of_char(c) {
                None => FenPlacement::Fail,
                Some(p) => fen_placement(
                    s,
                    i + 1,
                    (file + 1) as u8,
                    rank,
                    sq.update(file + 8 * (7 - rank), content_of_piece(p)),
                ),
            }
        }
    }
}

/// The outcome of reading a FEN string.
pub enum FenOutcome {
    /// The string is not a position.
    Invalid,
    /// Reading the string overflows a counter.
    Panics,
    /// The position, and the index at which the unread rest of the string starts.
    Parsed { squares: Seq<SquareContent>, state: ExtraState, rest: int },
}

/// The castling flags `K`, `Q`, `k`, `q` from index `j`, each optional, in that order:
/// the rights read and the index of the first character after them, or `None` when the
/// string ends after a flag.
pub open spec fn fen_castle_flags(s: Seq<char>, j: int) -> Option<(u8, int)> {
    let (c1, j1) = if s[j] == 'K' { (1u8, j + 1) } else { (0u8, j) };
    if j1 >= s.len() {
        None
    } else {
        let (c2, j2) = if s[j1] == 'Q' { ((c1 | 2) as u8, j1 + 1) } else { (c1, j1) };
        if j2 >= s.len() {
            None
        } else {
            let (c3, j3) = if s[j2] == 'k' { ((c2 | 4) as u8, j2 + 1) } else { (c2, j2) };
            if j3 >= s.len() {
                None
            } else {
                let (c4, j4) = if s[j3] == 'q' { ((c3 | 8) as u8, j3 + 1) } else { (c3, j3) };
                if j4 >= s.len() {
                    None
                } else {
                    Some((c4, j4))
                }
            }
        }
    }
}

/// The optional clocks after the en passant field, read from index `b1` with the state
/// read so far: the half-move clock and the full-move number are each one or two digits,
/// and what follows them is left unread.
pub open spec fn fen_clocks(s: Seq<char>, b1: int, sq: Seq<SquareContent>, st: ExtraState) -> FenOutcome {
    let len = s.len();
    if b1 >= len || s[b1] != ' ' {
        FenOutcome::Parsed { squares: sq, state: st, rest: b1 }
    } else if b1 + 1 >= len {
        FenOutcome::Parsed { squares: sq, state: st, rest: b1 + 1 }
    } else if !is_digit(s[b1 + 1]) {
        FenOutcome::Parsed { squares: sq, state: st, rest: b1 }
    } else {
        let st1 = ExtraState { move_clock: digit_value(s[b1 + 1]) as u8, ..st };
        let b2 = b1 + 2;
        if b2 >= len {
            FenOutcome::Parsed { squares: sq, state: st1, rest: b2 }
        } else if !is_digit(s[b2]) && s[b2] != ' ' {
            FenOutcome::Parsed { squares: sq, state: st1, rest: b2 }
        } else {
            let st2 = if is_digit(s[b2]) {
                ExtraState { move_clock: digit_value(s[b2]) as u8, ..st1 }
            } else {
                st1
            };
            let b3 = b2 + 1;
            if b3 >= len || s[b3] != ' ' || b3 + 1 >= len || !is_digit(s[b3 + 1]) {
                FenOutcome::Parsed { squares: sq, state: st2, rest: b3 }
            } else {
                let b4 = b3 + 2;
                if b4 >= len || !is_digit(s[b4]) {
                    FenOutcome::Parsed { squares: sq, state: st2, rest: b4 }
                } else {
                    FenOutcome::Parsed { squares: sq, state: st2, rest: b4 + 1 }
                }
            }
        }
    }
}

/// Reads the fields after the piece placement, from index `j`.
pub open spec fn fen_fields(s: Seq<char>, j: int, sq: Seq<SquareContent>) -> FenOutcome {
    let len = s.len();
    if j >= len || (s[j] != 'b' && s[j] != 'w') || j + 1 >= len || s[j + 1] != ' ' || j + 2 >= len {
        FenOutcome::Invalid
    } else {
        let player = if s[j] == 'b' { Player::Black } else { Player::White };
        let k = j + 2;
        let castle_end: Option<(u8, int)> = if s[k] != '-' {
            match fen_castle_flags(s, k) {
                Some((c, e)) => if c == 0 || s[e] != ' ' {
                    None
                } else {
                    Some((c, e + 1))
                },
                None => None,
            }
        } else if k + 1 >= len || s[k + 1] != ' ' {
            None
        } else {
            Some((0u8, k + 2))
        };
        match castle_end {
            None => FenOutcome::Invalid,
            Some((castle, e)) => if e >= len {
                FenOutcome::Invalid
            } else if s[e] != '-' {
                if !('a' <= s[e] && s[e] <= 'h') {
                    FenOutcome::Invalid
                } else if s[e] != 'a' {
                    FenOutcome::Panics
                } else if e + 1 >= len || (s[e + 1] != '3' && s[e + 1] != '6') {
                    FenOutcome::Invalid
                } else {
                    fen_clocks(
                        s,
                        e + 2,
                        sq,
                        ExtraState { player, castle, en_passant: 0, move_clock: 0 },
                    )
                }
            } else {
                fen_clocks(s, e + 1, sq, ExtraState { player, castle, en_passant: 8, move_clock: 0 })
            },
        }
    }
}


/// The FEN text of rank `r` from file `f` on, after `accum` empty squares not yet written.
pub open spec fn fen_rank(sq: Seq<SquareContent>, r: int, f: int, accum: nat) -> Seq<char>
    decreases 8 - f,
{
    if f >= 8 {
        if accum > 0 { seq![digit_char(accum as int)] } else { Seq::empty() }
    } else if sq[f + 8 * r] != SquareContent::Empty {
        (if accum > 0 { seq![digit_char(accum as int)] } else { Seq::empty() }).push(
            piece_char(piece_of_content(sq[f + 8 * r])->0),
        ) + fen_rank(sq, r, f + 1, 0)
    } else {
        fen_rank(sq, r, f + 1, accum + 1)
    }
}

/// The FEN text of the first `k` ranks from the top, each but the last followed by `/`.
pub open spec fn fen_ranks(sq: Seq<SquareContent>, k: int) -> Seq<char>
    decreases k,
{
    if k <= 0 {
        Seq::empty()
    } else {
        fen_ranks(sq, k - 1) + fen_rank(sq, 7 - (k - 1), 0, 0) + (if k - 1 != 7 {
            seq!['/']
        } else {
            Seq::empty()
        })
    }
}

/// The castling field of a FEN string.
pub open spec fn fen_castle_text(c: u8) -> Seq<char> {
    let k = if c & 1 != 0 { seq!['K'] } else { Seq::empty() };
    let q = if c & 2 != 0 { seq!['Q'] } else { Seq::empty() };
    let k2 = if c & 4 != 0 { seq!['k'] } else { Seq::empty() };
    let q2 = if c & 8 != 0 { seq!['q'] } else { Seq::empty() };
    if c == 0 { seq!['-'] } else { k + q + k2 + q2 }
}

/// The en passant field of a FEN string.
pub open spec fn fen_en_passant_text(st: ExtraState) -> Seq<char> {
    if st.en_passant == 8 {
        seq!['-']
    } else {
        seq![(97 + st.en_passant) as char, if st.player == Player::White { '6' } else { '3' }]
    }
}

/// The FEN string of a position; the move clock also stands in for the full-move number,
/// as one more than it.
pub open spec fn fen_text(sq: Seq<SquareContent>, st: ExtraState) -> Seq<char> {
    fen_ranks(sq, 8) + seq![' ', if st.player == Player::White { 'w' } else { 'b' }, ' ']
        + fen_castle_text(st.castle) + seq![' '] + fen_en_passant_text(st) + seq![' '] + decimal(
        st.move_clock as nat,
    ) + seq![' '] + decimal(st.move_clock as nat + 1)
}

/// Sixty-four empty squares.
pub open spec fn empty_squares() -> Seq<SquareContent> {
    Seq::new(64, |i: int| SquareContent::Empty)
}

/// Reads a position in Forsyth-Edwards notation from the start of a string.
///
/// Three behaviours are kept as the library has always had them, though a reader might
/// expect otherwise: an en passant square on any file but `a` makes the reader fail as on
/// an overflow (`Panics`), since the file is taken as a distance from `a` below zero; of a
/// two-digit half-move clock only the second digit is kept; and after a one-digit clock the
/// full-move number is left unread.
pub open spec fn fen_parse(s: Seq<char>) -> FenOutcome {
    match fen_placement(s, 0, 0, 0, empty_squares()) {
        FenPlacement::Fail => FenOutcome::Invalid,
        FenPlacement::Overflow => FenOutcome::Panics,
        FenPlacement::Done { next, squares } => fen_fields(s, next, squares),
    }
}

/// The character at index `i`, if any.
fn char_at(s: &Vec<char>, i: usize) -> (r: Option<char>)
    ensures
        i < s@.len() ==> r == Some(s@[i as int]),
        i >= s@.len() ==> r is None,
{
    if i < s.len() {
        Some(s[i])
    } else {
        None
    }
}

/// Reads the optional castling flags from index `j`.
fn read_castle_flags(s: &Vec<char>, j: usize) -> (r: Option<(u8, usize)>)
    requires
        j < s@.len(),
    ensures
        match fen_castle_flags(s@, j as int) {
            None => r is None,
            Some((c, e)) => r == Some((c, e as usize)),
        },
{
    let mut c: u8 = 0;
    let mut k = j;
    let _n = s.len();
    if s[k] == 'K' {
        c = 1;
        k = k + 1;
    }
    if k >= s.len() {
        return None;
    }
    if s[k] == 'Q' {
        c = c | 2;
        k = k + 1;
    }
    if k >= s.len() {
        return None;
    }
    if s[k] == 'k' {
        c = c | 4;
        k = k + 1;
    }
    if k >= s.len() {
        return None;
    }
    if s[k] == 'q' {
        c = c | 8;
        k = k + 1;
    }
    if k >= s.len() {
        return None;
    }
    Some((c, k))
}

/// Reads the optional clocks from index `b1`: a two-digit clock keeps only its second
/// digit, and after a one-digit clock the full-move number is left unread (see
/// `fen_parse`).
fn read_clocks(s: &Vec<char>, b1: usize, st: ExtraState) -> (r: (ExtraState, usize))
    requires
        b1 <= s@.len(),
    ensures
        ({
            let sq = empty_squares();
            fen_clocks(s@, b1 as int, sq, st) == (FenOutcome::Parsed { squares: sq, state: r.0, rest: r.1 as int })
        }),
        r.1 <= s@.len(),
{
    let len = s.len();
    if b1 >= len || s[b1] != ' ' {
        return (st, b1);
    }
    if b1 + 1 >= len {
        return (st, b1 + 1);
    }
    let c = s[b1 + 1];
    if !('0' <= c && c <= '9') {
        return (st, b1);
    }
    let mut st1 = st;
    st1.move_clock = crate::text::char_to_digit(c);
    let b2 = b1 + 2;
    if b2 >= len {
        return (st1, b2);
    }
    let c2 = s[b2];
    let is_d = '0' <= c2 && c2 <= '9';
    if !is_d && c2 != ' ' {
        return (st1, b2);
    }
    let mut st2 = st1;
    if is_d {
        st2.move_clock = crate::text::char_to_digit(c2);
    }
    let b3 = b2 + 1;
    if b3 >= len || s[b3] != ' ' || b3 + 1 >= len || !('0' <= s[b3 + 1] && s[b3 + 1] <= '9') {
        return (st2, b3);
    }
    let b4 = b3 + 2;
    if b4 >= len || !('0' <= s[b4] && s[b4] <= '9') {
        return (st2, b4);
    }
    (st2, b4 + 1)
}

/// The castling field of a FEN string.
fn castle_text(c: u8) -> (r: Vec<char>)
    ensures
        r@ == fen_castle_text(c),
{
    let mut buffer: Vec<char> = Vec::new();
    if c & 1 != 0 {
        buffer.push('K');
    }
    if c & 2 != 0 {
        buffer.push('Q');
    }
    if c & 4 != 0 {
        buffer.push('k');
    }
    if c & 8 != 0 {
        buffer.push('q');
    }
    if c == 0 {
        assert(c == 0 ==> c & 1 == 0 && c & 2 == 0 && c & 4 == 0 && c & 8 == 0) by (bit_vector);
        buffer.push('-');
    }
    proof {
        assert(buffer@ =~= fen_castle_text(c));
    }
    buffer
}

/// The en passant field of a FEN string.
fn en_passant_text(st: ExtraState) -> (r: Vec<char>)
    requires
        st.en_passant < 159,
    ensures
        r@ == fen_en_passant_text(st),
{
    let mut buffer: Vec<char> = Vec::new();
    if st.en_passant == 8 {
        buffer.push('-');
    } else {
        buffer.push(((97u8 + st.en_passant) as char));
        if st.player == Player::White {
            buffer.push('6');
        } else {
            buffer.push('3');
        }
    }
    proof {
        assert(buffer@ =~= fen_en_passant_text(st));
    }
    buffer
}

/// Why reading a FEN string stopped: the string is no position, or a counter would
/// overflow.
enum FenFailure {
    Invalid,
    Overflow,
}

impl Board {
    /// Reads a position in Forsyth-Edwards notation from the start of a string: the board
    /// and the index of the first character left unread.
    fn read_fen(fen: &str) -> (r: Result<(Self, usize), FenFailure>)
        ensures
            match fen_parse(fen@) {
                FenOutcome::Parsed { squares, state, rest } => r matches Ok((b, at)) && b.squares.0@
                    == squares && b.state == state && at == rest && 0 <= rest <= fen@.len()
                    && consistent(b@) && b.hash == b.hash_tables.initial_key && placed(hash_draws(), b.hash_tables),
                FenOutcome::Invalid => r matches Err(FenFailure::Invalid),
                FenOutcome::Panics => r matches Err(FenFailure::Overflow),
            },
    {
        let s = chars_of(fen);
        let n = s.len();
        let ghost empty = empty_squares();
        let mut squares = BoardArray::new(SquareContent::Empty);
        proof {
            assert(squares.0@ =~= empty);
        }
        let mut i: usize = 0;
        let mut file: u8 = 0;
        let mut rank: u8 = 0;
        let mut done = false;
        while !done
            invariant
                n == s@.len(),
                s@ == fen@,
                empty == empty_squares(),
                squares.0@.len() == 64,
                i <= n,
                !done ==> fen_placement(s@, i as int, file, rank, squares.0@) == fen_placement(s@, 0, 0, 0, empty),
                done ==> fen_placement(s@, 0, 0, 0, empty) == (FenPlacement::Done { next: i as int, squares: squares.0@ }),
            decreases n - i,
        {
            if i >= n {
                return Err(FenFailure::Invalid);
            }
            let c = s[i];
            if '0' <= c && c <= '9' {
                let d = crate::text::char_to_digit(c);
                file = file.saturating_add(d);
                i = i + 1;
            } else if c == '/' {
                if file != 8 {
                    return Err(FenFailure::Invalid);
                }
                if rank == 255 {
                    return Err(FenFailure::Overflow);
                }
                file = 0;
                rank = rank + 1;
                i = i + 1;
            } else if c == ' ' {
                if file != 8 || rank != 7 {
                    return Err(FenFailure::Invalid);
                }
                i = i + 1;
                done = true;
            } else {
                if file > 7 || rank > 7 {
                    return Err(FenFailure::Invalid);
                }
                let p = match Piece::from_char(c) {
                    Some(p) => p,
                    None => return Err(FenFailure::Invalid),
                };
                let sq = Square::from_file_rank(file, 7 - rank);
                squares.set(sq, SquareContent::from(p));
                file = file + 1;
                i = i + 1;
            }
        }
        let ghost placed = squares.0@;
        let mut state = ExtraState::empty();
        match char_at(&s, i) {
            Some('b') => {
                state.player = Player::Black;
            },
            Some('w') => {},
            _ => return Err(FenFailure::Invalid),
        }
        if char_at(&s, i + 1) != Some(' ') {
            return Err(FenFailure::Invalid);
        }
        let k = i + 2;
        if k >= n {
            return Err(FenFailure::Invalid);
        }
        let e: usize;
        if s[k] != '-' {
            match read_castle_flags(&s, k) {
                Some((c, e4)) => {
                    if c == 0 || s[e4] != ' ' {
                        return Err(FenFailure::Invalid);
                    }
                    state.castle = c;
                    e = e4 + 1;
                },
                None => return Err(FenFailure::Invalid),
            }
        } else {
            if char_at(&s, k + 1) != Some(' ') {
                return Err(FenFailure::Invalid);
            }
            e = k + 2;
        }
        if e >= n {
            return Err(FenFailure::Invalid);
        }
        let b1: usize;
        if s[e] != '-' {
            if !('a' <= s[e] && s[e] <= 'h') {
                return Err(FenFailure::Invalid);
            }
            if s[e] != 'a' {
                return Err(FenFailure::Overflow);
            }
            let f = char_at(&s, e + 1);
            if f != Some('3') && f != Some('6') {
                return Err(FenFailure::Invalid);
            }
            state.en_passant = 0;
            b1 = e + 2;
        } else {
            state.en_passant = 8;
            b1 = e + 1;
        }
        let (st, rest) = read_clocks(&s, b1, state);
        let pieces = pieces_from_squares(&squares);
        let hash_tables = HashTables::new();
        let board = Board { pieces, squares, state: st, hash: hash_tables.initial(), hash_tables };
        proof {
            assert(consistent(board@));
        }
        Ok((board, rest))
    }

    /// Reads a position in Forsyth-Edwards notation from the start of a string and returns
    /// it with the unread rest of the string. The hash of the board is left at the
    /// initial key, as it always has been: `from_squares_state` gives a board with its
    /// hash. See `fen_parse` for the other behaviours kept.
    pub fn from_fen_partial(fen: &str) -> (r: Result<(Self, &str), FenError>)
        requires
            !(fen_parse(fen@) is Panics),
        ensures
            match fen_parse(fen@) {
                FenOutcome::Parsed { squares, state, rest } => r matches Ok((b, tail)) && b.squares.0@
                    == squares && b.state == state && tail@ == fen@.subrange(rest, fen@.len() as int)
                    && 0 <= rest <= fen@.len() && consistent(b@) && b.hash == b.hash_tables.initial_key && placed(hash_draws(), b.hash_tables),
                _ => r is Err,
            },
    {
        match Self::read_fen(fen) {
            Ok((board, rest)) => Ok((board, fen.substring_char(rest, fen.unicode_len()))),
            Err(_) => Err(FenError),
        }
    }

    /// Whether reading the FEN string would make a counter overflow: more than 255 rank
    /// separators, or an en passant file other than `a`.
    pub fn fen_overflows(fen: &str) -> (r: bool)
        ensures
            r == (fen_parse(fen@) is Panics),
    {
        match Self::read_fen(fen) {
            Err(FenFailure::Overflow) => true,
            _ => false,
        }

    }

    /// Reads a position in Forsyth-Edwards notation.
    pub fn from_fen(fen: &str) -> (r: Result<Self, FenError>)
        requires
            !(fen_parse(fen@) is Panics),
        ensures
            match fen_parse(fen@) {
                FenOutcome::Parsed { squares, state, rest } => r matches Ok(b) && b.squares.0@ == squares
                    && b.state == state && consistent(b@) && b.hash == b.hash_tables.initial_key && placed(hash_draws(), b.hash_tables),
                _ => r is Err,
            },
    {
        match Self::from_fen_partial(fen) {
            Ok((b, _)) => Ok(b),
            Err(e) => Err(e),
        }
    }

    /// The piece placement field of the position's FEN string.
    fn placement_text(&self) -> (buffer: Vec<char>)
        ensures
            buffer@ == fen_ranks(self.squares.0@, 8),
    {
        let ghost sq = self.squares.0@;
        let mut buffer: Vec<char> = Vec::new();
        let mut r: u8 = 0;
        while r < 8
            invariant
                r <= 8,
                sq == self.squares.0@,
                buffer@ == fen_ranks(sq, r as int),
            decreases 8 - r,
        {
            let rr = 7 - r;
            let mut accum: u8 = 0;
            let mut f: u8 = 0;
            while f < 8
                invariant
                    f <= 8,
                    r < 8,
                    rr == 7 - r,
                    accum <= f,
                    sq == self.squares.0@,
                    buffer@ + fen_rank(sq, rr as int, f as int, accum as nat) == fen_ranks(sq, r as int)
                        + fen_rank(sq, rr as int, 0, 0),
                decreases 8 - f,
            {
                let ghost before = buffer@;
                let ghost old_accum = accum;
                let c = self.squares.get(Square::from_file_rank(f, rr));
                match c.to_piece() {
                    Some(x) => {
                        if accum > 0 {
                            buffer.push(digit_to_char(accum));
                            accum = 0;
                        }
                        buffer.push(x.to_char());
                        proof {
                            assert(buffer@ + fen_rank(sq, rr as int, f + 1, 0) == before + fen_rank(sq, rr as int, f as int, old_accum as nat));
                        }
                    },
                    None => {
                        accum = accum + 1;
                    },
                }
                f = f + 1;
            }
            if accum > 0 {
                buffer.push(digit_to_char(accum));
            }
            if r != 7 {
                buffer.push('/');
            }
            proof {
                assert(buffer@ == fen_ranks(sq, r + 1));
            }
            r = r + 1;
        }
        buffer
    }

    /// The position in Forsyth-Edwards notation.
    pub fn to_fen(&self) -> (r: String)
        requires
            self.state.en_passant < 159,
        ensures
            r@ == fen_text(self.squares.0@, self.state),
    {
        let ghost sq = self.squares.0@;
        let mut buffer = self.placement_text();
        let mut fields: Vec<char> = Vec::new();
        fields.push(' ');
        if self.state.player == Player::White {
            fields.push('w');
        } else {
            fields.push('b');
        }
        fields.push(' ');
        let mut castle = castle_text(self.state.castle);
        fields.append(&mut castle);
        fields.push(' ');
        let mut ep = en_passant_text(self.state);
        fields.append(&mut ep);
        fields.push(' ');
        let mut clocks: Vec<char> = Vec::new();
        push_decimal(&mut clocks, self.state.move_clock as u64);
        clocks.push(' ');
        push_decimal(&mut clocks, self.state.move_clock as u64 + 1);
        fields.append(&mut clocks);
        let ghost st = self.state;
        proof {
            let head = seq![' ', if st.player == Player::White { 'w' } else { 'b' }, ' '];
            assert(fields@ =~= head + fen_castle_text(st.castle) + seq![' '] + fen_en_passant_text(st)
                + seq![' '] + (decimal(st.move_clock as nat) + seq![' '] + decimal(st.move_clock as nat + 1)));
        }
        buffer.append(&mut fields);
        proof {
            let head = seq![' ', if st.player == Player::White { 'w' } else { 'b' }, ' '];
            let rest = head + fen_castle_text(st.castle) + seq![' '] + fen_en_passant_text(st)
                + seq![' '] + (decimal(st.move_clock as nat) + seq![' '] + decimal(st.move_clock as nat + 1));
            assert(buffer@ == fen_ranks(sq, 8) + rest);
            assert(fen_text(sq, st) =~= fen_ranks(sq, 8) + rest);
        }
        string_of(buffer.as_slice())
    }
}

} // verus!
