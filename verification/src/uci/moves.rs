use vstd::prelude::*;
use super::parse::{Step, agrees};
use crate::chess_core::mov::{Move, Promotion, move_from, move_to, promotion_letter, promotion_option};
use crate::common::square::{Square, square_name};
use crate::text::{chars_of, string_of};

verus! {

/// A move as UCI writes it: origin square, target square and promotion piece.
#[derive(Clone, Copy, Debug)]
pub struct UciMove {
    pub from: Square,
    pub to: Square,
    pub promotion: Option<Promotion>,
}

impl View for UciMove {
    type V = (int, int, Option<Promotion>);

    /// The origin index, the target index and the promotion piece.
    open spec fn view(&self) -> (int, int, Option<Promotion>) {
        (self.from@, self.to@, self.promotion)
    }
}

/// Whether a character is a file letter, `a` to `h`.
pub open spec fn is_file(c: char) -> bool {
    'a' <= c && c <= 'h'
}

/// Whether a character is a rank digit, `1` to `8`.
pub open spec fn is_rank(c: char) -> bool {
    '1' <= c && c <= '8'
}

/// The promotion piece a letter stands for in a UCI move: `q`, `r`, `b` or `k` (knight).
pub open spec fn promotion_of_char(c: char) -> Option<Promotion> {
    if c == 'q' {
        Some(Promotion::Queen)
    } else if c == 'r' {
        Some(Promotion::Rook)
    } else if c == 'b' {
        Some(Promotion::Bishop)
    } else if c == 'k' {
        Some(Promotion::Knight)
    } else {
        None
    }
}

/// The index of the square a file letter and rank digit name.
pub open spec fn square_of(f: char, r: char) -> int {
    (f as int - 'a' as int) + 8 * (r as int - '1' as int)
}

/// Reading a move at position `i`: a file, a rank, a file, a rank and an optional promotion
/// letter. It fails at the first character that is not what it should be.
pub open spec fn uci_move_at(s: Seq<char>, i: int) -> Step<(int, int, Option<Promotion>)> {
    if !(0 <= i < s.len() && is_file(s[i])) {
        Step::Error(i as usize)
    } else if !(i + 1 < s.len() && is_rank(s[i + 1])) {
        Step::Error((i + 1) as usize)
    } else if !(i + 2 < s.len() && is_file(s[i + 2])) {
        Step::Error((i + 2) as usize)
    } else if !(i + 3 < s.len() && is_rank(s[i + 3])) {
        Step::Error((i + 3) as usize)
    } else {
        let from = square_of(s[i], s[i + 1]);
        let to = square_of(s[i + 2], s[i + 3]);
        if i + 4 < s.len() && promotion_of_char(s[i + 4]) is Some {
            Step::Done((i + 5) as usize, (from, to, promotion_of_char(s[i + 4])))
        } else {
            Step::Done((i + 4) as usize, (from, to, None))
        }
    }
}

/// The text of a UCI move: both square names and the promotion letter.
pub open spec fn move_text(m: (int, int, Option<Promotion>)) -> Seq<char> {
    square_name(m.0) + square_name(m.1) + match m.2 {
        Some(p) => seq![promotion_letter(p)],
        None => Seq::empty(),
    }
}

/// Whether a move goes between the squares of a UCI move with its promotion.
pub open spec fn move_fits(m: Move, u: (int, int, Option<Promotion>)) -> bool {
    move_to(m@) == u.1 && move_from(m@) == u.0 && promotion_option(m@) == u.2
}

/// The error of a text that is no UCI move.
#[derive(Debug, Clone, Copy)]
pub struct UciMoveError;

impl UciMoveError {
    /// The message of the error.
    pub fn to_string(&self) -> (r: String)
        ensures
            r@ == "Failed to parse UCI move"@,
    {
        "Failed to parse UCI move".to_owned()
    }
}

/// The square a file letter and a rank digit name.
fn square_exec(f: char, r: char) -> (s: Square)
    requires
        is_file(f),
        is_rank(r),
    ensures
        s@ == square_of(f, r),
{
    let file = (f as u32 - 'a' as u32) as u8;
    let rank = (r as u32 - '1' as u32) as u8;
    Square::new(file + 8 * rank)
}

impl UciMove {
    /// Reads a move at position `i`.
    pub fn parse_partial(s: &[char], i: usize) -> (r: Step<UciMove>)
        requires
            i <= s@.len(),
        ensures
            agrees(r, uci_move_at(s@, i as int)),
            r matches Step::Done(g, _) ==> i + 4 <= g <= s@.len(),
            super::parse::bounded(r, s@.len() as int),
    {
        let n = s.len();
        if !(i < n && 'a' <= s[i] && s[i] <= 'h') {
            return Step::Error(i);
        }
        if !(i + 1 < n && '1' <= s[i + 1] && s[i + 1] <= '8') {
            return Step::Error(i + 1);
        }
        if !(i + 2 < n && 'a' <= s[i + 2] && s[i + 2] <= 'h') {
            return Step::Error(i + 2);
        }
        if !(i + 3 < n && '1' <= s[i + 3] && s[i + 3] <= '8') {
            return Step::Error(i + 3);
        }
        let from = square_exec(s[i], s[i + 1]);
        let to = square_exec(s[i + 2], s[i + 3]);
        if i + 4 < n {
            let c = s[i + 4];
            let p = if c == 'q' {
                Some(Promotion::Queen)
            } else if c == 'r' {
                Some(Promotion::Rook)
            } else if c == 'b' {
                Some(Promotion::Bishop)
            } else if c == 'k' {
                Some(Promotion::Knight)
            } else {
                None
            };
            if p.is_some() {
                return Step::Done(i + 5, UciMove { from, to, promotion: p });
            }
        }
        Step::Done(i + 4, UciMove { from, to, promotion: None })
    }

    /// Reads a move at the start of the text; what follows the move is ignored.
    pub fn from_str(s: &str) -> (r: Result<UciMove, UciMoveError>)
        ensures
            match uci_move_at(s@, 0) {
                Step::Done(_, m) => r matches Ok(u) && u@ == m,
                _ => r is Err,
            },
    {
        let w = chars_of(s);
        match Self::parse_partial(&w, 0) {
            Step::Done(_, m) => Ok(m),
            _ => Err(UciMoveError),
        }
    }

    /// The first of the possible moves that goes between the same squares with the same
    /// promotion.
    pub fn to_move(&self, possible_moves: &[Move]) -> (r: Option<Move>)
        ensures
            match r {
                Some(m) => exists|k: int|
                    0 <= k < possible_moves@.len() && possible_moves@[k] == m && move_fits(m, self@)
                        && forall|j: int| 0 <= j < k ==> !move_fits(#[trigger] possible_moves@[j], self@),
                None => forall|k: int| 0 <= k < possible_moves@.len() ==> !move_fits(#[trigger] possible_moves@[k], self@),
            },
    {
        let mut k: usize = 0;
        while k < possible_moves.len()
            invariant
                k <= possible_moves@.len(),
                forall|j: int| 0 <= j < k ==> !move_fits(#[trigger] possible_moves@[j], self@),
            decreases possible_moves@.len() - k,
        {
            let x = possible_moves[k];
            if x.to().get() == self.to.get() && x.from().get() == self.from.get() && x.get_promotion() == self.promotion {
                return Some(x);
            }
            k = k + 1;
        }
        None
    }

    /// Appends the text of the move.
    pub fn push_text(&self, out: &mut Vec<char>)
        ensures
            final(out)@ == old(out)@ + move_text(self@),
    {
        self.from.push_name(out);
        self.to.push_name(out);
        match self.promotion {
            Some(p) => out.push(
                match p {
                    Promotion::Queen => 'q',
                    Promotion::Knight => 'k',
                    Promotion::Rook => 'r',
                    Promotion::Bishop => 'b',
                },
            ),
            None => {},
        }
        assert(out@ =~= old(out)@ + move_text(self@));
    }

    /// The text of the move, such as `e7e8q`.
    pub fn to_string(&self) -> (r: String)
        ensures
            r@ == move_text(self@),
    {
        let mut out: Vec<char> = Vec::new();
        self.push_text(&mut out);
        assert(out@ =~= move_text(self@));
        string_of(&out)
    }
}

impl From<Move> for UciMove {
    fn from(value: Move) -> (r: UciMove) {
        let r = UciMove { from: value.from(), to: value.to(), promotion: value.get_promotion() };
        proof {
            let f = choose|s: Square| s@ == move_from(value@);
            let t = choose|s: Square| s@ == move_to(value@);
            assert(r.from@ == move_from(value@));
            assert(r.to@ == move_to(value@));
            Square::lemma_view_injective(r.from, f);
            Square::lemma_view_injective(r.to, t);
        }
        r
    }
}

impl vstd::std_specs::convert::FromSpecImpl<Move> for UciMove {
    open spec fn obeys_from_spec() -> bool {
        true
    }

    open spec fn from_spec(v: Move) -> UciMove {
        UciMove {
            from: choose|s: Square| s@ == move_from(v@),
            to: choose|s: Square| s@ == move_to(v@),
            promotion: promotion_option(v@),
        }
    }
}

/// The texts of moves, each after a space.
pub open spec fn moves_spaced(ms: Seq<(int, int, Option<Promotion>)>) -> Seq<char>
    decreases ms.len(),
{
    if ms.len() == 0 {
        Seq::empty()
    } else {
        moves_spaced(ms.drop_last()) + seq![' '] + move_text(ms.last())
    }
}

/// Appends the texts of moves, each after a space.
pub fn push_moves_spaced(out: &mut Vec<char>, ms: &Vec<UciMove>)
    ensures
        final(out)@ == old(out)@ + moves_spaced(ms@.map_values(|m: UciMove| m@)),
{
    let ghost all = ms@.map_values(|m: UciMove| m@);
    let mut i: usize = 0;
    while i < ms.len()
        invariant
            i <= ms@.len(),
            all == ms@.map_values(|m: UciMove| m@),
            out@ == old(out)@ + moves_spaced(all.take(i as int)),
        decreases ms@.len() - i,
    {
        let ghost before = out@;
        out.push(' ');
        ms[i].push_text(out);
        let ghost t = all.take(i + 1);
        assert(t.drop_last() =~= all.take(i as int));
        assert(t.last() == ms@[i as int]@);
        assert(out@ =~= before + seq![' '] + move_text(ms@[i as int]@));
        i = i + 1;
    }
    assert(all.take(i as int) =~= all);
}

/// Reading the text of a move gives the move back, the whole text being read.
pub proof fn lemma_uci_move_roundtrip(m: (int, int, Option<Promotion>))
    requires
        0 <= m.0 < 64,
        0 <= m.1 < 64,
    ensures
        uci_move_at(move_text(m), 0) == Step::Done(move_text(m).len() as usize, m),
{
    let s = move_text(m);
    assert(s[0] == ('a' as int + m.0 % 8) as char);
    assert(s[1] == ('1' as int + m.0 / 8) as char);
    assert(s[2] == ('a' as int + m.1 % 8) as char);
    assert(s[3] == ('1' as int + m.1 / 8) as char);
    assert(square_of(s[0], s[1]) == m.0);
    assert(square_of(s[2], s[3]) == m.1);
    match m.2 {
        Some(p) => {
            assert(s[4] == promotion_letter(p));
        },
        None => {
            assert(s.len() == 4);
        },
    }
}

} // verus!
