//! What reading a FEN string gives back of the string a position writes.
use vstd::prelude::*;
use super::extra_state::ExtraState;
use super::fen::{
    FenOutcome, FenPlacement, empty_squares, fen_castle_flags, fen_castle_text, fen_en_passant_text,
    fen_parse, fen_placement, fen_rank, fen_ranks, fen_text,
};
use super::misc::Player;
use super::piece::{SquareContent, content_of_piece, piece_char, piece_of_char, piece_of_content};
use crate::text::{decimal, digit_char, digit_value, is_digit};

verus! {

/// The place of square `idx` in the order in which a FEN string lists the squares:
/// rank by rank from the top, file by file from `a`.
pub open spec fn read_order(idx: int) -> int {
    8 * (7 - idx / 8) + idx % 8
}

/// The board after the first `n` squares in reading order were copied from `sq` onto
/// an empty board.
pub open spec fn placed(sq: Seq<SquareContent>, n: int) -> Seq<SquareContent> {
    Seq::new(64, |idx: int| if read_order(idx) < n { sq[idx] } else { SquareContent::Empty })
}

/// The square at file `f` of the rank read `k`-th is the `8 * k + f`-th in reading order.
proof fn lemma_read_order(idx: int, k: int, f: int)
    requires
        0 <= idx < 64,
        0 <= k < 8,
        0 <= f < 8,
    ensures
        read_order(idx) == 8 * k + f <==> idx == f + 8 * (7 - k),
        0 <= read_order(idx) < 64,
{
}

/// Copying one more square: an empty one changes nothing, a piece is put on its square.
proof fn lemma_placed_step(sq: Seq<SquareContent>, k: int, f: int)
    requires
        sq.len() == 64,
        0 <= k < 8,
        0 <= f < 8,
    ensures
        placed(sq, 8 * k + f + 1) == placed(sq, 8 * k + f).update(f + 8 * (7 - k), sq[f + 8 * (7 - k)]),
        sq[f + 8 * (7 - k)] == SquareContent::Empty ==> placed(sq, 8 * k + f + 1) == placed(sq, 8 * k + f),
{
    let a = placed(sq, 8 * k + f + 1);
    let b = placed(sq, 8 * k + f).update(f + 8 * (7 - k), sq[f + 8 * (7 - k)]);
    assert forall|idx: int| 0 <= idx < 64 implies a[idx] == b[idx] by {
        lemma_read_order(idx, k, f);
    }
    assert(a =~= b);
    if sq[f + 8 * (7 - k)] == SquareContent::Empty {
        assert(a =~= placed(sq, 8 * k + f));
    }
}

/// A square content that holds a piece is the content of that piece.
proof fn lemma_content_piece(c: SquareContent)
    requires
        c != SquareContent::Empty,
    ensures
        piece_of_content(c) is Some,
        content_of_piece(piece_of_content(c)->0) == c,
        piece_of_char(piece_char(piece_of_content(c)->0)) == piece_of_content(c),
        !is_digit(piece_char(piece_of_content(c)->0)),
        piece_char(piece_of_content(c)->0) != '/',
        piece_char(piece_of_content(c)->0) != ' ',
{
}

/// A number below ten reads back from its digit.
proof fn lemma_digit(d: int)
    requires
        0 <= d < 10,
    ensures
        is_digit(digit_char(d)),
        digit_value(digit_char(d)) == d,
{
}

/// Reading the text of rank `r` from file `f` on, with `accum` empty squares before `f`
/// not yet written, ends at file 8 with the whole rank copied.
proof fn lemma_read_rank(
    s: Seq<char>,
    i: int,
    sq: Seq<SquareContent>,
    r: int,
    f: int,
    accum: nat,
)
    requires
        sq.len() == 64,
        0 <= r < 8,
        0 <= f <= 8,
        accum <= f,
        0 <= i,
        i + fen_rank(sq, r, f, accum).len() <= s.len(),
        s.subrange(i, i + fen_rank(sq, r, f, accum).len()) == fen_rank(sq, r, f, accum),
    ensures
        fen_placement(s, i, (f - accum) as u8, (7 - r) as u8, placed(sq, 8 * (7 - r) + f))
            == fen_placement(
            s,
            i + fen_rank(sq, r, f, accum).len(),
            8,
            (7 - r) as u8,
            placed(sq, 8 * (7 - r) + 8),
        ),
    decreases 8 - f,
{
    let t = fen_rank(sq, r, f, accum);
    let k = 7 - r;
    assert(forall|j: int| 0 <= j < t.len() ==> s[i + j] == #[trigger] t[j]) by {
        assert forall|j: int| 0 <= j < t.len() implies s[i + j] == #[trigger] t[j] by {
            assert(s.subrange(i, i + t.len())[j] == s[i + j]);
        }
    }
    if f >= 8 {
        if accum > 0 {
            lemma_digit(accum as int);
            assert(t[0] == digit_char(accum as int));
            assert(s[i] == digit_char(accum as int));
        }
    } else if sq[f + 8 * r] != SquareContent::Empty {
        let c = sq[f + 8 * r];
        lemma_content_piece(c);
        let pc = piece_char(piece_of_content(c)->0);
        let lead: Seq<char> = if accum > 0 { seq![digit_char(accum as int)] } else { Seq::empty() };
        let rest = fen_rank(sq, r, f + 1, 0);
        assert(t == lead.push(pc) + rest);
        let i1 = i + lead.len();
        if accum > 0 {
            lemma_digit(accum as int);
            assert(s[i] == t[0]);
        }
        assert(s[i1] == t[lead.len() as int]);
        assert(s[i1] == pc);
        lemma_placed_step(sq, k, f);
        assert(f + 8 * (7 - k) == f + 8 * r);
        let i2 = i1 + 1;
        assert(s.subrange(i2, i2 + rest.len()) =~= rest) by {
            assert forall|j: int| 0 <= j < rest.len() implies s.subrange(i2, i2 + rest.len())[j] == rest[j] by {
                assert(t[lead.len() + 1 + j] == rest[j]);
            }
        }
        lemma_read_rank(s, i2, sq, r, f + 1, 0);
        assert(fen_placement(s, i1, f as u8, k as u8, placed(sq, 8 * k + f)) == fen_placement(
            s,
            i2,
            (f + 1) as u8,
            k as u8,
            placed(sq, 8 * k + f + 1),
        ));
    } else {
        lemma_placed_step(sq, k, f);
        assert(f + 8 * (7 - k) == f + 8 * r);
        lemma_read_rank(s, i, sq, r, f + 1, accum + 1);
    }
}

/// The text of the first `k` ranks is a prefix of that of all eight.
proof fn lemma_ranks_prefix(sq: Seq<SquareContent>, k: int)
    requires
        0 <= k <= 8,
    ensures
        fen_ranks(sq, k).len() <= fen_ranks(sq, 8).len(),
        fen_ranks(sq, 8).subrange(0, fen_ranks(sq, k).len() as int) == fen_ranks(sq, k),
    decreases 8 - k,
{
    if k < 8 {
        lemma_ranks_prefix(sq, k + 1);
        let a = fen_ranks(sq, k);
        let b = fen_ranks(sq, k + 1);
        assert(b.subrange(0, a.len() as int) =~= a);
        assert(fen_ranks(sq, 8).subrange(0, a.len() as int) =~= b.subrange(0, a.len() as int));
    } else {
        assert(fen_ranks(sq, 8).subrange(0, fen_ranks(sq, 8).len() as int) =~= fen_ranks(sq, 8));
    }
}

/// After the text of the first `k` ranks and their separators, reading stands at file 0
/// of the next rank with those ranks copied.
proof fn lemma_read_ranks(s: Seq<char>, sq: Seq<SquareContent>, k: int)
    requires
        sq.len() == 64,
        0 <= k < 8,
        fen_ranks(sq, 8).len() <= s.len(),
        s.subrange(0, fen_ranks(sq, 8).len() as int) == fen_ranks(sq, 8),
    ensures
        fen_placement(s, 0, 0, 0, empty_squares()) == fen_placement(
            s,
            fen_ranks(sq, k).len() as int,
            0,
            k as u8,
            placed(sq, 8 * k),
        ),
    decreases k,
{
    let whole = fen_ranks(sq, 8);
    if k == 0 {
        assert(placed(sq, 0) =~= empty_squares());
    } else {
        lemma_read_ranks(s, sq, k - 1);
        lemma_ranks_prefix(sq, k);
        let before = fen_ranks(sq, k - 1);
        let rank = fen_rank(sq, 7 - (k - 1), 0, 0);
        let i = before.len() as int;
        let e = i + rank.len();
        assert(fen_ranks(sq, k) == before + rank + seq!['/']);
        assert(s.subrange(0, fen_ranks(sq, k).len() as int) =~= fen_ranks(sq, k)) by {
            assert forall|j: int| 0 <= j < fen_ranks(sq, k).len() implies s.subrange(
                0,
                fen_ranks(sq, k).len() as int,
            )[j] == fen_ranks(sq, k)[j] by {
                assert(s[j] == whole[j]) by {
                    assert(s.subrange(0, whole.len() as int)[j] == s[j]);
                }
                assert(whole.subrange(0, fen_ranks(sq, k).len() as int)[j] == whole[j]);
            }
        }
        assert(s.subrange(i, e) =~= rank) by {
            assert forall|j: int| 0 <= j < rank.len() implies s.subrange(i, e)[j] == rank[j] by {
                assert(s.subrange(0, fen_ranks(sq, k).len() as int)[i + j] == fen_ranks(sq, k)[i + j]);
            }
        }
        lemma_read_rank(s, i, sq, 7 - (k - 1), 0, 0);
        assert(s[e] == '/') by {
            assert(s.subrange(0, fen_ranks(sq, k).len() as int)[e] == fen_ranks(sq, k)[e]);
        }
        assert(8 * (7 - (7 - (k - 1))) + 8 == 8 * k);
    }
}

/// Reading the piece placement that a position writes gives back its squares.
proof fn lemma_read_placement(s: Seq<char>, sq: Seq<SquareContent>)
    requires
        sq.len() == 64,
        fen_ranks(sq, 8).len() < s.len(),
        s.subrange(0, fen_ranks(sq, 8).len() as int) == fen_ranks(sq, 8),
        s[fen_ranks(sq, 8).len() as int] == ' ',
    ensures
        fen_placement(s, 0, 0, 0, empty_squares()) == (FenPlacement::Done {
            next: fen_ranks(sq, 8).len() as int + 1,
            squares: sq,
        }),
{
    let whole = fen_ranks(sq, 8);
    lemma_read_ranks(s, sq, 7);
    let before = fen_ranks(sq, 7);
    let rank = fen_rank(sq, 0, 0, 0);
    let i = before.len() as int;
    let e = i + rank.len();
    assert(whole == before + rank);
    assert(whole == before + rank + Seq::<char>::empty());
    assert(s.subrange(i, e) =~= rank) by {
        assert forall|j: int| 0 <= j < rank.len() implies s.subrange(i, e)[j] == rank[j] by {
            assert(s.subrange(0, whole.len() as int)[i + j] == whole[i + j]);
        }
    }
    lemma_read_rank(s, i, sq, 0, 0, 0);
    assert(placed(sq, 64) =~= sq) by {
        assert forall|idx: int| 0 <= idx < 64 implies placed(sq, 64)[idx] == sq[idx] by {
            lemma_read_order(idx, 0, 0);
        }
    }
}

/// Setting the castling flags one by one, in the order in which a FEN string lists
/// them, rebuilds rights of four flags.
proof fn lemma_castle_bits(c: u8)
    by (bit_vector)
    requires
        c < 16,
    ensures
        (if c & 8 != 0 {
            ((if c & 4 != 0 {
                ((if c & 2 != 0 { ((if c & 1 != 0 { 1u8 } else { 0u8 }) | 2) as u8 } else {
                    (if c & 1 != 0 { 1u8 } else { 0u8 })
                }) | 4) as u8
            } else {
                (if c & 2 != 0 { ((if c & 1 != 0 { 1u8 } else { 0u8 }) | 2) as u8 } else {
                    (if c & 1 != 0 { 1u8 } else { 0u8 })
                })
            }) | 8) as u8
        } else {
            (if c & 4 != 0 {
                ((if c & 2 != 0 { ((if c & 1 != 0 { 1u8 } else { 0u8 }) | 2) as u8 } else {
                    (if c & 1 != 0 { 1u8 } else { 0u8 })
                }) | 4) as u8
            } else {
                (if c & 2 != 0 { ((if c & 1 != 0 { 1u8 } else { 0u8 }) | 2) as u8 } else {
                    (if c & 1 != 0 { 1u8 } else { 0u8 })
                })
            })
        }) == c,
        c != 0 ==> (c & 1 != 0 || c & 2 != 0 || c & 4 != 0 || c & 8 != 0),
{
}

/// Reading the castling field that rights of four flags write, followed by a space.
proof fn lemma_read_castle(s: Seq<char>, k: int, c: u8)
    requires
        0 < c < 16,
        0 <= k,
        k + fen_castle_text(c).len() < s.len(),
        s.subrange(k, k + fen_castle_text(c).len()) == fen_castle_text(c),
        s[k + fen_castle_text(c).len()] == ' ',
    ensures
        s[k] != '-',
        fen_castle_flags(s, k) == Some((c, k + fen_castle_text(c).len())),
{
    let t = fen_castle_text(c);
    lemma_castle_bits(c);
    assert(forall|j: int| 0 <= j < t.len() ==> s[k + j] == #[trigger] t[j]) by {
        assert forall|j: int| 0 <= j < t.len() implies s[k + j] == #[trigger] t[j] by {
            assert(s.subrange(k, k + t.len())[j] == s[k + j]);
        }
    }
    let a1: Seq<char> = if c & 1 != 0 { seq!['K'] } else { Seq::empty() };
    let a2: Seq<char> = if c & 2 != 0 { seq!['Q'] } else { Seq::empty() };
    let a3: Seq<char> = if c & 4 != 0 { seq!['k'] } else { Seq::empty() };
    let a4: Seq<char> = if c & 8 != 0 { seq!['q'] } else { Seq::empty() };
    assert(t == a1 + a2 + a3 + a4);
    let j1 = k + a1.len();
    let j2 = j1 + a2.len();
    let j3 = j2 + a3.len();
    let j4 = j3 + a4.len();
    assert(j4 == k + t.len());
    if c & 1 != 0 {
        assert(s[k] == t[0]);
    }
    if c & 2 != 0 {
        assert(s[j1] == t[j1 - k]);
    }
    if c & 4 != 0 {
        assert(s[j2] == t[j2 - k]);
    }
    if c & 8 != 0 {
        assert(s[j3] == t[j3 - k]);
    }
    if j1 < j4 {
        assert(s[j1] == t[j1 - k]);
    }
    if j2 < j4 {
        assert(s[j2] == t[j2 - k]);
    }
    if j3 < j4 {
        assert(s[j3] == t[j3 - k]);
    }
}

/// A position written in FEN reads back as the same squares and state, where the
/// castling rights are among the four flags, the en passant file is `a` or there is
/// none, and the move clock has a single digit.
pub proof fn lemma_fen_roundtrip(sq: Seq<SquareContent>, st: ExtraState)
    requires
        sq.len() == 64,
        st.castle < 16,
        st.en_passant == 0 || st.en_passant == 8,
        st.move_clock < 10,
    ensures
        fen_parse(fen_text(sq, st)) matches FenOutcome::Parsed { squares, state, .. } && squares == sq
            && state == st,
{
    let s = fen_text(sq, st);
    let placement = fen_ranks(sq, 8);
    let side = if st.player == Player::White { 'w' } else { 'b' };
    let ct = fen_castle_text(st.castle);
    let ept = fen_en_passant_text(st);
    let clock = decimal(st.move_clock as nat);
    let number = decimal(st.move_clock as nat + 1);
    assert(clock == seq![digit_char(st.move_clock as int)]);
    assert(number.len() >= 1 && is_digit(number[0])) by {
        lemma_digit(st.move_clock as int);
        if st.move_clock + 1 < 10 {
            lemma_digit(st.move_clock + 1);
        } else {
            assert(decimal(1) == seq![digit_char(1)]);
            lemma_digit(1);
        }
    }
    let p = placement.len() as int;
    let j = p + 1;
    let k = j + 2;
    let e = k + ct.len() + 1;
    let b1 = e + ept.len();
    assert(s == placement + seq![' ', side, ' '] + ct + seq![' '] + ept + seq![' '] + clock + seq![' ']
        + number);
    assert(s.len() == b1 + 3 + number.len());
    assert(s.subrange(0, p) =~= placement);
    assert(s[p] == ' ');
    lemma_read_placement(s, sq);
    assert(s[j] == side);
    assert(s[j + 1] == ' ');
    assert(s[e - 1] == ' ');
    if st.castle == 0 {
        assert(ct == seq!['-']);
        assert(s[k] == '-');
    } else {
        assert(s.subrange(k, k + ct.len()) =~= ct);
        lemma_read_castle(s, k, st.castle);
    }
    if st.en_passant == 8 {
        assert(s[e] == '-');
    } else {
        assert(ept == seq!['a', if st.player == Player::White { '6' } else { '3' }]);
        assert(s[e] == 'a');
        assert(s[e + 1] == ept[1]);
    }
    assert(s[b1] == ' ');
    lemma_digit(st.move_clock as int);
    assert(s[b1 + 1] == digit_char(st.move_clock as int));
    assert(s[b1 + 2] == ' ');
    assert(s[b1 + 3] == number[0]);
}

} // verus!
