//! What reading a response line gives back of the text a response writes.
use vstd::prelude::*;
use super::moves::{move_text, moves_spaced, uci_move_at};
use super::parse::{Step, is_blank, line_break_at, rest_of_line, skip_blanks, tag_at, word_end};
use super::req::opt_text;
use super::req_laws::{
    lemma_decimal, lemma_move_at, lemma_move_list, lemma_move_text, lemma_number_at, lemma_tag_char, lemma_tag_split,
    lemma_unsigned_at, move_ok, moves_ok,
};
use super::resp::{
    keyword_moves, ComboPart, IdView, InfoView, KindView, ResponseBound, ResponseView, ScorePart, ScoreView, SpinPart, apply_score_part,
    apply_spin_part, bestmove_at, bool_text, combo_part_at, currline_at, default_after, id_at, id_text, info_at,
    info_item_at, info_text, infos_spaced, kind_text, more_combo_parts, more_infos, more_score_parts, more_spin_parts,
    no_score, opt_string_text, option_at, option_kind_at, response_line, response_text, score_at, score_part_at,
    score_text, spin_part_at, vars_text,
};
use crate::text::{is_digit, is_space, signed_decimal};

verus! {

/// Whether a text reads back as the rest of a line after the spaces that lead to it: it does
/// not start with a space or a tab and holds no line break.
pub open spec fn line_text_ok(t: Seq<char>) -> bool {
    &&& t.len() == 0 || !is_blank(t[0])
    &&& forall|i: int| 0 <= i < t.len() ==> #[trigger] t[i] != '\n' && t[i] != '\r'
}

/// A line with no line break from `i` on: its rest reaches the end of the line.
#[verifier::spinoff_prover]
proof fn lemma_line_break_at(s: Seq<char>, i: int)
    requires
        0 <= i <= s.len(),
        forall|j: int| i <= j < s.len() ==> #[trigger] s[j] != '\n' && s[j] != '\r',
    ensures
        line_break_at(s, i) == s.len(),
    decreases s.len() - i,
{
    if i < s.len() {
        lemma_line_break_at(s, i + 1);
    }
}

/// Reading the rest of a line where a text that reads back stands, up to the end of the
/// line, after one space.
#[verifier::spinoff_prover]
proof fn lemma_rest_text(s: Seq<char>, k: int, t: Seq<char>)
    requires
        s.len() <= usize::MAX,
        1 <= k <= s.len(),
        s[k - 1] == ' ',
        line_text_ok(t),
        s.subrange(k, s.len() as int) == t,
    ensures
        skip_blanks(s, k - 1) == k,
        rest_of_line(s, k) == Step::Done(s.len() as usize, t),
{
    assert forall|j: int| k <= j < s.len() implies #[trigger] s[j] != '\n' && s[j] != '\r' by {
        assert(s[j] == t[j - k]);
    }
    lemma_line_break_at(s, k);
    if k < s.len() {
        assert(s[k] == t[0]);
    }
    assert(skip_blanks(s, k) == k);
}

/// Reading `id` and a name or an author that reads back, up to the end of the line.
#[verifier::spinoff_prover]
proof fn lemma_read_id(s: Seq<char>, x: IdView)
    requires
        s.len() <= usize::MAX,
        s == "id "@ + id_text(x),
        match x {
            IdView::Name(t) => line_text_ok(t),
            IdView::Author(t) => line_text_ok(t),
        },
    ensures
        id_at(s, 0) == Step::Done(s.len() as usize, x),
{
    reveal_strlit("id ");
    reveal_strlit("id");
    reveal_strlit("name ");
    reveal_strlit("name");
    reveal_strlit("author ");
    reveal_strlit("author");
    assert(tag_at(s, 0, "id"@)) by {
        assert(s.subrange(0, 2) =~= "id"@);
    }
    assert(s[2] == ' ');
    assert(skip_blanks(s, 3) == 3);
    assert(skip_blanks(s, 2) == 3);
    match x {
        IdView::Name(t) => {
            assert(s[3] == 'n');
            assert(!tag_at(s, 3, "author"@)) by {
                if tag_at(s, 3, "author"@) {
                    lemma_tag_char(s, 3, "author"@, 0);
                }
            }
            assert(tag_at(s, 3, "name"@)) by {
                assert(s.subrange(3, 7) =~= "name"@);
            }
            assert(s.subrange(8, s.len() as int) =~= t);
            lemma_rest_text(s, 8, t);
        },
        IdView::Author(t) => {
            assert(tag_at(s, 3, "author"@)) by {
                assert(s.subrange(3, 9) =~= "author"@);
            }
            assert(s.subrange(10, s.len() as int) =~= t);
            lemma_rest_text(s, 10, t);
        },
    }
}

/// Reading `bestmove`, a move on the board and an optional move to ponder on, up to the end
/// of the line.
#[verifier::spinoff_prover]
proof fn lemma_read_bestmove(
    s: Seq<char>,
    m: (int, int, Option<super::super::chess_core::mov::Promotion>),
    ponder: Option<(int, int, Option<super::super::chess_core::mov::Promotion>)>,
)
    requires
        s.len() <= usize::MAX,
        move_ok(m),
        ponder matches Some(p) ==> move_ok(p),
        s == response_text(ResponseView::BestMove { m, ponder }),
    ensures
        bestmove_at(s, 0) == Step::Done(s.len() as usize, ResponseView::BestMove { m, ponder }),
{
    reveal_strlit("bestmove ");
    reveal_strlit("bestmove");
    reveal_strlit(" ponder ");
    reveal_strlit("ponder");
    let mt = move_text(m);
    lemma_move_text(m);
    assert(tag_at(s, 0, "bestmove"@)) by {
        assert(s.subrange(0, 8) =~= "bestmove"@);
    }
    assert(tag_at(s, 9, mt)) by {
        assert(s.subrange(9, 9 + mt.len() as int) =~= mt);
    }
    assert(s[8] == ' ');
    assert(s[9] == mt[0]);
    assert(skip_blanks(s, 9) == 9);
    assert(skip_blanks(s, 8) == 9);
    let g = 9 + mt.len() as int;
    match ponder {
        Some(p) => {
            let pt = move_text(p);
            lemma_move_text(p);
            assert(s[g] == ' ' && s[g + 1] == 'p' && s[g + 7] == ' ');
            lemma_move_at(s, 9, m);
            assert(skip_blanks(s, g + 1) == g + 1);
            assert(skip_blanks(s, g) == g + 1);
            assert(tag_at(s, g + 1, "ponder"@)) by {
                assert(s.subrange(g + 1, g + 7) =~= "ponder"@);
            }
            assert(tag_at(s, g + 8, pt)) by {
                assert(s.subrange(g + 8, g + 8 + pt.len() as int) =~= pt);
            }
            assert(s[g + 8] == pt[0]);
            assert(skip_blanks(s, g + 8) == g + 8);
            assert(skip_blanks(s, g + 7) == g + 8);
            lemma_move_at(s, g + 8, p);
        },
        None => {
            assert(s.len() == g);
            lemma_move_at(s, 9, m);
            assert(skip_blanks(s, g) == g);
        },
    }
}

/// The keyword of a spin setting of the given stage, between spaces: `default`, `min`, `max`.
pub open spec fn spin_keyword(k: int) -> Seq<char> {
    if k == 0 {
        " default "@
    } else if k == 1 {
        " min "@
    } else {
        " max "@
    }
}

/// The spin setting of the given stage with a value.
pub open spec fn spin_part(k: int, v: int) -> SpinPart {
    if k == 0 {
        SpinPart::Default(v)
    } else if k == 1 {
        SpinPart::Min(v)
    } else {
        SpinPart::Max(v)
    }
}

/// The value of a spin option of the given stage.
pub open spec fn spin_field(t: (Option<int>, Option<int>, Option<int>), k: int) -> Option<int> {
    if k == 0 {
        t.0
    } else if k == 1 {
        t.1
    } else {
        t.2
    }
}

/// The text of the settings of a spin option from the given stage on.
pub open spec fn spin_text_from(t: (Option<int>, Option<int>, Option<int>), k: int) -> Seq<char>
    decreases 3 - k,
{
    if k >= 3 || k < 0 {
        Seq::empty()
    } else {
        opt_text(spin_keyword(k), spin_field(t, k)) + spin_text_from(t, k + 1)
    }
}

/// Whether the values of a spin option lie in the range of its type.
pub open spec fn spin_ok(t: (Option<int>, Option<int>, Option<int>)) -> bool {
    forall|k: int| 0 <= k < 3 && #[trigger] spin_field(t, k) is Some ==> -0x8000_0000_0000_0000
        <= spin_field(t, k)->0 <= 0x7fff_ffff_ffff_ffff
}

/// Reading a spin setting of the given stage where its text stands after a space.
#[verifier::spinoff_prover]
proof fn lemma_spin_part_at(s: Seq<char>, e: int, k: int, v: int)
    requires
        s.len() <= usize::MAX,
        0 <= k < 3,
        -0x8000_0000_0000_0000 <= v <= 0x7fff_ffff_ffff_ffff,
        tag_at(s, e, spin_keyword(k) + signed_decimal(v)),
        e + (spin_keyword(k) + signed_decimal(v)).len() == s.len() || s[e + (spin_keyword(k)
            + signed_decimal(v)).len()] == ' ',
    ensures
        skip_blanks(s, e) == e + 1,
        spin_part_at(s, e + 1) == Some((e + (spin_keyword(k) + signed_decimal(v)).len(), spin_part(k, v))),
{
    reveal_strlit(" default ");
    reveal_strlit(" min ");
    reveal_strlit(" max ");
    reveal_strlit("default");
    reveal_strlit("min");
    reveal_strlit("max");
    let kw = spin_keyword(k);
    let word = kw.subrange(1, kw.len() - 1);
    lemma_tag_split(s, e, kw, signed_decimal(v));
    lemma_tag_char(s, e, kw, 0);
    lemma_tag_char(s, e, kw, 1);
    lemma_tag_char(s, e, kw, 2);
    assert(kw =~= seq![' '] + word + seq![' ']);
    if k == 0 {
        assert(word =~= "default"@);
    } else if k == 1 {
        assert(word =~= "min"@);
    } else {
        assert(word =~= "max"@);
    }
    assert(word + (seq![' '] + signed_decimal(v)) == kw.subrange(1, kw.len() as int) + signed_decimal(v));
    assert(tag_at(s, e + 1, word + (seq![' '] + signed_decimal(v)))) by {
        let w2 = word + (seq![' '] + signed_decimal(v));
        assert(s.subrange(e + 1, e + 1 + w2.len()) =~= w2) by {
            assert forall|j: int| 0 <= j < w2.len() implies s.subrange(e + 1, e + 1 + w2.len())[j] == w2[j] by {
                lemma_tag_char(s, e, kw + signed_decimal(v), j + 1);
            }
        }
    }
    assert(skip_blanks(s, e + 1) == e + 1);
    lemma_number_at(s, e + 1, word, v, true, -0x8000_0000_0000_0000, 0x7fff_ffff_ffff_ffff);
    if k > 0 {
        assert(!tag_at(s, e + 1, "default"@)) by {
            if tag_at(s, e + 1, "default"@) {
                lemma_tag_char(s, e + 1, "default"@, 0);
            }
        }
    }
    if k == 2 {
        assert(!tag_at(s, e + 1, "min"@)) by {
            if tag_at(s, e + 1, "min"@) {
                lemma_tag_char(s, e + 1, "min"@, 1);
            }
        }
    }
}

/// The text of the settings of a spin option starts with a space, when there is one.
#[verifier::spinoff_prover]
proof fn lemma_spin_text_first(t: (Option<int>, Option<int>, Option<int>), k: int)
    requires
        0 <= k <= 3,
    ensures
        spin_text_from(t, k).len() > 0 ==> spin_text_from(t, k)[0] == ' ',
    decreases 3 - k,
{
    reveal_strlit(" default ");
    reveal_strlit(" min ");
    reveal_strlit(" max ");
    if k < 3 {
        lemma_spin_text_first(t, k + 1);
        if spin_field(t, k) is None {
            assert(spin_text_from(t, k) =~= spin_text_from(t, k + 1));
        }
    }
}

/// Reading the settings of a spin option from the given stage on, up to the end of the line.
#[verifier::spinoff_prover]
proof fn lemma_read_spin_from(
    s: Seq<char>,
    e: int,
    t: (Option<int>, Option<int>, Option<int>),
    k: int,
    acc: (Option<int>, Option<int>, Option<int>),
)
    requires
        s.len() <= usize::MAX,
        0 <= k <= 3,
        spin_ok(t),
        tag_at(s, e, spin_text_from(t, k)),
        e + spin_text_from(t, k).len() == s.len(),
        forall|j: int| 0 <= j < k ==> #[trigger] spin_field(acc, j) == spin_field(t, j),
        forall|j: int| k <= j < 3 ==> #[trigger] spin_field(acc, j) is None,
    ensures
        more_spin_parts(s, e, acc) == (s.len() as int, t),
    decreases 3 - k,
{
    if k == 3 {
        assert(acc == t) by {
            assert(spin_field(acc, 0) == spin_field(t, 0));
            assert(spin_field(acc, 1) == spin_field(t, 1));
            assert(spin_field(acc, 2) == spin_field(t, 2));
        }
    } else {
        let rest = spin_text_from(t, k + 1);
        match spin_field(t, k) {
            None => {
                assert(spin_text_from(t, k) =~= rest);
                lemma_read_spin_from(s, e, t, k + 1, acc);
            },
            Some(v) => {
                let head = spin_keyword(k) + signed_decimal(v);
                assert(spin_field(t, k) is Some);
                lemma_tag_split(s, e, head, rest);
                let g = e + head.len();
                if g < s.len() {
                    lemma_spin_text_first(t, k + 1);
                    lemma_tag_char(s, g, rest, 0);
                }
                lemma_spin_part_at(s, e, k, v);
                let acc2 = apply_spin_part(acc, spin_part(k, v));
                assert forall|j: int| 0 <= j < k + 1 implies #[trigger] spin_field(acc2, j) == spin_field(t, j) by {
                    if j < k {
                        assert(spin_field(acc, j) == spin_field(t, j));
                    }
                }
                assert forall|j: int| k + 1 <= j < 3 implies #[trigger] spin_field(acc2, j) is None by {
                    assert(spin_field(acc, j) is None);
                }
                lemma_read_spin_from(s, g, t, k + 1, acc2);
            },
        }
    }
}

/// Whether a text reads back as a word: it is not empty and holds no white space.
pub open spec fn word_ok(w: Seq<char>) -> bool {
    w.len() > 0 && forall|i: int| 0 <= i < w.len() ==> !is_space(#[trigger] w[i])
}

/// A word that stands at `a`, followed by white space or the end of the line, ends there.
#[verifier::spinoff_prover]
proof fn lemma_word_end(s: Seq<char>, a: int, w: Seq<char>)
    requires
        tag_at(s, a, w),
        forall|i: int| 0 <= i < w.len() ==> !is_space(#[trigger] w[i]),
        a + w.len() == s.len() || is_space(s[a + w.len()]),
    ensures
        word_end(s, a) == a + w.len(),
    decreases w.len(),
{
    if w.len() > 0 {
        lemma_tag_char(s, a, w, 0);
        let rest = w.subrange(1, w.len() as int);
        assert(w =~= seq![w[0]] + rest);
        lemma_tag_split(s, a, seq![w[0]], rest);
        assert forall|i: int| 0 <= i < rest.len() implies !is_space(#[trigger] rest[i]) by {
            assert(rest[i] == w[i + 1]);
        }
        lemma_word_end(s, a + 1, rest);
    }
}

/// The values of a combo option, each after ` var `, start with the first of them.
#[verifier::spinoff_prover]
proof fn lemma_vars_text_front(vs: Seq<Seq<char>>)
    requires
        vs.len() > 0,
    ensures
        vars_text(vs) == " var "@ + vs[0] + vars_text(vs.drop_first()),
    decreases vs.len(),
{
    if vs.len() > 1 {
        lemma_vars_text_front(vs.drop_last());
        assert(vs.drop_last().drop_first() =~= vs.drop_first().drop_last());
        assert(vs.drop_first().last() == vs.last());
        assert(vs.drop_last()[0] == vs[0]);
    } else {
        assert(vs.drop_last() =~= Seq::<Seq<char>>::empty());
        assert(vs.drop_first() =~= Seq::<Seq<char>>::empty());
    }
}

/// Reading one setting of a combo option after a space: a keyword, a space and a word.
#[verifier::spinoff_prover]
proof fn lemma_combo_part_at(s: Seq<char>, e: int, default: bool, w: Seq<char>)
    requires
        s.len() <= usize::MAX,
        word_ok(w),
        tag_at(s, e, (if default { " default "@ } else { " var "@ }) + w),
        e + ((if default { " default "@ } else { " var "@ }) + w).len() == s.len() || s[e + ((if default {
            " default "@
        } else {
            " var "@
        }) + w).len()] == ' ',
    ensures
        skip_blanks(s, e) == e + 1,
        combo_part_at(s, e + 1) == Some(
            (
                e + ((if default { " default "@ } else { " var "@ }) + w).len(),
                if default { ComboPart::Default(w) } else { ComboPart::Var(w) },
            ),
        ),
{
    reveal_strlit(" default ");
    reveal_strlit(" var ");
    reveal_strlit("default");
    reveal_strlit("var");
    let kw: Seq<char> = if default { " default "@ } else { " var "@ };
    let word: Seq<char> = if default { "default"@ } else { "var"@ };
    lemma_tag_split(s, e, kw, w);
    assert(kw =~= seq![' '] + word + seq![' ']);
    lemma_tag_char(s, e, kw, 0);
    lemma_tag_char(s, e, kw, 1);
    lemma_tag_char(s, e, kw, kw.len() - 1);
    assert(tag_at(s, e + 1, word)) by {
        assert(s.subrange(e + 1, e + 1 + word.len()) =~= word) by {
            assert forall|j: int| 0 <= j < word.len() implies s.subrange(e + 1, e + 1 + word.len())[j]
                == word[j] by {
                lemma_tag_char(s, e, kw, j + 1);
            }
        }
    }
    let a = e + kw.len();
    lemma_tag_char(s, a, w, 0);
    assert(!is_space(w[0]));
    assert(skip_blanks(s, e + 1) == e + 1);
    assert(skip_blanks(s, a) == a);
    assert(skip_blanks(s, a - 1) == a);
    lemma_word_end(s, a, w);
    assert(s.subrange(a, a + w.len()) =~= w) by {
        assert forall|j: int| 0 <= j < w.len() implies s.subrange(a, a + w.len())[j] == w[j] by {
            lemma_tag_char(s, a, w, j);
        }
    }
    if !default {
        assert(!tag_at(s, e + 1, "default"@)) by {
            if tag_at(s, e + 1, "default"@) {
                lemma_tag_char(s, e + 1, "default"@, 0);
            }
        }
    }
}

/// Reading more values of a combo option where their texts stand, up to the end of the line.
#[verifier::spinoff_prover]
proof fn lemma_read_vars(
    s: Seq<char>,
    e: int,
    vs: Seq<Seq<char>>,
    acc: (Seq<Seq<char>>, Option<Seq<char>>),
)
    requires
        s.len() <= usize::MAX,
        forall|i: int| 0 <= i < vs.len() ==> word_ok(#[trigger] vs[i]),
        tag_at(s, e, vars_text(vs)),
        e + vars_text(vs).len() == s.len(),
    ensures
        more_combo_parts(s, e, acc) == (s.len() as int, (acc.0 + vs, acc.1)),
    decreases vs.len(),
{
    reveal_strlit(" var ");
    if vs.len() == 0 {
        assert(acc.0 + vs =~= acc.0);
    } else {
        let w = vs[0];
        let rest = vs.drop_first();
        lemma_vars_text_front(vs);
        assert(word_ok(w));
        lemma_tag_split(s, e, " var "@ + w, vars_text(rest));
        let g = e + (" var "@ + w).len();
        if rest.len() > 0 {
            lemma_vars_text_front(rest);
            lemma_tag_char(s, g, vars_text(rest), 0);
        }
        lemma_combo_part_at(s, e, false, w);
        assert forall|i: int| 0 <= i < rest.len() implies word_ok(#[trigger] rest[i]) by {
            assert(rest[i] == vs[i + 1]);
        }
        lemma_read_vars(s, g, rest, (acc.0.push(w), acc.1));
        assert(acc.0.push(w) + rest =~= acc.0 + vs);
    }
}

/// Whether the type of an option reads back from its text: a default string reads back as
/// the rest of a line, spin values lie in the range of their type, and the default and the
/// values of a combo option are words.
pub open spec fn kind_ok(k: KindView) -> bool {
    match k {
        KindView::String { default } => default matches Some(t) ==> line_text_ok(t),
        KindView::Spin { default, min, max } => spin_ok((default, min, max)),
        KindView::Combo { options, default } => {
            &&& match default {
                Some(w) => word_ok(w),
                None => true,
            }
            &&& forall|i: int| 0 <= i < options.len() ==> word_ok(#[trigger] options[i])
        },
        _ => true,
    }
}

/// What a type keyword standing at `u` says of its first characters.
#[verifier::spinoff_prover]
proof fn lemma_kind_chars(s: Seq<char>, u: int)
    ensures
        tag_at(s, u, "spin"@) ==> s[u] == 's' && s[u + 1] == 'p',
        tag_at(s, u, "check"@) ==> s[u] == 'c' && s[u + 1] == 'h',
        tag_at(s, u, "string"@) ==> s[u] == 's' && s[u + 1] == 't',
        tag_at(s, u, "button"@) ==> s[u] == 'b',
        tag_at(s, u, "combo"@) ==> s[u] == 'c' && s[u + 1] == 'o',
{
    reveal_strlit("spin");
    reveal_strlit("check");
    reveal_strlit("string");
    reveal_strlit("button");
    reveal_strlit("combo");
    if tag_at(s, u, "spin"@) {
        lemma_tag_char(s, u, "spin"@, 0);
        lemma_tag_char(s, u, "spin"@, 1);
    }
    if tag_at(s, u, "check"@) {
        lemma_tag_char(s, u, "check"@, 0);
        lemma_tag_char(s, u, "check"@, 1);
    }
    if tag_at(s, u, "string"@) {
        lemma_tag_char(s, u, "string"@, 0);
        lemma_tag_char(s, u, "string"@, 1);
    }
    if tag_at(s, u, "button"@) {
        lemma_tag_char(s, u, "button"@, 0);
    }
    if tag_at(s, u, "combo"@) {
        lemma_tag_char(s, u, "combo"@, 0);
        lemma_tag_char(s, u, "combo"@, 1);
    }
}

/// A text that stands at `i` up to the end of the line.
pub open spec fn ends_with_at(s: Seq<char>, i: int, t: Seq<char>) -> bool {
    0 <= i && i + t.len() == s.len() && s.subrange(i, s.len() as int) == t
}

/// Reading a `check` type and its optional default, up to the end of the line.
#[verifier::spinoff_prover]
proof fn lemma_read_check(s: Seq<char>, u: int, d: Option<bool>)
    requires
        s.len() <= usize::MAX,
        ends_with_at(s, u, "check"@ + match d {
            Some(b) => " default "@ + bool_text(b),
            None => Seq::empty(),
        }),
    ensures
        option_kind_at(s, u) == Step::Done(s.len() as usize, KindView::Check { default: d }),
{
    reveal_strlit("check");
    reveal_strlit(" default ");
    reveal_strlit("default");
    reveal_strlit("true");
    reveal_strlit("false");
    let t = s.subrange(u, s.len() as int);
    assert(forall|j: int| 0 <= j < t.len() ==> s[u + j] == #[trigger] t[j]);
    assert(tag_at(s, u, "check"@)) by {
        assert(s.subrange(u, u + 5) =~= "check"@);
    }
    lemma_kind_chars(s, u);
    match d {
        None => {
            assert(skip_blanks(s, u + 5) == u + 5);
        },
        Some(b) => {
            assert(t[5] == ' ' && t[6] == 'd' && t[13] == ' ');
            assert(s[u + 5] == ' ' && s[u + 6] == 'd' && s[u + 13] == ' ');
            assert(skip_blanks(s, u + 6) == u + 6);
            assert(skip_blanks(s, u + 5) == u + 6);
            assert(tag_at(s, u + 6, "default"@)) by {
                assert forall|j: int| 0 <= j < 7 implies s.subrange(u + 6, u + 13)[j] == "default"@[j] by {
                    assert(t[6 + j] == "default"@[j]);
                }
                assert(s.subrange(u + 6, u + 13) =~= "default"@);
            }
            assert(t[14] == (if b { 't' } else { 'f' }));
            assert(s[u + 14] == (if b { 't' } else { 'f' }));
            assert(skip_blanks(s, u + 14) == u + 14);
            assert(skip_blanks(s, u + 13) == u + 14);
            assert(default_after(s, u + 5) == Some(u + 14));
            if b {
                assert(tag_at(s, u + 14, "true"@)) by {
                    assert forall|j: int| 0 <= j < 4 implies s.subrange(u + 14, u + 18)[j] == "true"@[j] by {
                        assert(t[14 + j] == "true"@[j]);
                    }
                    assert(s.subrange(u + 14, u + 18) =~= "true"@);
                }
            } else {
                assert(!tag_at(s, u + 14, "true"@)) by {
                    if tag_at(s, u + 14, "true"@) {
                        lemma_tag_char(s, u + 14, "true"@, 0);
                    }
                }
                assert(tag_at(s, u + 14, "false"@)) by {
                    assert forall|j: int| 0 <= j < 5 implies s.subrange(u + 14, u + 19)[j] == "false"@[j] by {
                        assert(t[14 + j] == "false"@[j]);
                    }
                    assert(s.subrange(u + 14, u + 19) =~= "false"@);
                }
            }
        },
    }
}

/// Reading a `string` type and its optional default, up to the end of the line.
#[verifier::spinoff_prover]
proof fn lemma_read_string(s: Seq<char>, u: int, d: Option<Seq<char>>)
    requires
        s.len() <= usize::MAX,
        d matches Some(t) ==> line_text_ok(t),
        ends_with_at(s, u, "string"@ + opt_string_text(" default "@, d)),
    ensures
        option_kind_at(s, u) == Step::Done(s.len() as usize, KindView::String { default: d }),
{
    reveal_strlit("string");
    reveal_strlit(" default ");
    reveal_strlit("default");
    reveal_strlit("spin");
    reveal_strlit("check");
    let t = s.subrange(u, s.len() as int);
    assert(forall|j: int| 0 <= j < t.len() ==> s[u + j] == #[trigger] t[j]);
    assert(tag_at(s, u, "string"@)) by {
        assert(s.subrange(u, u + 6) =~= "string"@);
    }
    lemma_kind_chars(s, u);
    match d {
        None => {
            assert(skip_blanks(s, u + 6) == u + 6);
        },
        Some(x) => {
            assert(t[6] == ' ' && t[7] == 'd' && t[14] == ' ');
            assert(s[u + 6] == ' ' && s[u + 7] == 'd' && s[u + 14] == ' ');
            assert(skip_blanks(s, u + 7) == u + 7);
            assert(skip_blanks(s, u + 6) == u + 7);
            assert(tag_at(s, u + 7, "default"@)) by {
                assert forall|j: int| 0 <= j < 7 implies s.subrange(u + 7, u + 14)[j] == "default"@[j] by {
                    assert(t[7 + j] == "default"@[j]);
                }
                assert(s.subrange(u + 7, u + 14) =~= "default"@);
            }
            assert(s.subrange(u + 15, s.len() as int) =~= x) by {
                assert forall|j: int| 0 <= j < x.len() implies s.subrange(u + 15, s.len() as int)[j] == x[j] by {
                    assert(t[15 + j] == x[j]);
                }
            }
            lemma_rest_text(s, u + 15, x);
            assert(default_after(s, u + 6) == Some(u + 15));
        },
    }
}

/// Reading a `button` type, up to the end of the line.
#[verifier::spinoff_prover]
proof fn lemma_read_button(s: Seq<char>, u: int)
    requires
        s.len() <= usize::MAX,
        ends_with_at(s, u, "button"@),
    ensures
        option_kind_at(s, u) == Step::Done(s.len() as usize, KindView::Button),
{
    reveal_strlit("button");
    assert(tag_at(s, u, "button"@));
    lemma_kind_chars(s, u);
    lemma_tag_char(s, u, "button"@, 0);
}

/// The text of the settings of a spin option is the one its type writes.
#[verifier::spinoff_prover]
proof fn lemma_spin_text(t: (Option<int>, Option<int>, Option<int>))
    ensures
        spin_text_from(t, 0) == opt_text(" default "@, t.0) + opt_text(" min "@, t.1) + opt_text(" max "@, t.2),
        t.0 is None ==> spin_text_from(t, 0) == spin_text_from(t, 1),
        t.0 is None && t.1 is None ==> spin_text_from(t, 0) == spin_text_from(t, 2),
        t.0 is None && t.1 is None && t.2 is None ==> spin_text_from(t, 0) == Seq::<char>::empty(),
{
    assert(spin_text_from(t, 3) == Seq::<char>::empty());
    assert(spin_text_from(t, 2) =~= opt_text(" max "@, t.2));
    assert(spin_text_from(t, 1) == opt_text(" min "@, t.1) + spin_text_from(t, 2));
    assert(spin_text_from(t, 0) == opt_text(" default "@, t.0) + spin_text_from(t, 1));
    assert(spin_text_from(t, 0) =~= opt_text(" default "@, t.0) + opt_text(" min "@, t.1) + opt_text(
        " max "@,
        t.2,
    ));
}

/// Reading a `spin` type and its settings, up to the end of the line.
#[verifier::spinoff_prover]
proof fn lemma_read_spin(s: Seq<char>, u: int, t: (Option<int>, Option<int>, Option<int>))
    requires
        s.len() <= usize::MAX,
        spin_ok(t),
        ends_with_at(s, u, "spin"@ + spin_text_from(t, 0)),
    ensures
        option_kind_at(s, u) == Step::Done(s.len() as usize, KindView::Spin { default: t.0, min: t.1, max: t.2 }),
{
    reveal_strlit("spin");
    let r = s.subrange(u, s.len() as int);
    let x = spin_text_from(t, 0);
    assert(tag_at(s, u, "spin"@ + x));
    lemma_tag_split(s, u, "spin"@, x);
    lemma_spin_text(t);
    let e = u + 4;
    let none3: (Option<int>, Option<int>, Option<int>) = (None, None, None);
    if t.0 is None && t.1 is None && t.2 is None {
        assert(s.len() == e);
        assert(skip_blanks(s, e) == e);
    } else {
        let k0: int = if t.0 is Some { 0 } else if t.1 is Some { 1 } else { 2 };
        let v = spin_field(t, k0)->0;
        assert(spin_field(t, k0) is Some);
        assert(spin_text_from(t, 0) == spin_text_from(t, k0));
        let head = spin_keyword(k0) + signed_decimal(v);
        let rest = spin_text_from(t, k0 + 1);
        assert(spin_text_from(t, k0) == head + rest);
        lemma_tag_split(s, e, head, rest);
        let g = e + head.len();
        if g < s.len() {
            lemma_spin_text_first(t, k0 + 1);
            lemma_tag_char(s, g, rest, 0);
        }
        lemma_spin_part_at(s, e, k0, v);
        let acc = apply_spin_part(none3, spin_part(k0, v));
        assert forall|j: int| 0 <= j < k0 + 1 implies #[trigger] spin_field(acc, j) == spin_field(t, j) by {}
        assert forall|j: int| k0 + 1 <= j < 3 implies #[trigger] spin_field(acc, j) is None by {}
        lemma_read_spin_from(s, g, t, k0 + 1, acc);
    }
}

/// Reading a `combo` type, its optional default and its values, up to the end of the line.
#[verifier::spinoff_prover]
proof fn lemma_read_combo(s: Seq<char>, u: int, options: Seq<Seq<char>>, d: Option<Seq<char>>)
    requires
        s.len() <= usize::MAX,
        kind_ok(KindView::Combo { options, default: d }),
        ends_with_at(s, u, "combo"@ + opt_string_text(" default "@, d) + vars_text(options)),
    ensures
        option_kind_at(s, u) == Step::Done(s.len() as usize, KindView::Combo { options, default: d }),
{
    reveal_strlit("combo");
    reveal_strlit(" default ");
    reveal_strlit(" var ");
    let kv = KindView::Combo { options, default: d };
    assert(kind_ok(kv));
    assert(kv->Combo_options == options);
    assert(forall|i: int| 0 <= i < options.len() ==> word_ok(#[trigger] options[i]));
    let dt = opt_string_text(" default "@, d);
    let vt = vars_text(options);
    assert(tag_at(s, u, "combo"@ + dt + vt));
    lemma_tag_split(s, u, "combo"@ + dt, vt);
    lemma_tag_split(s, u, "combo"@, dt);
    lemma_kind_chars(s, u);
    let e = u + 5;
    let g = e + dt.len();
    let empty = Seq::<Seq<char>>::empty();
    if vt.len() > 0 {
        lemma_vars_text_front(options);
        lemma_tag_char(s, g, vt, 0);
    }
    match d {
        Some(w) => {
            lemma_combo_part_at(s, e, true, w);
            lemma_read_vars(s, g, options, (empty, Some(w)));
            assert(empty + options =~= options);
        },
        None => {
            if options.len() == 0 {
                assert(s.len() == e);
                assert(skip_blanks(s, e) == e);
                assert(options =~= empty);
            } else {
                let w = options[0];
                let rest = options.drop_first();
                lemma_tag_split(s, e, " var "@ + w, vars_text(rest));
                let g2 = e + (" var "@ + w).len();
                if rest.len() > 0 {
                    lemma_vars_text_front(rest);
                    lemma_tag_char(s, g2, vars_text(rest), 0);
                }
                assert(word_ok(w));
                lemma_combo_part_at(s, e, false, w);
                assert forall|i: int| 0 <= i < rest.len() implies word_ok(#[trigger] rest[i]) by {
                    assert(rest[i] == options[i + 1]);
                }
                lemma_read_vars(s, g2, rest, (empty.push(w), None));
                assert(empty.push(w) + rest =~= options);
            }
        },
    }
}

/// Reading the type of an option where its text stands, after ` type `, up to the end of
/// the line.
#[verifier::spinoff_prover]
proof fn lemma_read_kind(s: Seq<char>, u: int, k: KindView)
    requires
        s.len() <= usize::MAX,
        6 <= u,
        kind_ok(k),
        ends_with_at(s, u - 6, kind_text(k)),
    ensures
        option_kind_at(s, u) == Step::Done(s.len() as usize, k),
        tag_at(s, u - 5, "type"@),
        s[u - 6] == ' ',
        s[u - 1] == ' ',
        u < s.len(),
        !is_blank(s[u]),
{
    reveal_strlit(" type ");
    reveal_strlit("type");
    reveal_strlit(" type string");
    reveal_strlit("string");
    reveal_strlit(" type spin");
    reveal_strlit("spin");
    reveal_strlit(" type button");
    reveal_strlit("button");
    reveal_strlit(" type check");
    reveal_strlit("check");
    reveal_strlit(" type combo");
    reveal_strlit("combo");
    let r = kind_text(k);
    let a = u - 6;
    let rest: Seq<char> = match k {
        KindView::String { default } => "string"@ + opt_string_text(" default "@, default),
        KindView::Spin { default, min, max } => "spin"@ + spin_text_from((default, min, max), 0),
        KindView::Button => "button"@,
        KindView::Check { default } => "check"@ + match default {
            Some(b) => " default "@ + bool_text(b),
            None => Seq::empty(),
        },
        KindView::Combo { options, default } => "combo"@ + opt_string_text(" default "@, default) + vars_text(
            options,
        ),
    };
    match k {
        KindView::Spin { default, min, max } => {
            lemma_spin_text((default, min, max));
        },
        _ => {},
    }
    assert(r =~= " type "@ + rest);
    assert(forall|j: int| 0 <= j < r.len() ==> s[a + j] == #[trigger] r[j]) by {
        assert forall|j: int| 0 <= j < r.len() implies s[a + j] == #[trigger] r[j] by {
            assert(s.subrange(a, s.len() as int)[j] == s[a + j]);
        }
    }
    assert(s.subrange(u, s.len() as int) =~= rest) by {
        assert forall|j: int| 0 <= j < rest.len() implies s.subrange(u, s.len() as int)[j] == rest[j] by {
            assert(r[6 + j] == rest[j]);
        }
    }
    assert(tag_at(s, u - 5, "type"@)) by {
        assert forall|j: int| 0 <= j < 4 implies s.subrange(u - 5, u - 1)[j] == "type"@[j] by {
            assert(r[1 + j] == "type"@[j]);
        }
        assert(s.subrange(u - 5, u - 1) =~= "type"@);
    }
    assert(r[0] == ' ' && r[5] == ' ');
    assert(r[6] == rest[0]);
    match k {
        KindView::String { default } => {
            lemma_read_string(s, u, default);
        },
        KindView::Spin { default, min, max } => {
            lemma_read_spin(s, u, (default, min, max));
        },
        KindView::Button => {
            lemma_read_button(s, u);
        },
        KindView::Check { default } => {
            lemma_read_check(s, u, default);
        },
        KindView::Combo { options, default } => {
            lemma_read_combo(s, u, options, default);
        },
    }
}

/// Reading `option name`, a name that is one word, and the type of the option, up to the
/// end of the line.
#[verifier::spinoff_prover]
proof fn lemma_read_option(s: Seq<char>, name: Seq<char>, k: KindView)
    requires
        s.len() <= usize::MAX,
        word_ok(name),
        kind_ok(k),
        tag_at(s, 0, "option name "@),
        tag_at(s, 12, name),
        ends_with_at(s, 12 + name.len() as int, kind_text(k)),
    ensures
        option_at(s, 0) == Step::Done(s.len() as usize, ResponseView::Option { name, kind: k }),
{
    reveal_strlit("option name ");
    reveal_strlit("option");
    reveal_strlit("name");
    reveal_strlit("type");
    let w = 12 + name.len() as int;
    let u = w + 6;
    lemma_read_kind(s, u, k);
    assert(tag_at(s, 0, "option"@)) by {
        assert forall|j: int| 0 <= j < 6 implies s.subrange(0, 6)[j] == "option"@[j] by {
            lemma_tag_char(s, 0, "option name "@, j);
        }
        assert(s.subrange(0, 6) =~= "option"@);
    }
    assert(tag_at(s, 7, "name"@)) by {
        assert forall|j: int| 0 <= j < 4 implies s.subrange(7, 11)[j] == "name"@[j] by {
            lemma_tag_char(s, 0, "option name "@, 7 + j);
        }
        assert(s.subrange(7, 11) =~= "name"@);
    }
    lemma_tag_char(s, 0, "option name "@, 6);
    lemma_tag_char(s, 0, "option name "@, 7);
    lemma_tag_char(s, 0, "option name "@, 11);
    assert(skip_blanks(s, 7) == 7);
    assert(skip_blanks(s, 6) == 7);
    lemma_tag_char(s, 12, name, 0);
    assert(!is_space(name[0]));
    assert(skip_blanks(s, 12) == 12);
    assert(skip_blanks(s, 11) == 12);
    lemma_word_end(s, 12, name);
    assert(s.subrange(12, w) == name);
    lemma_tag_char(s, u - 5, "type"@, 0);
    assert(skip_blanks(s, w + 1) == w + 1);
    assert(skip_blanks(s, w) == w + 1);
    assert(skip_blanks(s, u) == u);
    assert(skip_blanks(s, u - 1) == u);
}
/// The keyword of an item of search information.
pub open spec fn info_keyword(x: InfoView) -> Seq<char> {
    match x {
        InfoView::Depth(_) => "depth"@,
        InfoView::SelectiveDepth(_) => "seldepth"@,
        InfoView::Time(_) => "time"@,
        InfoView::Nodes(_) => "nodes"@,
        InfoView::Pv(_) => "pv"@,
        InfoView::MultiPv(_) => "multipv"@,
        InfoView::Score(_) => "score"@,
        InfoView::CurrMove(_) => "currmove"@,
        InfoView::CurrMoveNumber(_) => "currmovenumber"@,
        InfoView::Hashfull(_) => "hashfull"@,
        InfoView::Nps(_) => "nps"@,
        InfoView::TbHits(_) => "tbhits"@,
        InfoView::SbHits(_) => "sbhits"@,
        InfoView::CpuLoad(_) => "cpuload"@,
        InfoView::String(_) => "string"@,
        InfoView::Refutation(_) => "refutation"@,
        InfoView::CurrLine { .. } => "currline"@,
    }
}

/// The text of an item is its keyword followed by the rest of it.
#[verifier::spinoff_prover]
proof fn lemma_info_text_keyword(x: InfoView)
    ensures
        info_text(x) == info_keyword(x) + info_text(x).subrange(
            info_keyword(x).len() as int,
            info_text(x).len() as int,
        ),
        info_keyword(x).len() >= 2,
        info_keyword(x).len() <= info_text(x).len(),
{
    reveal_strlit("depth");
    reveal_strlit("seldepth");
    reveal_strlit("time");
    reveal_strlit("nodes");
    reveal_strlit("pv");
    reveal_strlit("multipv");
    reveal_strlit("score");
    reveal_strlit("currmove");
    reveal_strlit("currmovenumber");
    reveal_strlit("hashfull");
    reveal_strlit("nps");
    reveal_strlit("tbhits");
    reveal_strlit("sbhits");
    reveal_strlit("cpuload");
    reveal_strlit("string");
    reveal_strlit("refutation");
    reveal_strlit("currline");
    reveal_strlit("depth ");
    reveal_strlit("seldepth ");
    reveal_strlit("time ");
    reveal_strlit("nodes ");
    reveal_strlit("multipv ");
    reveal_strlit("score ");
    reveal_strlit("currmove ");
    reveal_strlit("currmovenumber ");
    reveal_strlit("hashfull ");
    reveal_strlit("nps ");
    reveal_strlit("tbhits ");
    reveal_strlit("sbhits ");
    reveal_strlit("cpuload ");
    reveal_strlit("string ");
    let t = info_text(x);
    let kw = info_keyword(x);
    assert(t =~= kw + t.subrange(kw.len() as int, t.len() as int));
}

/// What an item keyword standing at `q` says of the characters there: enough of them to
/// tell the keywords apart.
#[verifier::spinoff_prover]
proof fn lemma_info_chars(s: Seq<char>, q: int)
    ensures
        tag_at(s, q, "depth"@) ==> s[q] == 'd' && s[q + 1] == 'e',
        tag_at(s, q, "seldepth"@) ==> s[q] == 's' && s[q + 1] == 'e',
        tag_at(s, q, "time"@) ==> s[q] == 't' && s[q + 1] == 'i',
        tag_at(s, q, "nodes"@) ==> s[q] == 'n' && s[q + 1] == 'o',
        tag_at(s, q, "pv"@) ==> s[q] == 'p' && s[q + 1] == 'v',
        tag_at(s, q, "multipv"@) ==> s[q] == 'm' && s[q + 1] == 'u',
        tag_at(s, q, "score"@) ==> s[q] == 's' && s[q + 1] == 'c',
        tag_at(s, q, "currmove"@) ==> s[q] == 'c' && s[q + 1] == 'u' && s[q + 4] == 'm',
        tag_at(s, q, "currmovenumber"@) ==> s[q] == 'c' && s[q + 1] == 'u' && s[q + 4] == 'm' && s[q + 8]
            == 'n',
        tag_at(s, q, "hashfull"@) ==> s[q] == 'h' && s[q + 1] == 'a',
        tag_at(s, q, "nps"@) ==> s[q] == 'n' && s[q + 1] == 'p',
        tag_at(s, q, "tbhits"@) ==> s[q] == 't' && s[q + 1] == 'b',
        tag_at(s, q, "sbhits"@) ==> s[q] == 's' && s[q + 1] == 'b',
        tag_at(s, q, "cpuload"@) ==> s[q] == 'c' && s[q + 1] == 'p' && s[q + 2] == 'u',
        tag_at(s, q, "string"@) ==> s[q] == 's' && s[q + 1] == 't',
        tag_at(s, q, "refutation"@) ==> s[q] == 'r' && s[q + 1] == 'e',
        tag_at(s, q, "currline"@) ==> s[q] == 'c' && s[q + 1] == 'u' && s[q + 4] == 'l',
        tag_at(s, q, "mate"@) ==> s[q] == 'm' && s[q + 1] == 'a',
        tag_at(s, q, "cp"@) ==> s[q] == 'c' && s[q + 1] == 'p',
        tag_at(s, q, "lowerbound"@) ==> s[q] == 'l',
        tag_at(s, q, "upperbound"@) ==> s[q] == 'u',
{
    reveal_strlit("depth");
    reveal_strlit("seldepth");
    reveal_strlit("time");
    reveal_strlit("nodes");
    reveal_strlit("pv");
    reveal_strlit("multipv");
    reveal_strlit("score");
    reveal_strlit("currmove");
    reveal_strlit("currmovenumber");
    reveal_strlit("hashfull");
    reveal_strlit("nps");
    reveal_strlit("tbhits");
    reveal_strlit("sbhits");
    reveal_strlit("cpuload");
    reveal_strlit("string");
    reveal_strlit("refutation");
    reveal_strlit("currline");
    reveal_strlit("mate");
    reveal_strlit("cp");
    reveal_strlit("lowerbound");
    reveal_strlit("upperbound");
    let kws = seq![
        "depth"@, "seldepth"@, "time"@, "nodes"@, "pv"@, "multipv"@, "score"@, "currmove"@,
        "currmovenumber"@, "hashfull"@, "nps"@, "tbhits"@, "sbhits"@, "cpuload"@, "string"@,
        "refutation"@, "currline"@, "mate"@, "cp"@, "lowerbound"@, "upperbound"@,
    ];
    assert forall|n: int, j: int| 0 <= n < 21 && 0 <= j < kws[n].len() && j < 9 && tag_at(s, q, kws[n])
        implies s[q + j] == #[trigger] kws[n][j] by {
        lemma_tag_char(s, q, kws[n], j);
    }
    assert(kws[0] == "depth"@ && kws[1] == "seldepth"@ && kws[2] == "time"@ && kws[3] == "nodes"@);
    assert(kws[4] == "pv"@ && kws[5] == "multipv"@ && kws[6] == "score"@ && kws[7] == "currmove"@);
    assert(kws[8] == "currmovenumber"@ && kws[9] == "hashfull"@ && kws[10] == "nps"@);
    assert(kws[11] == "tbhits"@ && kws[12] == "sbhits"@ && kws[13] == "cpuload"@);
    assert(kws[14] == "string"@ && kws[15] == "refutation"@ && kws[16] == "currline"@);
    assert(kws[17] == "mate"@ && kws[18] == "cp"@ && kws[19] == "lowerbound"@ && kws[20] == "upperbound"@);
    assert(kws[0][0] == 'd' && kws[0][1] == 'e');
    assert(kws[1][0] == 's' && kws[1][1] == 'e');
    assert(kws[2][0] == 't' && kws[2][1] == 'i');
    assert(kws[3][0] == 'n' && kws[3][1] == 'o');
    assert(kws[4][0] == 'p' && kws[4][1] == 'v');
    assert(kws[5][0] == 'm' && kws[5][1] == 'u');
    assert(kws[6][0] == 's' && kws[6][1] == 'c');
    assert(kws[7][0] == 'c' && kws[7][1] == 'u' && kws[7][4] == 'm');
    assert(kws[8][0] == 'c' && kws[8][1] == 'u' && kws[8][4] == 'm' && kws[8][8] == 'n');
    assert(kws[9][0] == 'h' && kws[9][1] == 'a');
    assert(kws[10][0] == 'n' && kws[10][1] == 'p');
    assert(kws[11][0] == 't' && kws[11][1] == 'b');
    assert(kws[12][0] == 's' && kws[12][1] == 'b');
    assert(kws[13][0] == 'c' && kws[13][1] == 'p' && kws[13][2] == 'u');
    assert(kws[14][0] == 's' && kws[14][1] == 't');
    assert(kws[15][0] == 'r' && kws[15][1] == 'e');
    assert(kws[16][0] == 'c' && kws[16][1] == 'u' && kws[16][4] == 'l');
    assert(kws[17][0] == 'm' && kws[17][1] == 'a');
    assert(kws[18][0] == 'c' && kws[18][1] == 'p');
    assert(kws[19][0] == 'l');
    assert(kws[20][0] == 'u');
}

/// Where the keyword of an item stands, no space, digit, move or part of a score starts.
#[verifier::spinoff_prover]
proof fn lemma_info_next(s: Seq<char>, q: int, y: InfoView)
    requires
        tag_at(s, q, info_text(y)),
    ensures
        q < s.len(),
        !is_blank(s[q]),
        !is_digit(s[q]),
        !(uci_move_at(s, q) is Done),
        score_part_at(s, q) is None,
{
    lemma_info_text_keyword(y);
    lemma_tag_split(s, q, info_keyword(y), info_text(y).subrange(info_keyword(y).len() as int, info_text(y).len() as int));
    lemma_info_chars(s, q);
    reveal_strlit("depth");
    reveal_strlit("seldepth");
    reveal_strlit("time");
    reveal_strlit("nodes");
    reveal_strlit("pv");
    reveal_strlit("multipv");
    reveal_strlit("score");
    reveal_strlit("currmove");
    reveal_strlit("currmovenumber");
    reveal_strlit("hashfull");
    reveal_strlit("nps");
    reveal_strlit("tbhits");
    reveal_strlit("sbhits");
    reveal_strlit("cpuload");
    reveal_strlit("string");
    reveal_strlit("refutation");
    reveal_strlit("currline");
    reveal_strlit("mate");
    reveal_strlit("cp");
    reveal_strlit("lowerbound");
    reveal_strlit("upperbound");
    if y is CpuLoad {
        assert(skip_blanks(s, q + 2) == q + 2);
        assert(super::req::keyword_number(s, q, "cp"@, true, -0x8000_0000_0000_0000, 0x7fff_ffff_ffff_ffff) is None);
    }
}

/// The text of one stage of a score, after a space: the mate, the centipawns, the bound.
pub open spec fn score_stage_text(sc: ScoreView, k: int) -> Seq<char> {
    if k == 0 {
        opt_text(" mate "@, sc.mate)
    } else if k == 1 {
        opt_text(" cp "@, sc.cp)
    } else if k == 2 {
        match sc.bound {
            ResponseBound::Exact => Seq::empty(),
            ResponseBound::Upperbound => " upperbound"@,
            ResponseBound::Lowerbound => " lowerbound"@,
        }
    } else {
        Seq::empty()
    }
}

/// Whether a stage of a score is given.
pub open spec fn score_stage_given(sc: ScoreView, k: int) -> bool {
    if k == 0 {
        sc.mate is Some
    } else if k == 1 {
        sc.cp is Some
    } else if k == 2 {
        sc.bound != ResponseBound::Exact
    } else {
        false
    }
}

/// The part of a score of the given stage.
pub open spec fn score_stage_part(sc: ScoreView, k: int) -> ScorePart {
    if k == 0 {
        ScorePart::Mate(sc.mate->0)
    } else if k == 1 {
        ScorePart::Cp(sc.cp->0)
    } else {
        ScorePart::Bound(sc.bound)
    }
}

/// The text of the stages of a score from the given stage on.
pub open spec fn score_text_from(sc: ScoreView, k: int) -> Seq<char>
    decreases 3 - k,
{
    if k >= 3 || k < 0 {
        Seq::empty()
    } else {
        score_stage_text(sc, k) + score_text_from(sc, k + 1)
    }
}

/// Whether a score reads back from its text: something is given, and the numbers lie in
/// the ranges of their types.
pub open spec fn score_ok(sc: ScoreView) -> bool {
    &&& sc.mate is Some || sc.cp is Some || sc.bound != ResponseBound::Exact
    &&& sc.mate matches Some(m) ==> 0 <= m <= 0xffff_ffff
    &&& sc.cp matches Some(c) ==> -0x8000_0000_0000_0000 <= c <= 0x7fff_ffff_ffff_ffff
}

/// The stages of a score: each one's text is empty exactly when it is not given, and
/// otherwise starts with a space; after a space, the text of a score is that of its stages.
#[verifier::spinoff_prover]
proof fn lemma_score_stages(sc: ScoreView)
    ensures
        forall|k: int| 0 <= k < 3 ==> (#[trigger] score_stage_text(sc, k).len() == 0 <==> !score_stage_given(sc, k)),
        forall|k: int| 0 <= k < 3 && score_stage_given(sc, k) ==> #[trigger] score_stage_text(sc, k)[0] == ' ',
        forall|k: int| 0 <= k <= 3 ==> #[trigger] score_text_from(sc, k).len() == 0 || score_text_from(sc, k)[0] == ' ',
        score_ok(sc) ==> seq![' '] + score_text(sc) == score_text_from(sc, 0),
{
    reveal_strlit(" mate ");
    reveal_strlit(" cp ");
    reveal_strlit(" upperbound");
    reveal_strlit(" lowerbound");
    reveal_strlit("mate ");
    reveal_strlit("cp ");
    reveal_strlit("upperbound");
    reveal_strlit("lowerbound");
    reveal_strlit(" ");
    let e = Seq::<char>::empty();
    assert(score_text_from(sc, 3) == e);
    assert(score_text_from(sc, 2) =~= score_stage_text(sc, 2));
    assert(score_text_from(sc, 1) == score_stage_text(sc, 1) + score_text_from(sc, 2));
    assert(score_text_from(sc, 0) == score_stage_text(sc, 0) + score_text_from(sc, 1));
    if score_ok(sc) {
        assert(seq![' '] + score_text(sc) =~= score_text_from(sc, 0));
    }
}

/// A text that stands at `e` without its first character stands one place further.
#[verifier::spinoff_prover]
proof fn lemma_tag_rest(s: Seq<char>, e: int, t: Seq<char>)
    requires
        tag_at(s, e, t),
        t.len() > 0,
    ensures
        s[e] == t[0],
        tag_at(s, e + 1, t.drop_first()),
{
    lemma_tag_char(s, e, t, 0);
    assert(t =~= seq![t[0]] + t.drop_first());
    lemma_tag_split(s, e, seq![t[0]], t.drop_first());
}

/// Reading a given stage of a score where its text stands after a space.
#[verifier::spinoff_prover]
proof fn lemma_score_part_at(s: Seq<char>, e: int, sc: ScoreView, k: int)
    requires
        s.len() <= usize::MAX,
        score_ok(sc),
        0 <= k < 3,
        score_stage_given(sc, k),
        tag_at(s, e, score_stage_text(sc, k)),
        e + score_stage_text(sc, k).len() == s.len() || s[e + score_stage_text(sc, k).len()] == ' ',
    ensures
        skip_blanks(s, e) == e + 1,
        score_part_at(s, e + 1) == Some((e + score_stage_text(sc, k).len(), score_stage_part(sc, k))),
{
    reveal_strlit(" mate ");
    reveal_strlit(" cp ");
    reveal_strlit(" upperbound");
    reveal_strlit(" lowerbound");
    reveal_strlit("mate");
    reveal_strlit("cp");
    reveal_strlit("upperbound");
    reveal_strlit("lowerbound");
    let t = score_stage_text(sc, k);
    lemma_tag_rest(s, e, t);
    let r = t.drop_first();
    lemma_info_chars(s, e + 1);
    if k == 0 {
        let m = sc.mate->0;
        assert(r =~= "mate"@ + (seq![' '] + signed_decimal(m)));
        lemma_tag_char(s, e + 1, r, 0);
        lemma_number_at(s, e + 1, "mate"@, m, false, 0, 0xffff_ffff);
    } else if k == 1 {
        let c = sc.cp->0;
        assert(r =~= "cp"@ + (seq![' '] + signed_decimal(c)));
        lemma_tag_char(s, e + 1, r, 0);
        lemma_tag_char(s, e + 1, r, 1);
        lemma_number_at(s, e + 1, "cp"@, c, true, -0x8000_0000_0000_0000, 0x7fff_ffff_ffff_ffff);
    } else {
        lemma_tag_char(s, e + 1, r, 0);
        if sc.bound == ResponseBound::Upperbound {
            assert(r =~= "upperbound"@);
        } else {
            assert(r =~= "lowerbound"@);
        }
    }
    assert(skip_blanks(s, e + 1) == e + 1);
}

/// Whether the parts of an accumulated score agree with a score up to the given stage and
/// are not given from it on.
pub open spec fn score_agrees(acc: ScoreView, sc: ScoreView, k: int) -> bool {
    &&& if k > 0 { acc.mate == sc.mate } else { acc.mate is None }
    &&& if k > 1 { acc.cp == sc.cp } else { acc.cp is None }
    &&& if k > 2 { acc.bound == sc.bound } else { acc.bound == ResponseBound::Exact }
}

/// Whether a score ends at `end`: the line ends there, or a space follows that nothing that
/// reads as a part of a score follows.
pub open spec fn score_stop(s: Seq<char>, end: int) -> bool {
    ||| end == s.len()
    ||| s[end] == ' ' && end + 1 < s.len() && !is_blank(s[end + 1]) && score_part_at(s, end + 1) is None
}

/// Reading the stages of a score from the given stage on, up to where the score ends.
#[verifier::spinoff_prover]
proof fn lemma_read_score_from(s: Seq<char>, e: int, sc: ScoreView, k: int, acc: ScoreView)
    requires
        s.len() <= usize::MAX,
        score_ok(sc),
        0 <= k <= 3,
        tag_at(s, e, score_text_from(sc, k)),
        score_stop(s, e + score_text_from(sc, k).len()),
        score_agrees(acc, sc, k),
    ensures
        more_score_parts(s, e, acc) == (e + score_text_from(sc, k).len(), sc),
    decreases 3 - k,
{
    lemma_score_stages(sc);
    if k == 3 {
        assert(score_text_from(sc, 3).len() == 0);
        if e < s.len() {
            assert(skip_blanks(s, e + 1) == e + 1);
        }
    } else {
        let st = score_stage_text(sc, k);
        let rest = score_text_from(sc, k + 1);
        assert(score_text_from(sc, k) == st + rest);
        if !score_stage_given(sc, k) {
            assert(st.len() == 0);
            assert(score_text_from(sc, k) =~= rest);
            lemma_read_score_from(s, e, sc, k + 1, acc);
        } else {
            lemma_tag_split(s, e, st, rest);
            let g = e + st.len();
            if rest.len() > 0 {
                lemma_tag_char(s, g, rest, 0);
            }
            lemma_score_part_at(s, e, sc, k);
            let acc2 = apply_score_part(acc, score_stage_part(sc, k));
            lemma_read_score_from(s, g, sc, k + 1, acc2);
        }
    }
}

/// Reading `score` and a score that reads back where their text stands, up to where the
/// score ends.
#[verifier::spinoff_prover]
proof fn lemma_read_score(s: Seq<char>, p: int, sc: ScoreView)
    requires
        s.len() <= usize::MAX,
        score_ok(sc),
        tag_at(s, p, "score "@ + score_text(sc)),
        score_stop(s, p + ("score "@ + score_text(sc)).len()),
    ensures
        score_at(s, p) == Some((p + ("score "@ + score_text(sc)).len(), sc)),
{
    reveal_strlit("score ");
    reveal_strlit("score");
    lemma_score_stages(sc);
    let t = score_text_from(sc, 0);
    assert("score "@ + score_text(sc) =~= "score"@ + t);
    lemma_tag_split(s, p, "score"@, t);
    let e = p + 5;
    let k0: int = if sc.mate is Some { 0 } else if sc.cp is Some { 1 } else { 2 };
    assert(score_stage_given(sc, k0));
    assert(score_text_from(sc, 0) == score_text_from(sc, k0)) by {
        assert(score_text_from(sc, 0) == score_stage_text(sc, 0) + score_text_from(sc, 1));
        assert(score_text_from(sc, 1) == score_stage_text(sc, 1) + score_text_from(sc, 2));
        if k0 >= 1 {
            assert(score_text_from(sc, 0) =~= score_text_from(sc, 1));
        }
        if k0 >= 2 {
            assert(score_text_from(sc, 1) =~= score_text_from(sc, 2));
        }
    }
    let st = score_stage_text(sc, k0);
    let rest = score_text_from(sc, k0 + 1);
    assert(score_text_from(sc, k0) == st + rest);
    lemma_tag_split(s, e, st, rest);
    let g = e + st.len();
    if rest.len() > 0 {
        lemma_tag_char(s, g, rest, 0);
    }
    lemma_score_part_at(s, e, sc, k0);
    let acc = apply_score_part(no_score(), score_stage_part(sc, k0));
    lemma_read_score_from(s, g, sc, k0 + 1, acc);
}

/// Whether an item of search information reads back from its text: numbers lie in the
/// ranges of their types, lists of moves are not empty and hold moves on the board, a score
/// reads back, and a string reads back as the rest of a line.
pub open spec fn info_ok(x: InfoView) -> bool {
    let u16_max: int = 0xffff;
    let u32_max: int = 0xffff_ffff;
    let u64_max: int = 0xffff_ffff_ffff_ffff;
    match x {
        InfoView::Depth(v) => 0 <= v <= u32_max,
        InfoView::SelectiveDepth(v) => 0 <= v <= u32_max,
        InfoView::Time(v) => 0 <= v <= u64_max,
        InfoView::Nodes(v) => 0 <= v <= u64_max,
        InfoView::Pv(ms) => ms.len() > 0 && moves_ok(ms),
        InfoView::MultiPv(v) => 0 <= v <= u32_max,
        InfoView::Score(sc) => score_ok(sc),
        InfoView::CurrMove(m) => move_ok(m),
        InfoView::CurrMoveNumber(v) => 0 <= v <= u32_max,
        InfoView::Hashfull(v) => 0 <= v <= u16_max,
        InfoView::Nps(v) => 0 <= v <= u64_max,
        InfoView::TbHits(v) => 0 <= v <= u64_max,
        InfoView::SbHits(v) => 0 <= v <= u64_max,
        InfoView::CpuLoad(v) => 0 <= v <= u16_max,
        InfoView::String(t) => line_text_ok(t),
        InfoView::Refutation(ms) => ms.len() > 0 && moves_ok(ms),
        InfoView::CurrLine { cpu, moves } => {
            &&& moves.len() > 0
            &&& moves_ok(moves)
            &&& match cpu {
                Some(c) => 0 <= c <= u32_max,
                None => true,
            }
        },
    }
}

/// Whether what follows an item that ends at `end` is the given next item after a space,
/// or the end of the line when there is none.
pub open spec fn info_follows(s: Seq<char>, end: int, next: Option<InfoView>) -> bool {
    match next {
        None => end == s.len(),
        Some(y) => end < s.len() && s[end] == ' ' && tag_at(s, end + 1, info_text(y)),
    }
}

/// The number of an item that is a keyword and a number.
pub open spec fn item_number(x: InfoView) -> Option<int> {
    match x {
        InfoView::Depth(v) => Some(v),
        InfoView::SelectiveDepth(v) => Some(v),
        InfoView::Time(v) => Some(v),
        InfoView::Nodes(v) => Some(v),
        InfoView::MultiPv(v) => Some(v),
        InfoView::CurrMoveNumber(v) => Some(v),
        InfoView::Hashfull(v) => Some(v),
        InfoView::Nps(v) => Some(v),
        InfoView::TbHits(v) => Some(v),
        InfoView::SbHits(v) => Some(v),
        InfoView::CpuLoad(v) => Some(v),
        _ => None,
    }
}

/// Reading an item with a number where its text stands.
#[verifier::spinoff_prover]
proof fn lemma_number_item_at(s: Seq<char>, p: int, x: InfoView, v: int, max: int, next: Option<InfoView>)
    requires
        s.len() <= usize::MAX,
        0 <= v <= max,
        item_number(x) == Some(v),
        tag_at(s, p, info_text(x)),
        info_follows(s, p + info_text(x).len(), next),
    ensures
        super::req::keyword_number(s, p, info_keyword(x), false, 0, max) == Some((p + info_text(x).len(), v)),
{
    reveal_strlit("depth ");
    reveal_strlit("seldepth ");
    reveal_strlit("time ");
    reveal_strlit("nodes ");
    reveal_strlit("multipv ");
    reveal_strlit("currmovenumber ");
    reveal_strlit("hashfull ");
    reveal_strlit("nps ");
    reveal_strlit("tbhits ");
    reveal_strlit("sbhits ");
    reveal_strlit("cpuload ");
    lemma_reveal_info_words();
    let kw = info_keyword(x);
    assert(info_text(x) =~= kw + (seq![' '] + signed_decimal(v)));
    lemma_info_text_keyword(x);
    lemma_number_at(s, p, kw, v, false, 0, max);
}

/// The words that start the items of search information, known by their characters.
#[verifier::spinoff_prover]
proof fn lemma_reveal_info_words()
    ensures
        "depth"@ =~= seq!['d', 'e', 'p', 't', 'h'],
        "seldepth"@ =~= seq!['s', 'e', 'l', 'd', 'e', 'p', 't', 'h'],
        "time"@ =~= seq!['t', 'i', 'm', 'e'],
        "nodes"@ =~= seq!['n', 'o', 'd', 'e', 's'],
        "pv"@ =~= seq!['p', 'v'],
        "multipv"@ =~= seq!['m', 'u', 'l', 't', 'i', 'p', 'v'],
        "score"@ =~= seq!['s', 'c', 'o', 'r', 'e'],
        "currmove"@ =~= seq!['c', 'u', 'r', 'r', 'm', 'o', 'v', 'e'],
        "currmovenumber"@ =~= seq!['c', 'u', 'r', 'r', 'm', 'o', 'v', 'e', 'n', 'u', 'm', 'b', 'e', 'r'],
        "hashfull"@ =~= seq!['h', 'a', 's', 'h', 'f', 'u', 'l', 'l'],
        "nps"@ =~= seq!['n', 'p', 's'],
        "tbhits"@ =~= seq!['t', 'b', 'h', 'i', 't', 's'],
        "sbhits"@ =~= seq!['s', 'b', 'h', 'i', 't', 's'],
        "cpuload"@ =~= seq!['c', 'p', 'u', 'l', 'o', 'a', 'd'],
        "string"@ =~= seq!['s', 't', 'r', 'i', 'n', 'g'],
        "refutation"@ =~= seq!['r', 'e', 'f', 'u', 't', 'a', 't', 'i', 'o', 'n'],
        "currline"@ =~= seq!['c', 'u', 'r', 'r', 'l', 'i', 'n', 'e'],
{
    reveal_strlit("depth");
    reveal_strlit("seldepth");
    reveal_strlit("time");
    reveal_strlit("nodes");
    reveal_strlit("pv");
    reveal_strlit("multipv");
    reveal_strlit("score");
    reveal_strlit("currmove");
    reveal_strlit("currmovenumber");
    reveal_strlit("hashfull");
    reveal_strlit("nps");
    reveal_strlit("tbhits");
    reveal_strlit("sbhits");
    reveal_strlit("cpuload");
    reveal_strlit("string");
    reveal_strlit("refutation");
    reveal_strlit("currline");
}

/// What an item standing at `p` says of the characters there and after it.
#[verifier::spinoff_prover]
proof fn lemma_item_setup(s: Seq<char>, p: int, x: InfoView, next: Option<InfoView>)
    requires
        tag_at(s, p, info_text(x)),
        info_follows(s, p + info_text(x).len(), next),
    ensures
        tag_at(s, p, info_keyword(x)),
        p + info_keyword(x).len() <= s.len(),
        next matches Some(y) ==> {
            let end = p + info_text(x).len();
            &&& end + 1 < s.len()
            &&& s[end] == ' '
            &&& !is_blank(s[end + 1])
            &&& !is_digit(s[end + 1])
            &&& !(uci_move_at(s, end + 1) is Done)
            &&& score_part_at(s, end + 1) is None
        },
{
    let t = info_text(x);
    let kw = info_keyword(x);
    lemma_info_text_keyword(x);
    lemma_tag_split(s, p, kw, t.subrange(kw.len() as int, t.len() as int));
    match next {
        Some(y) => {
            lemma_info_next(s, p + t.len() + 1, y);
        },
        None => {},
    }
}

/// Reading an item of search information where its text stands, followed by the next item
/// or the end of the line.
#[verifier::spinoff_prover]
proof fn lemma_info_item_at(s: Seq<char>, p: int, x: InfoView, next: Option<InfoView>)

    requires
        s.len() <= usize::MAX,
        info_ok(x),
        x is String ==> next is None,
        tag_at(s, p, info_text(x)),
        info_follows(s, p + info_text(x).len(), next),
    ensures
        info_item_at(s, p) == Step::Done((p + info_text(x).len()) as usize, x),
{
    match x {
        InfoView::Depth(_) => lemma_item_first_numbers(s, p, x, next),
        InfoView::SelectiveDepth(_) => lemma_item_first_numbers(s, p, x, next),
        InfoView::Time(_) => lemma_item_first_numbers(s, p, x, next),
        InfoView::Nodes(_) => lemma_item_first_numbers(s, p, x, next),
        InfoView::Nps(_) => lemma_item_first_numbers(s, p, x, next),
        InfoView::MultiPv(_) => lemma_item_first_numbers(s, p, x, next),
        InfoView::CurrMoveNumber(_) => lemma_item_later_numbers(s, p, x, next),
        InfoView::Hashfull(_) => lemma_item_later_numbers(s, p, x, next),
        InfoView::TbHits(_) => lemma_item_later_numbers(s, p, x, next),
        InfoView::SbHits(_) => lemma_item_later_numbers(s, p, x, next),
        InfoView::CpuLoad(_) => lemma_item_later_numbers(s, p, x, next),
        InfoView::Pv(_) => lemma_item_pv(s, p, x, next),
        InfoView::Refutation(_) => lemma_item_refutation(s, p, x, next),
        InfoView::Score(_) => lemma_item_score(s, p, x, next),
        InfoView::CurrMove(_) => lemma_item_currmove(s, p, x, next),
        InfoView::String(_) => lemma_item_string(s, p, x, next),
        InfoView::CurrLine { .. } => lemma_item_currline(s, p, x, next),
    }
}

/// Reading an item with a number among the first kinds that are tried.
#[verifier::spinoff_prover]
#[verifier::rlimit(40)]
proof fn lemma_item_first_numbers(s: Seq<char>, p: int, x: InfoView, next: Option<InfoView>)
    requires
        s.len() <= usize::MAX,
        info_ok(x),
        x is String ==> next is None,
        tag_at(s, p, info_text(x)),
        info_follows(s, p + info_text(x).len(), next),
        x is Depth || x is SelectiveDepth || x is Time || x is Nodes || x is Nps || x is MultiPv,
    ensures
        info_item_at(s, p) == Step::Done((p + info_text(x).len()) as usize, x),
{
    lemma_item_setup(s, p, x, next);
    lemma_info_chars(s, p);
    lemma_reveal_info_words();
    let u32_max: int = 0xffff_ffff;
    let u64_max: int = 0xffff_ffff_ffff_ffff;
    match x {
        InfoView::Depth(v) => lemma_number_item_at(s, p, x, v, u32_max, next),
        InfoView::SelectiveDepth(v) => lemma_number_item_at(s, p, x, v, u32_max, next),
        InfoView::Time(v) => lemma_number_item_at(s, p, x, v, u64_max, next),
        InfoView::Nodes(v) => lemma_number_item_at(s, p, x, v, u64_max, next),
        InfoView::Nps(v) => lemma_number_item_at(s, p, x, v, u64_max, next),
        InfoView::MultiPv(v) => lemma_number_item_at(s, p, x, v, u32_max, next),
        _ => {},
    }
}

/// Reading an item with a number among the later kinds that are tried.
#[verifier::spinoff_prover]
#[verifier::rlimit(40)]
proof fn lemma_item_later_numbers(s: Seq<char>, p: int, x: InfoView, next: Option<InfoView>)
    requires
        s.len() <= usize::MAX,
        info_ok(x),
        x is String ==> next is None,
        tag_at(s, p, info_text(x)),
        info_follows(s, p + info_text(x).len(), next),
        x is CurrMoveNumber || x is Hashfull || x is TbHits || x is SbHits || x is CpuLoad,
    ensures
        info_item_at(s, p) == Step::Done((p + info_text(x).len()) as usize, x),
{
    lemma_item_setup(s, p, x, next);
    lemma_info_chars(s, p);
    lemma_reveal_info_words();
    let u16_max: int = 0xffff;
    let u32_max: int = 0xffff_ffff;
    let u64_max: int = 0xffff_ffff_ffff_ffff;
    match x {
        InfoView::CurrMoveNumber(v) => {
            lemma_number_item_at(s, p, x, v, u32_max, next);
            assert(skip_blanks(s, p + 8) == p + 8);
        },
        InfoView::Hashfull(v) => lemma_number_item_at(s, p, x, v, u16_max, next),
        InfoView::TbHits(v) => lemma_number_item_at(s, p, x, v, u64_max, next),
        InfoView::SbHits(v) => lemma_number_item_at(s, p, x, v, u64_max, next),
        InfoView::CpuLoad(v) => lemma_number_item_at(s, p, x, v, u16_max, next),
        _ => {},
    }
}

/// Reading the principal variation.
#[verifier::spinoff_prover]
proof fn lemma_item_pv(s: Seq<char>, p: int, x: InfoView, next: Option<InfoView>)
    requires
        s.len() <= usize::MAX,
        info_ok(x),
        tag_at(s, p, info_text(x)),
        info_follows(s, p + info_text(x).len(), next),
        x is Pv,
    ensures
        info_item_at(s, p) == Step::Done((p + info_text(x).len()) as usize, x),
{
    lemma_item_setup(s, p, x, next);
    reveal_strlit("pv");
    reveal_strlit("depth");
    reveal_strlit("seldepth");
    reveal_strlit("time");
    reveal_strlit("nodes");
    reveal_strlit("nps");
    let ms = x->Pv_0;
    let end = p + info_text(x).len();
    lemma_tag_char(s, p, "pv"@, 0);
    assert(!tag_at(s, p, "depth"@)) by {
        if tag_at(s, p, "depth"@) {
            lemma_tag_char(s, p, "depth"@, 0);
        }
    }
    assert(!tag_at(s, p, "seldepth"@)) by {
        if tag_at(s, p, "seldepth"@) {
            lemma_tag_char(s, p, "seldepth"@, 0);
        }
    }
    assert(!tag_at(s, p, "time"@)) by {
        if tag_at(s, p, "time"@) {
            lemma_tag_char(s, p, "time"@, 0);
        }
    }
    assert(!tag_at(s, p, "nodes"@)) by {
        if tag_at(s, p, "nodes"@) {
            lemma_tag_char(s, p, "nodes"@, 0);
        }
    }
    assert(!tag_at(s, p, "nps"@)) by {
        if tag_at(s, p, "nps"@) {
            lemma_tag_char(s, p, "nps"@, 0);
        }
    }
    lemma_tag_split(s, p, "pv"@, moves_spaced(ms));
    lemma_move_list(s, p + 2, ms);
    assert(keyword_moves(s, p, "pv"@) == Some((end, ms)));
}

/// Reading a refutation.
#[verifier::spinoff_prover]
#[verifier::rlimit(40)]
proof fn lemma_item_refutation(s: Seq<char>, p: int, x: InfoView, next: Option<InfoView>)
    requires
        s.len() <= usize::MAX,
        info_ok(x),
        x is String ==> next is None,
        tag_at(s, p, info_text(x)),
        info_follows(s, p + info_text(x).len(), next),
        x is Refutation,
    ensures
        info_item_at(s, p) == Step::Done((p + info_text(x).len()) as usize, x),
{
    lemma_item_setup(s, p, x, next);
    lemma_info_chars(s, p);
    lemma_reveal_info_words();
    match x {
        InfoView::Refutation(ms) => {
            lemma_tag_split(s, p, "refutation"@, moves_spaced(ms));
            lemma_move_list(s, p + 10, ms);
        },
        _ => {},
    }
}

/// Reading a score item.
#[verifier::spinoff_prover]
#[verifier::rlimit(40)]
proof fn lemma_item_score(s: Seq<char>, p: int, x: InfoView, next: Option<InfoView>)
    requires
        s.len() <= usize::MAX,
        info_ok(x),
        x is String ==> next is None,
        tag_at(s, p, info_text(x)),
        info_follows(s, p + info_text(x).len(), next),
        x is Score,
    ensures
        info_item_at(s, p) == Step::Done((p + info_text(x).len()) as usize, x),
{
    lemma_item_setup(s, p, x, next);
    lemma_info_chars(s, p);
    lemma_reveal_info_words();
    match x {
        InfoView::Score(sc) => lemma_read_score(s, p, sc),
        _ => {},
    }
}

/// Reading the move being searched.
#[verifier::spinoff_prover]
#[verifier::rlimit(40)]
proof fn lemma_item_currmove(s: Seq<char>, p: int, x: InfoView, next: Option<InfoView>)
    requires
        s.len() <= usize::MAX,
        info_ok(x),
        x is String ==> next is None,
        tag_at(s, p, info_text(x)),
        info_follows(s, p + info_text(x).len(), next),
        x is CurrMove,
    ensures
        info_item_at(s, p) == Step::Done((p + info_text(x).len()) as usize, x),
{
    lemma_item_setup(s, p, x, next);
    lemma_info_chars(s, p);
    lemma_reveal_info_words();
    reveal_strlit("currmove ");
    let t = info_text(x);
    match x {
        InfoView::CurrMove(m) => {
            lemma_move_text(m);
            assert(t =~= "currmove "@ + move_text(m));
            lemma_tag_split(s, p, "currmove "@, move_text(m));
            lemma_tag_char(s, p + 9, move_text(m), 0);
            lemma_tag_char(s, p, t, 8);
            assert(skip_blanks(s, p + 9) == p + 9);
            lemma_move_at(s, p + 9, m);
        },
        _ => {},
    }
}

/// Reading a string item.
#[verifier::spinoff_prover]
#[verifier::rlimit(40)]
proof fn lemma_item_string(s: Seq<char>, p: int, x: InfoView, next: Option<InfoView>)
    requires
        s.len() <= usize::MAX,
        info_ok(x),
        x is String ==> next is None,
        tag_at(s, p, info_text(x)),
        info_follows(s, p + info_text(x).len(), next),
        x is String,
    ensures
        info_item_at(s, p) == Step::Done((p + info_text(x).len()) as usize, x),
{
    lemma_item_setup(s, p, x, next);
    lemma_info_chars(s, p);
    lemma_reveal_info_words();
    reveal_strlit("string ");
    let t = info_text(x);
    match x {
        InfoView::String(x2) => {
            assert(t =~= "string "@ + x2);
            lemma_tag_char(s, p, t, 6);
            assert(s.subrange(p + 7, s.len() as int) =~= x2) by {
                assert forall|j: int| 0 <= j < x2.len() implies s.subrange(p + 7, s.len() as int)[j] == x2[j] by {
                    lemma_tag_char(s, p, t, 7 + j);
                }
            }
            lemma_rest_text(s, p + 7, x2);
        },
        _ => {},
    }
}

/// Reading the line being searched.
#[verifier::spinoff_prover]
#[verifier::rlimit(40)]
proof fn lemma_item_currline(s: Seq<char>, p: int, x: InfoView, next: Option<InfoView>)
    requires
        s.len() <= usize::MAX,
        info_ok(x),
        x is String ==> next is None,
        tag_at(s, p, info_text(x)),
        info_follows(s, p + info_text(x).len(), next),
        x is CurrLine,
    ensures
        info_item_at(s, p) == Step::Done((p + info_text(x).len()) as usize, x),
{
    lemma_item_setup(s, p, x, next);
    lemma_info_chars(s, p);
    lemma_reveal_info_words();
    match x {
        InfoView::CurrLine { cpu, moves } => lemma_currline_at(s, p, cpu, moves, next),
        _ => {},
    }
}

/// Reading `currline`, an optional CPU number and a list of moves where their text stands.
#[verifier::spinoff_prover]
proof fn lemma_currline_at(
    s: Seq<char>,
    p: int,
    cpu: Option<int>,
    moves: Seq<(int, int, Option<super::super::chess_core::mov::Promotion>)>,
    next: Option<InfoView>,
)
    requires
        s.len() <= usize::MAX,
        info_ok(InfoView::CurrLine { cpu, moves }),
        tag_at(s, p, info_text(InfoView::CurrLine { cpu, moves })),
        info_follows(s, p + info_text(InfoView::CurrLine { cpu, moves }).len(), next),
    ensures
        currline_at(s, p) == Step::Done(
            (p + info_text(InfoView::CurrLine { cpu, moves }).len()) as usize,
            InfoView::CurrLine { cpu, moves },
        ),
{
    reveal_strlit("currline");
    reveal_strlit(" ");
    let x = InfoView::CurrLine { cpu, moves };
    let t = info_text(x);
    let end = p + t.len();
    let ct = opt_text(" "@, cpu);
    let mt = moves_spaced(moves);
    match next {
        Some(y) => {
            lemma_info_next(s, end + 1, y);
        },
        None => {},
    }
    assert(t == "currline"@ + ct + mt);
    lemma_tag_split(s, p, "currline"@ + ct, mt);
    lemma_tag_split(s, p, "currline"@, ct);
    lemma_moves_spaced_first(moves);
    let q = p + 8 + ct.len();
    lemma_tag_char(s, q, mt, 0);
    lemma_tag_char(s, q, mt, 1);
    lemma_move_list(s, q, moves);
    match cpu {
        Some(c) => {
            lemma_decimal(c as nat);
            assert(ct =~= seq![' '] + signed_decimal(c));
            lemma_tag_rest(s, p + 8, ct);
            assert(ct.drop_first() =~= signed_decimal(c));
            lemma_tag_char(s, p + 9, signed_decimal(c), 0);
            assert(skip_blanks(s, p + 9) == p + 9);
            lemma_unsigned_at(s, p + 9, c as nat, 0xffff_ffff);
        },
        None => {
            assert(ct.len() == 0);
            assert(super::parse::digits_end(s, p + 9) == p + 9);
        },
    }
}

/// The text of a list of moves starts with a space and a file letter.
#[verifier::spinoff_prover]
proof fn lemma_moves_spaced_first(ms: Seq<(int, int, Option<super::super::chess_core::mov::Promotion>)>)
    requires
        ms.len() > 0,
        moves_ok(ms),
    ensures
        moves_spaced(ms).len() >= 2,
        moves_spaced(ms)[0] == ' ',
        super::moves::is_file(moves_spaced(ms)[1]),
        !is_digit(moves_spaced(ms)[1]),
{
    super::req_laws::lemma_moves_spaced_front(ms);
    assert(move_ok(ms[0]));
    lemma_move_text(ms[0]);
}

/// The texts of information items, each after a space, start with the first of them.
#[verifier::spinoff_prover]
proof fn lemma_infos_spaced_front(xs: Seq<InfoView>)
    requires
        xs.len() > 0,
    ensures
        infos_spaced(xs) == " "@ + info_text(xs[0]) + infos_spaced(xs.drop_first()),
    decreases xs.len(),
{
    if xs.len() > 1 {
        lemma_infos_spaced_front(xs.drop_last());
        assert(xs.drop_last().drop_first() =~= xs.drop_first().drop_last());
        assert(xs.drop_first().last() == xs.last());
        assert(xs.drop_last()[0] == xs[0]);
    } else {
        assert(xs.drop_last() =~= Seq::<InfoView>::empty());
        assert(xs.drop_first() =~= Seq::<InfoView>::empty());
    }
}

/// Whether a list of information items reads back from its text: every item does, and only
/// the last may be a string, which takes the rest of the line.
pub open spec fn infos_ok(xs: Seq<InfoView>) -> bool {
    &&& forall|i: int| 0 <= i < xs.len() ==> info_ok(#[trigger] xs[i])
    &&& forall|i: int| 0 <= i < xs.len() - 1 ==> !(#[trigger] xs[i] is String)
}

/// The first of a list of information items after a space: the space is skipped and the
/// item read, and the texts of the others follow it.
#[verifier::spinoff_prover]
proof fn lemma_first_info(s: Seq<char>, e: int, xs: Seq<InfoView>)
    requires
        s.len() <= usize::MAX,
        xs.len() > 0,
        infos_ok(xs),
        tag_at(s, e, infos_spaced(xs)),
        e + infos_spaced(xs).len() == s.len(),
    ensures
        skip_blanks(s, e) == e + 1,
        e + 1 < s.len(),
        info_item_at(s, e + 1) == Step::Done((e + 1 + info_text(xs[0]).len()) as usize, xs[0]),
        tag_at(s, e + 1 + info_text(xs[0]).len(), infos_spaced(xs.drop_first())),
        e + 1 + info_text(xs[0]).len() + infos_spaced(xs.drop_first()).len() == s.len(),
        infos_ok(xs.drop_first()),
{
    reveal_strlit(" ");
    let x = xs[0];
    let rest = xs.drop_first();
    lemma_infos_spaced_front(xs);
    lemma_tag_split(s, e, " "@ + info_text(x), infos_spaced(rest));
    lemma_tag_split(s, e, " "@, info_text(x));
    lemma_tag_char(s, e, " "@, 0);
    lemma_info_next(s, e + 1, x);
    let g = e + 1 + info_text(x).len();
    let next: Option<InfoView> = if rest.len() > 0 { Some(rest[0]) } else { None };
    if rest.len() > 0 {
        lemma_infos_spaced_front(rest);
        lemma_tag_split(s, g, " "@ + info_text(rest[0]), infos_spaced(rest.drop_first()));
        lemma_tag_split(s, g, " "@, info_text(rest[0]));
        lemma_tag_char(s, g, " "@, 0);
        assert(!(xs[0] is String));
    }
    assert(info_ok(x));
    assert(skip_blanks(s, e + 1) == e + 1);
    lemma_info_item_at(s, e + 1, x, next);
    assert forall|i: int| 0 <= i < rest.len() implies info_ok(#[trigger] rest[i]) by {
        assert(rest[i] == xs[i + 1]);
    }
    assert forall|i: int| 0 <= i < rest.len() - 1 implies !(#[trigger] rest[i] is String) by {
        assert(rest[i] == xs[i + 1]);
    }
}

/// Reading more information items where their texts stand, up to the end of the line.
#[verifier::spinoff_prover]
proof fn lemma_read_infos(s: Seq<char>, e: int, xs: Seq<InfoView>, acc: Seq<InfoView>)
    requires
        s.len() <= usize::MAX,
        infos_ok(xs),
        tag_at(s, e, infos_spaced(xs)),
        e + infos_spaced(xs).len() == s.len(),
    ensures
        more_infos(s, e, acc) == (s.len() as int, acc + xs),
    decreases xs.len(),
{
    if xs.len() == 0 {
        assert(acc + xs =~= acc);
    } else {
        let x = xs[0];
        lemma_first_info(s, e, xs);
        lemma_read_infos(s, e + 1 + info_text(x).len(), xs.drop_first(), acc.push(x));
        assert(acc.push(x) + xs.drop_first() =~= acc + xs);
    }
}

/// Reading `info` and a non-empty list of items that reads back, up to the end of the line.
#[verifier::spinoff_prover]
proof fn lemma_read_info(s: Seq<char>, xs: Seq<InfoView>)
    requires
        s.len() <= usize::MAX,
        xs.len() > 0,
        infos_ok(xs),
        tag_at(s, 0, "info"@),
        tag_at(s, 4, infos_spaced(xs)),
        4 + infos_spaced(xs).len() == s.len(),
    ensures
        info_at(s, 0) == Step::Done(s.len() as usize, ResponseView::Info(xs)),
{
    reveal_strlit("info");
    let x = xs[0];
    lemma_first_info(s, 4, xs);
    lemma_read_infos(s, 5 + info_text(x).len() as int, xs.drop_first(), seq![x]);
    assert(seq![x] + xs.drop_first() =~= xs);
}
/// Whether a response reads back from its text: a name or an author reads back as the rest
/// of a line, moves are on the board, search information is not empty and reads back, and an
/// option has a one-word name and a type that reads back.
pub open spec fn response_reads_back(r: ResponseView) -> bool {
    match r {
        ResponseView::Id(IdView::Name(t)) => line_text_ok(t),
        ResponseView::Id(IdView::Author(t)) => line_text_ok(t),
        ResponseView::BestMove { m, ponder } => move_ok(m) && match ponder {
            Some(p) => move_ok(p),
            None => true,
        },
        ResponseView::Info(xs) => xs.len() > 0 && infos_ok(xs),
        ResponseView::Option { name, kind } => word_ok(name) && kind_ok(kind),
        _ => true,
    }
}

/// What a response word standing at the start of a line says of its first characters.
#[verifier::spinoff_prover]
proof fn lemma_response_chars(s: Seq<char>)
    ensures
        tag_at(s, 0, "uciok"@) ==> s[0] == 'u',
        tag_at(s, 0, "readyok"@) ==> s[0] == 'r',
        tag_at(s, 0, "id"@) ==> s[0] == 'i' && s[1] == 'd',
        tag_at(s, 0, "bestmove"@) ==> s[0] == 'b',
        tag_at(s, 0, "info"@) ==> s[0] == 'i' && s[1] == 'n',
        tag_at(s, 0, "option"@) ==> s[0] == 'o',
{
    reveal_strlit("uciok");
    reveal_strlit("readyok");
    reveal_strlit("id");
    reveal_strlit("bestmove");
    reveal_strlit("info");
    reveal_strlit("option");
    if tag_at(s, 0, "uciok"@) {
        lemma_tag_char(s, 0, "uciok"@, 0);
    }
    if tag_at(s, 0, "readyok"@) {
        lemma_tag_char(s, 0, "readyok"@, 0);
    }
    if tag_at(s, 0, "id"@) {
        lemma_tag_char(s, 0, "id"@, 0);
        lemma_tag_char(s, 0, "id"@, 1);
    }
    if tag_at(s, 0, "bestmove"@) {
        lemma_tag_char(s, 0, "bestmove"@, 0);
    }
    if tag_at(s, 0, "info"@) {
        lemma_tag_char(s, 0, "info"@, 0);
        lemma_tag_char(s, 0, "info"@, 1);
    }
    if tag_at(s, 0, "option"@) {
        lemma_tag_char(s, 0, "option"@, 0);
    }
}

/// Reading `id` and what follows it as a whole line.
#[verifier::spinoff_prover]
proof fn lemma_response_id(s: Seq<char>, x: IdView)
    requires
        s.len() <= usize::MAX,
        response_reads_back(ResponseView::Id(x)),
        s == response_text(ResponseView::Id(x)),
    ensures
        response_line(s) == Step::Done(s.len() as usize, ResponseView::Id(x)),
{
    reveal_strlit("id ");
    lemma_response_chars(s);
    assert(s[0] == 'i' && s[1] == 'd');
    assert(skip_blanks(s, 0) == 0);
    lemma_read_id(s, x);
    assert(skip_blanks(s, s.len() as int) == s.len());
}

/// Reading `bestmove` and what follows it as a whole line.
#[verifier::spinoff_prover]
proof fn lemma_response_bestmove(
    s: Seq<char>,
    m: (int, int, Option<super::super::chess_core::mov::Promotion>),
    ponder: Option<(int, int, Option<super::super::chess_core::mov::Promotion>)>,
)
    requires
        s.len() <= usize::MAX,
        response_reads_back(ResponseView::BestMove { m, ponder }),
        s == response_text(ResponseView::BestMove { m, ponder }),
    ensures
        response_line(s) == Step::Done(s.len() as usize, ResponseView::BestMove { m, ponder }),
{
    reveal_strlit("bestmove ");
    lemma_response_chars(s);
    assert(s[0] == 'b');
    assert(skip_blanks(s, 0) == 0);
    lemma_read_bestmove(s, m, ponder);
    assert(skip_blanks(s, s.len() as int) == s.len());
}

/// Reading `info` and its items as a whole line.
#[verifier::spinoff_prover]
proof fn lemma_response_info(s: Seq<char>, xs: Seq<InfoView>)
    requires
        s.len() <= usize::MAX,
        response_reads_back(ResponseView::Info(xs)),
        s == response_text(ResponseView::Info(xs)),
    ensures
        response_line(s) == Step::Done(s.len() as usize, ResponseView::Info(xs)),
{
    reveal_strlit("info");
    lemma_response_chars(s);
    let t = infos_spaced(xs);
    assert(tag_at(s, 0, "info"@)) by {
        assert(s.subrange(0, 4) =~= "info"@);
    }
    assert(tag_at(s, 4, t)) by {
        assert(s.subrange(4, 4 + t.len() as int) =~= t);
    }
    assert(s[0] == 'i' && s[1] == 'n');
    assert(skip_blanks(s, 0) == 0);
    lemma_read_info(s, xs);
    assert(skip_blanks(s, s.len() as int) == s.len());
}

/// Reading `option` and what follows it as a whole line.
#[verifier::spinoff_prover]
proof fn lemma_response_option(s: Seq<char>, name: Seq<char>, kind: KindView)
    requires
        s.len() <= usize::MAX,
        response_reads_back(ResponseView::Option { name, kind }),
        s == response_text(ResponseView::Option { name, kind }),
    ensures
        response_line(s) == Step::Done(s.len() as usize, ResponseView::Option { name, kind }),
{
    reveal_strlit("option name ");
    lemma_response_chars(s);
    assert(tag_at(s, 0, "option name "@)) by {
        assert(s.subrange(0, 12) =~= "option name "@);
    }
    assert(tag_at(s, 12, name)) by {
        assert(s.subrange(12, 12 + name.len() as int) =~= name);
    }
    assert(ends_with_at(s, 12 + name.len() as int, kind_text(kind))) by {
        assert(s.subrange(12 + name.len() as int, s.len() as int) =~= kind_text(kind));
    }
    assert(s[0] == 'o');
    assert(skip_blanks(s, 0) == 0);
    lemma_read_option(s, name, kind);
    assert(skip_blanks(s, s.len() as int) == s.len());
}

/// The text of a response reads back as the same response, the whole line being read.
///
/// Left out are the responses whose text does not read back: a name, an author or a string
/// of search information that starts with a space or holds a line break, a string item that
/// is not the last, empty lists of moves or of information items, a score with nothing
/// given, an option name that is not one word, and combo values that are not words.
#[verifier::spinoff_prover]
pub proof fn lemma_response_roundtrip(r: ResponseView)
    requires
        response_reads_back(r),
        response_text(r).len() <= usize::MAX,
    ensures
        response_line(response_text(r)) == Step::Done(response_text(r).len() as usize, r),
{
    let s = response_text(r);
    match r {
        ResponseView::UciOk => {
            reveal_strlit("uciok");
            assert(tag_at(s, 0, "uciok"@)) by {
                assert(s.subrange(0, 5) =~= "uciok"@);
            }
            assert(skip_blanks(s, 0) == 0);
            assert(skip_blanks(s, 5) == 5);
        },
        ResponseView::ReadyOk => {
            reveal_strlit("readyok");
            reveal_strlit("uciok");
            assert(tag_at(s, 0, "readyok"@)) by {
                assert(s.subrange(0, 7) =~= "readyok"@);
            }
            lemma_response_chars(s);
            assert(skip_blanks(s, 0) == 0);
            assert(skip_blanks(s, 7) == 7);
        },
        ResponseView::Id(x) => lemma_response_id(s, x),
        ResponseView::BestMove { m, ponder } => lemma_response_bestmove(s, m, ponder),
        ResponseView::Info(xs) => lemma_response_info(s, xs),
        ResponseView::Option { name, kind } => lemma_response_option(s, name, kind),
    }
}
} // verus!
