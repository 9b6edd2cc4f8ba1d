//! What reading a request line gives back of the text a request writes.
use vstd::prelude::*;
use super::moves::{move_text, moves_spaced, uci_move_at, is_file, is_rank};
use super::parse::{
    Step, alnum_end, digits_end, is_alnum, is_blank, lemma_alnum_end_bounds, lemma_skip_blanks_bounds, line_break_at,
    rest_of_line, signed_at, skip_blanks, tag_at, unsigned_at,
};
use super::req::{
    GoRequestView, GoSetting, OptionValueView, apply_setting, go_head_text, go_numbers_text, go_setting_at, go_text,
    RequestView, debug_at, go_at, keyword_number, more_moves, more_settings, name_end, no_settings, opt_text,
    option_at, position_at, position_start_at, request_line, request_text,
};
use crate::chess_core::mov::{Promotion, promotion_letter};
use crate::common::extra_state::ExtraState;
use crate::common::piece::SquareContent;
use crate::common::square::square_name;
use crate::text::{all_digits, decimal, digit_char, digit_value, digits_value, is_digit, signed_decimal};

verus! {

/// The characters of a text that stands at `i` are those of the line there.
#[verifier::spinoff_prover]
pub(crate) proof fn lemma_tag_char(s: Seq<char>, i: int, t: Seq<char>, j: int)
    requires
        tag_at(s, i, t),
        0 <= j < t.len(),
    ensures
        s[i + j] == t[j],
{
    assert(s.subrange(i, i + t.len())[j] == s[i + j]);
}

/// A text made of two parts stands at `i` when both parts stand one after the other.
#[verifier::spinoff_prover]
pub(crate) proof fn lemma_tag_split(s: Seq<char>, i: int, a: Seq<char>, b: Seq<char>)
    requires
        tag_at(s, i, a + b),
    ensures
        tag_at(s, i, a),
        tag_at(s, i + a.len(), b),
{
    assert(s.subrange(i, i + a.len()) =~= a) by {
        assert forall|j: int| 0 <= j < a.len() implies s.subrange(i, i + a.len())[j] == a[j] by {
            lemma_tag_char(s, i, a + b, j);
        }
    }
    assert(s.subrange(i + a.len(), i + a.len() + b.len()) =~= b) by {
        assert forall|j: int| 0 <= j < b.len() implies s.subrange(i + a.len(), i + a.len() + b.len())[j]
            == b[j] by {
            lemma_tag_char(s, i, a + b, a.len() + j);
        }
    }
}

/// The decimal notation of a number is a non-empty run of digits that stands for it.
#[verifier::spinoff_prover]
pub(crate) proof fn lemma_decimal(n: nat)
    ensures
        decimal(n).len() >= 1,
        all_digits(decimal(n)),
        digits_value(decimal(n)) == n,
    decreases n,
{
    if n < 10 {
        assert(digits_value(decimal(n)) == digits_value(Seq::<char>::empty()) * 10 + digit_value(
            digit_char(n as int),
        )) by {
            assert(decimal(n).drop_last() =~= Seq::<char>::empty());
        }
    } else {
        lemma_decimal(n / 10);
        let d = decimal(n / 10);
        assert(decimal(n).drop_last() =~= d);
    }
}

/// A run of digits at `i` that is followed by no digit ends where the run ends.
#[verifier::spinoff_prover]
pub(crate) proof fn lemma_digits_end(s: Seq<char>, i: int, d: Seq<char>)
    requires
        tag_at(s, i, d),
        all_digits(d),
        i + d.len() == s.len() || !is_digit(s[i + d.len()]),
    ensures
        digits_end(s, i) == i + d.len(),
        s.subrange(i, i + d.len()) == d,
    decreases d.len(),
{
    if d.len() > 0 {
        lemma_tag_char(s, i, d, 0);
        let rest = d.subrange(1, d.len() as int);
        assert(d =~= seq![d[0]] + rest);
        lemma_tag_split(s, i, seq![d[0]], rest);
        lemma_digits_end(s, i + 1, rest);
    }
}

/// Reading an unsigned number where its decimal notation stands, followed by no digit.
#[verifier::spinoff_prover]
pub(crate) proof fn lemma_unsigned_at(s: Seq<char>, i: int, n: nat, max: int)
    requires
        s.len() <= usize::MAX,
        tag_at(s, i, decimal(n)),
        i + decimal(n).len() == s.len() || !is_digit(s[i + decimal(n).len()]),
        n <= max,
    ensures
        unsigned_at(s, i, max) == Step::Done((i + decimal(n).len()) as usize, n as int),
{
    lemma_decimal(n);
    lemma_digits_end(s, i, decimal(n));
}

/// Reading a signed number where its notation stands, followed by no digit.
#[verifier::spinoff_prover]
pub(crate) proof fn lemma_signed_at(s: Seq<char>, i: int, v: int, min: int, max: int)
    requires
        s.len() <= usize::MAX,
        tag_at(s, i, signed_decimal(v)),
        i + signed_decimal(v).len() == s.len() || !is_digit(s[i + signed_decimal(v).len()]),
        min <= v <= max,
    ensures
        signed_at(s, i, min, max) == Step::Done((i + signed_decimal(v).len()) as usize, v),
{
    if v < 0 {
        let d = decimal((-v) as nat);
        lemma_decimal((-v) as nat);
        lemma_tag_split(s, i, seq!['-'], d);
        lemma_tag_char(s, i, seq!['-'], 0);
        lemma_digits_end(s, i + 1, d);
    } else {
        let d = decimal(v as nat);
        lemma_decimal(v as nat);
        lemma_digits_end(s, i, d);
        lemma_tag_char(s, i, d, 0);
        assert(is_digit(d[0]));
    }
}

/// Whether both squares of a move lie on the board.
pub open spec fn move_ok(m: (int, int, Option<Promotion>)) -> bool {
    0 <= m.0 < 64 && 0 <= m.1 < 64
}

/// Whether every move of a list is on the board.
pub open spec fn moves_ok(ms: Seq<(int, int, Option<Promotion>)>) -> bool {
    forall|i: int| 0 <= i < ms.len() ==> move_ok(#[trigger] ms[i])
}

/// The text of moves, each after a space, starts with the first of them.
#[verifier::spinoff_prover]
pub(crate) proof fn lemma_moves_spaced_front(ms: Seq<(int, int, Option<Promotion>)>)
    requires
        ms.len() > 0,
    ensures
        moves_spaced(ms) == seq![' '] + move_text(ms[0]) + moves_spaced(ms.drop_first()),
    decreases ms.len(),
{
    if ms.len() > 1 {
        lemma_moves_spaced_front(ms.drop_last());
        assert(ms.drop_last().drop_first() =~= ms.drop_first().drop_last());
        assert(ms.drop_first().last() == ms.last());
        assert(ms.drop_last()[0] == ms[0]);
    } else {
        assert(ms.drop_last() =~= Seq::<(int, int, Option<Promotion>)>::empty());
        assert(ms.drop_first() =~= Seq::<(int, int, Option<Promotion>)>::empty());
    }
}

/// The text of a move on the board: four or five characters, starting with a file letter
/// and a rank digit.
#[verifier::spinoff_prover]
pub(crate) proof fn lemma_move_text(m: (int, int, Option<Promotion>))
    requires
        move_ok(m),
    ensures
        4 <= move_text(m).len() <= 5,
        is_file(move_text(m)[0]),
        is_rank(move_text(m)[1]),
        !is_blank(move_text(m)[0]),
{
    assert(move_text(m)[0] == square_name(m.0)[0]);
    assert(move_text(m)[1] == square_name(m.0)[1]);
}

/// Reading a move where its text stands, followed by a space or the end of the line.
#[verifier::spinoff_prover]
pub(crate) proof fn lemma_move_at(s: Seq<char>, i: int, m: (int, int, Option<Promotion>))
    requires
        s.len() <= usize::MAX,
        move_ok(m),
        tag_at(s, i, move_text(m)),
        i + move_text(m).len() == s.len() || s[i + move_text(m).len()] == ' ',
    ensures
        uci_move_at(s, i) == Step::Done((i + move_text(m).len()) as usize, m),
{
    let t = move_text(m);
    lemma_move_text(m);
    lemma_tag_char(s, i, t, 0);
    lemma_tag_char(s, i, t, 1);
    lemma_tag_char(s, i, t, 2);
    lemma_tag_char(s, i, t, 3);
    assert(t[0] == ('a' as int + m.0 % 8) as char);
    assert(t[1] == ('1' as int + m.0 / 8) as char);
    assert(t[2] == ('a' as int + m.1 % 8) as char);
    assert(t[3] == ('1' as int + m.1 / 8) as char);
    match m.2 {
        Some(p) => {
            lemma_tag_char(s, i, t, 4);
            assert(t[4] == promotion_letter(p));
        },
        None => {
            assert(t.len() == 4);
        },
    }
}

/// Whether a list of moves ends at `e`: the line ends there, or a space follows that no
/// other space or move follows.
pub open spec fn moves_stop(s: Seq<char>, e: int) -> bool {
    ||| e == s.len()
    ||| s[e] == ' ' && e + 1 < s.len() && !is_blank(s[e + 1]) && !(uci_move_at(s, e + 1) is Done)
}

/// Reading more moves where the texts of moves stand, each after a space, up to where the
/// list ends.
#[verifier::spinoff_prover]
pub(crate) proof fn lemma_read_moves(
    s: Seq<char>,
    e: int,
    ms: Seq<(int, int, Option<Promotion>)>,
    acc: Seq<(int, int, Option<Promotion>)>,
)
    requires
        s.len() <= usize::MAX,
        moves_ok(ms),
        tag_at(s, e, moves_spaced(ms)),
        moves_stop(s, e + moves_spaced(ms).len()),
    ensures
        more_moves(s, e, acc) == (e + moves_spaced(ms).len(), acc + ms),
    decreases ms.len(),
{
    if ms.len() == 0 {
        assert(acc + ms =~= acc);
        let e1 = e + 1;
        if e < s.len() {
            assert(skip_blanks(s, e1) == e1);
            assert(skip_blanks(s, e) == e1);
        }
    } else {
        let m = ms[0];
        let rest = ms.drop_first();
        lemma_moves_spaced_front(ms);
        assert(move_ok(m));
        assert(moves_ok(rest));
        lemma_tag_split(s, e, seq![' '] + move_text(m), moves_spaced(rest));
        lemma_tag_split(s, e, seq![' '], move_text(m));
        lemma_tag_char(s, e, seq![' '], 0);
        lemma_move_text(m);
        lemma_tag_char(s, e + 1, move_text(m), 0);
        let g = e + 1 + move_text(m).len();
        assert(skip_blanks(s, e + 1) == e + 1);
        assert(skip_blanks(s, e) == e + 1);
        if rest.len() > 0 {
            lemma_moves_spaced_front(rest);
            lemma_tag_split(s, g, seq![' '] + move_text(rest[0]), moves_spaced(rest.drop_first()));
            lemma_tag_split(s, g, seq![' '], move_text(rest[0]));
            lemma_tag_char(s, g, seq![' '], 0);
        } else {
            assert(g == e + moves_spaced(ms).len());
        }
        lemma_move_at(s, e + 1, m);
        lemma_read_moves(s, g, rest, acc.push(m));
        assert(acc.push(m) + rest =~= acc + ms);
    }
}

/// The settings of a `go` request in the order in which its text lists them.
pub open spec fn go_settings(g: GoRequestView) -> Seq<GoSetting> {
    (match g.searchmoves {
        Some(ms) => seq![GoSetting::SearchMoves(ms)],
        None => Seq::empty(),
    }) + (if g.ponder {
        seq![GoSetting::Ponder]
    } else {
        Seq::empty()
    }) + go_number_settings(g) + (if g.infinite {
        seq![GoSetting::Infinite]
    } else {
        Seq::empty()
    })
}

/// The setting with a number of the given kind, in the order of the text of a request:
/// `wtime`, `btime`, `winc`, `binc`, `movestogo`, `depth`, `nodes`, `mate`, `movetime`.
pub open spec fn number_setting(k: int, x: int) -> GoSetting {
    if k == 0 {
        GoSetting::WTime(x)
    } else if k == 1 {
        GoSetting::BTime(x)
    } else if k == 2 {
        GoSetting::WInc(x)
    } else if k == 3 {
        GoSetting::BInc(x)
    } else if k == 4 {
        GoSetting::MovesToGo(x)
    } else if k == 5 {
        GoSetting::Depth(x)
    } else if k == 6 {
        GoSetting::Nodes(x)
    } else if k == 7 {
        GoSetting::Mate(x)
    } else {
        GoSetting::Movetime(x)
    }
}

/// The keyword of a setting with a number of the given kind, between spaces.
pub open spec fn number_keyword(k: int) -> Seq<char> {
    if k == 0 {
        " wtime "@
    } else if k == 1 {
        " btime "@
    } else if k == 2 {
        " winc "@
    } else if k == 3 {
        " binc "@
    } else if k == 4 {
        " movestogo "@
    } else if k == 5 {
        " depth "@
    } else if k == 6 {
        " nodes "@
    } else if k == 7 {
        " mate "@
    } else {
        " movetime "@
    }
}

/// The number of a `go` request of the given kind.
pub open spec fn number_field(g: GoRequestView, k: int) -> Option<int> {
    if k == 0 {
        g.wtime
    } else if k == 1 {
        g.btime
    } else if k == 2 {
        g.winc
    } else if k == 3 {
        g.binc
    } else if k == 4 {
        g.moves_to_go
    } else if k == 5 {
        g.depth
    } else if k == 6 {
        g.nodes
    } else if k == 7 {
        g.mate
    } else {
        g.movetime
    }
}

/// One setting with a number of the given kind, when there is a number.
pub open spec fn opt_setting(v: Option<int>, k: int) -> Seq<GoSetting> {
    match v {
        Some(x) => seq![number_setting(k, x)],
        None => Seq::empty(),
    }
}

/// The settings with a number of a `go` request of the kinds below `k`, in the order of
/// its text.
pub open spec fn number_settings_upto(g: GoRequestView, k: int) -> Seq<GoSetting>
    decreases k,
{
    if k <= 0 {
        Seq::empty()
    } else if k == 1 {
        opt_setting(number_field(g, 0), 0)
    } else {
        number_settings_upto(g, k - 1) + opt_setting(number_field(g, k - 1), k - 1)
    }
}

/// The settings with a number of a `go` request, in the order of its text.
pub open spec fn go_number_settings(g: GoRequestView) -> Seq<GoSetting> {
    number_settings_upto(g, 9)
}

/// The keyword of a setting.
pub open spec fn setting_keyword(o: GoSetting) -> Seq<char> {
    match o {
        GoSetting::SearchMoves(_) => "searchmoves"@,
        GoSetting::Ponder => "ponder"@,
        GoSetting::WTime(_) => "wtime"@,
        GoSetting::BTime(_) => "btime"@,
        GoSetting::WInc(_) => "winc"@,
        GoSetting::BInc(_) => "binc"@,
        GoSetting::MovesToGo(_) => "movestogo"@,
        GoSetting::Depth(_) => "depth"@,
        GoSetting::Nodes(_) => "nodes"@,
        GoSetting::Mate(_) => "mate"@,
        GoSetting::Movetime(_) => "movetime"@,
        GoSetting::Infinite => "infinite"@,
    }
}

/// The text of a setting after its keyword.
pub open spec fn setting_tail(o: GoSetting) -> Seq<char> {
    match o {
        GoSetting::SearchMoves(ms) => moves_spaced(ms),
        GoSetting::WTime(v) => seq![' '] + signed_decimal(v),
        GoSetting::BTime(v) => seq![' '] + signed_decimal(v),
        GoSetting::WInc(v) => seq![' '] + signed_decimal(v),
        GoSetting::BInc(v) => seq![' '] + signed_decimal(v),
        GoSetting::MovesToGo(v) => seq![' '] + signed_decimal(v),
        GoSetting::Depth(v) => seq![' '] + signed_decimal(v),
        GoSetting::Nodes(v) => seq![' '] + signed_decimal(v),
        GoSetting::Mate(v) => seq![' '] + signed_decimal(v),
        GoSetting::Movetime(v) => seq![' '] + signed_decimal(v),
        _ => Seq::empty(),
    }
}

/// The text of a setting, after a space.
pub open spec fn setting_text(o: GoSetting) -> Seq<char> {
    seq![' '] + setting_keyword(o) + setting_tail(o)
}

/// The texts of settings, one after the other.
pub open spec fn settings_text(l: Seq<GoSetting>) -> Seq<char>
    decreases l.len(),
{
    if l.len() == 0 {
        Seq::empty()
    } else {
        setting_text(l[0]) + settings_text(l.drop_first())
    }
}

/// The settings applied one after the other.
pub open spec fn apply_all(acc: GoRequestView, l: Seq<GoSetting>) -> GoRequestView
    decreases l.len(),
{
    if l.len() == 0 {
        acc
    } else {
        apply_all(apply_setting(acc, l[0]), l.drop_first())
    }
}

/// The text of two lists of settings is the text of the first and then of the second.
#[verifier::spinoff_prover]
proof fn lemma_settings_text_append(a: Seq<GoSetting>, b: Seq<GoSetting>)
    ensures
        settings_text(a + b) == settings_text(a) + settings_text(b),
        apply_all(no_settings(), a + b) == apply_all(apply_all(no_settings(), a), b),
    decreases a.len(),
{
    lemma_apply_all_append(no_settings(), a, b);
    if a.len() == 0 {
        assert(a + b =~= b);
    } else {
        assert((a + b).drop_first() =~= a.drop_first() + b);
        lemma_settings_text_append(a.drop_first(), b);
    }
}

/// Applying two lists of settings applies the first and then the second.
#[verifier::spinoff_prover]
proof fn lemma_apply_all_append(acc: GoRequestView, a: Seq<GoSetting>, b: Seq<GoSetting>)
    ensures
        apply_all(acc, a + b) == apply_all(apply_all(acc, a), b),
    decreases a.len(),
{
    if a.len() == 0 {
        assert(a + b =~= b);
    } else {
        assert((a + b).drop_first() =~= a.drop_first() + b);
        lemma_apply_all_append(apply_setting(acc, a[0]), a.drop_first(), b);
    }
}

/// The text and the effect of at most one setting.
#[verifier::spinoff_prover]
proof fn lemma_one_setting(acc: GoRequestView, l: Seq<GoSetting>)
    requires
        l.len() <= 1,
    ensures
        settings_text(l) == if l.len() == 0 { Seq::empty() } else { setting_text(l[0]) },
        apply_all(acc, l) == if l.len() == 0 { acc } else { apply_setting(acc, l[0]) },
{
    if l.len() == 1 {
        let e = Seq::<GoSetting>::empty();
        assert(l.drop_first() =~= e);
        assert(settings_text(e) == Seq::<char>::empty());
        assert(apply_all(apply_setting(acc, l[0]), e) == apply_setting(acc, l[0]));
        assert(settings_text(l) =~= setting_text(l[0]));
    }
}

/// The text of a setting with a number: its keyword between spaces and the number.
#[verifier::spinoff_prover]
proof fn lemma_number_setting_text(k: int, x: int)
    requires
        0 <= k < 9,
    ensures
        setting_text(number_setting(k, x)) == number_keyword(k) + signed_decimal(x),
{
    reveal_strlit(" wtime ");
    reveal_strlit(" btime ");
    reveal_strlit(" winc ");
    reveal_strlit(" binc ");
    reveal_strlit(" movestogo ");
    reveal_strlit(" depth ");
    reveal_strlit(" nodes ");
    reveal_strlit(" mate ");
    reveal_strlit(" movetime ");
    reveal_strlit("wtime");
    reveal_strlit("btime");
    reveal_strlit("winc");
    reveal_strlit("binc");
    reveal_strlit("movestogo");
    reveal_strlit("depth");
    reveal_strlit("nodes");
    reveal_strlit("mate");
    reveal_strlit("movetime");
    assert(setting_text(number_setting(k, x)) =~= number_keyword(k) + signed_decimal(x));
}

/// The text of the numbers of a `go` request of the kinds below `k`.
pub open spec fn numbers_text_upto(g: GoRequestView, k: int) -> Seq<char>
    decreases k,
{
    if k <= 0 {
        Seq::empty()
    } else if k == 1 {
        opt_text(number_keyword(0), number_field(g, 0))
    } else {
        numbers_text_upto(g, k - 1) + opt_text(number_keyword(k - 1), number_field(g, k - 1))
    }
}

/// The settings with a number of the kinds below `k` write the numbers of those kinds.
#[verifier::spinoff_prover]
proof fn lemma_numbers_text_upto(g: GoRequestView, k: int)
    requires
        0 <= k <= 9,
    ensures
        settings_text(number_settings_upto(g, k)) == numbers_text_upto(g, k),
    decreases k,
{
    if k >= 1 {
        let one = opt_setting(number_field(g, k - 1), k - 1);
        lemma_one_setting(no_settings(), one);
        match number_field(g, k - 1) {
            Some(x) => lemma_number_setting_text(k - 1, x),
            None => {},
        }
        if k > 1 {
            lemma_numbers_text_upto(g, k - 1);
            lemma_settings_text_append(number_settings_upto(g, k - 1), one);
        }
    } else {
        assert(settings_text(Seq::<GoSetting>::empty()) == Seq::<char>::empty());
    }
}

/// The settings with a number of the kinds below `k` set the numbers of those kinds.
#[verifier::spinoff_prover]
proof fn lemma_numbers_apply_upto(acc: GoRequestView, g: GoRequestView, k: int)
    requires
        0 <= k <= 9,
        forall|j: int| 0 <= j < 9 ==> #[trigger] number_field(acc, j) is None,
    ensures
        forall|j: int| 0 <= j < k ==> #[trigger] number_field(apply_all(acc, number_settings_upto(g, k)), j)
            == number_field(g, j),
        forall|j: int| k <= j < 9 ==> #[trigger] number_field(apply_all(acc, number_settings_upto(g, k)), j)
            is None,
        apply_all(acc, number_settings_upto(g, k)).searchmoves == acc.searchmoves,
        apply_all(acc, number_settings_upto(g, k)).ponder == acc.ponder,
        apply_all(acc, number_settings_upto(g, k)).infinite == acc.infinite,
    decreases k,
{
    if k >= 1 {
        let one = opt_setting(number_field(g, k - 1), k - 1);
        if k > 1 {
            lemma_numbers_apply_upto(acc, g, k - 1);
            lemma_apply_all_append(acc, number_settings_upto(g, k - 1), one);
        }
        let mid = if k > 1 { apply_all(acc, number_settings_upto(g, k - 1)) } else { acc };
        lemma_one_setting(mid, one);
        let r = apply_all(acc, number_settings_upto(g, k));
        assert(r == apply_all(mid, one));
        assert forall|j: int| k <= j < 9 implies #[trigger] number_field(r, j) is None by {
            assert(number_field(mid, j) is None);
        }
        assert forall|j: int| 0 <= j < k implies #[trigger] number_field(r, j) == number_field(g, j) by {
            if j < k - 1 {
                assert(number_field(mid, j) == number_field(g, j));
            }
        }
    } else {
        assert(apply_all(acc, Seq::<GoSetting>::empty()) == acc);
    }
}

/// The text of the numbers of a `go` request, kind by kind.
#[verifier::spinoff_prover]
proof fn lemma_numbers_text_unfold(g: GoRequestView)
    ensures
        numbers_text_upto(g, 9) == go_numbers_text(g),
{
    assert(numbers_text_upto(g, 1) == opt_text(" wtime "@, g.wtime));
    assert(numbers_text_upto(g, 2) == numbers_text_upto(g, 1) + opt_text(" btime "@, g.btime));
    assert(numbers_text_upto(g, 3) == numbers_text_upto(g, 2) + opt_text(" winc "@, g.winc));
    assert(numbers_text_upto(g, 4) == numbers_text_upto(g, 3) + opt_text(" binc "@, g.binc));
    assert(numbers_text_upto(g, 5) == numbers_text_upto(g, 4) + opt_text(" movestogo "@, g.moves_to_go));
    assert(numbers_text_upto(g, 6) == numbers_text_upto(g, 5) + opt_text(" depth "@, g.depth));
    assert(numbers_text_upto(g, 7) == numbers_text_upto(g, 6) + opt_text(" nodes "@, g.nodes));
    assert(numbers_text_upto(g, 8) == numbers_text_upto(g, 7) + opt_text(" mate "@, g.mate));
    assert(numbers_text_upto(g, 9) == numbers_text_upto(g, 8) + opt_text(" movetime "@, g.movetime));
}

/// The settings with a number of a `go` request write its numbers and set them.
#[verifier::spinoff_prover]
proof fn lemma_number_settings(acc: GoRequestView, g: GoRequestView)
    requires
        acc.wtime is None && acc.btime is None && acc.winc is None && acc.binc is None,
        acc.moves_to_go is None && acc.depth is None && acc.nodes is None && acc.mate is None,
        acc.movetime is None,
    ensures
        settings_text(go_number_settings(g)) == go_numbers_text(g),
        apply_all(acc, go_number_settings(g)) == (GoRequestView {
            wtime: g.wtime,
            btime: g.btime,
            winc: g.winc,
            binc: g.binc,
            moves_to_go: g.moves_to_go,
            depth: g.depth,
            nodes: g.nodes,
            mate: g.mate,
            movetime: g.movetime,
            ..acc
        }),
{
    lemma_numbers_text_upto(g, 9);
    lemma_numbers_text_unfold(g);
    assert forall|j: int| 0 <= j < 9 implies #[trigger] number_field(acc, j) is None by {}
    lemma_numbers_apply_upto(acc, g, 9);
    let r = apply_all(acc, go_number_settings(g));
    assert(number_field(r, 0) == g.wtime);
    assert(number_field(r, 1) == g.btime);
    assert(number_field(r, 2) == g.winc);
    assert(number_field(r, 3) == g.binc);
    assert(number_field(r, 4) == g.moves_to_go);
    assert(number_field(r, 5) == g.depth);
    assert(number_field(r, 6) == g.nodes);
    assert(number_field(r, 7) == g.mate);
    assert(number_field(r, 8) == g.movetime);
}

/// The settings of a `go` request write its text and, applied to no settings, give it back.
#[verifier::spinoff_prover]
proof fn lemma_go_settings(g: GoRequestView)
    ensures
        settings_text(go_settings(g)) == go_text(g),
        apply_all(no_settings(), go_settings(g)) == g,
{
    reveal_strlit(" searchmoves");
    reveal_strlit("searchmoves");
    reveal_strlit(" ponder");
    reveal_strlit("ponder");
    reveal_strlit(" infinite");
    reveal_strlit("infinite");
    let h1: Seq<GoSetting> = match g.searchmoves {
        Some(ms) => seq![GoSetting::SearchMoves(ms)],
        None => Seq::empty(),
    };
    let h2: Seq<GoSetting> = if g.ponder { seq![GoSetting::Ponder] } else { Seq::empty() };
    let n = go_number_settings(g);
    let t: Seq<GoSetting> = if g.infinite { seq![GoSetting::Infinite] } else { Seq::empty() };
    let e = no_settings();
    lemma_one_setting(e, h1);
    let r1 = apply_all(e, h1);
    lemma_one_setting(r1, h2);
    let r2 = apply_all(r1, h2);
    lemma_number_settings(r2, g);
    let r3 = apply_all(r2, n);
    lemma_one_setting(r3, t);
    match g.searchmoves {
        Some(ms) => {
            assert(setting_text(GoSetting::SearchMoves(ms)) =~= " searchmoves"@ + moves_spaced(ms));
        },
        None => {},
    }
    assert(setting_text(GoSetting::Ponder) =~= " ponder"@);
    assert(setting_text(GoSetting::Infinite) =~= " infinite"@);
    lemma_settings_text_append(h1, h2);
    lemma_apply_all_append(e, h1, h2);
    lemma_settings_text_append(h1 + h2, n);
    lemma_apply_all_append(e, h1 + h2, n);
    lemma_settings_text_append(h1 + h2 + n, t);
    lemma_apply_all_append(e, h1 + h2 + n, t);
    assert(go_settings(g) == h1 + h2 + n + t);
    assert(settings_text(h1 + h2) == go_head_text(g));
    assert(settings_text(go_settings(g)) =~= go_text(g));
}

/// Whether a setting reads back from its text: a list of moves to search is not empty and
/// holds moves on the board, and each number lies in the range of its type.
pub open spec fn setting_ok(o: GoSetting) -> bool {
    match o {
        GoSetting::SearchMoves(ms) => ms.len() > 0 && moves_ok(ms),
        GoSetting::WTime(v) => -0x8000_0000_0000_0000 <= v <= 0x7fff_ffff_ffff_ffff,
        GoSetting::BTime(v) => -0x8000_0000_0000_0000 <= v <= 0x7fff_ffff_ffff_ffff,
        GoSetting::WInc(v) => -0x8000_0000 <= v <= 0x7fff_ffff,
        GoSetting::BInc(v) => -0x8000_0000 <= v <= 0x7fff_ffff,
        GoSetting::MovesToGo(v) => 0 <= v <= 0xffff_ffff,
        GoSetting::Depth(v) => 0 <= v <= 0xffff_ffff,
        GoSetting::Nodes(v) => 0 <= v <= 0xffff_ffff_ffff_ffff,
        GoSetting::Mate(v) => 0 <= v <= 0xffff_ffff,
        GoSetting::Movetime(v) => 0 <= v <= 0xffff_ffff_ffff_ffff,
        _ => true,
    }
}

/// What a keyword standing at `p` says of the characters there: enough of them to tell the
/// keywords of settings apart.
#[verifier::spinoff_prover]
proof fn lemma_keyword_chars(s: Seq<char>, p: int)
    ensures
        tag_at(s, p, "searchmoves"@) ==> s[p] == 's',
        tag_at(s, p, "ponder"@) ==> s[p] == 'p',
        tag_at(s, p, "wtime"@) ==> s[p] == 'w' && s[p + 1] == 't',
        tag_at(s, p, "btime"@) ==> s[p] == 'b' && s[p + 1] == 't',
        tag_at(s, p, "winc"@) ==> s[p] == 'w' && s[p + 1] == 'i',
        tag_at(s, p, "binc"@) ==> s[p] == 'b' && s[p + 1] == 'i',
        tag_at(s, p, "movestogo"@) ==> s[p] == 'm' && s[p + 1] == 'o' && s[p + 4] == 's',
        tag_at(s, p, "depth"@) ==> s[p] == 'd' && s[p + 1] == 'e',
        tag_at(s, p, "nodes"@) ==> s[p] == 'n',
        tag_at(s, p, "mate"@) ==> s[p] == 'm' && s[p + 1] == 'a',
        tag_at(s, p, "movetime"@) ==> s[p] == 'm' && s[p + 1] == 'o' && s[p + 4] == 't',
        tag_at(s, p, "infinite"@) ==> s[p] == 'i',
{
    reveal_strlit("searchmoves");
    reveal_strlit("ponder");
    reveal_strlit("wtime");
    reveal_strlit("btime");
    reveal_strlit("winc");
    reveal_strlit("binc");
    reveal_strlit("movestogo");
    reveal_strlit("depth");
    reveal_strlit("nodes");
    reveal_strlit("mate");
    reveal_strlit("movetime");
    reveal_strlit("infinite");
    let kws = seq![
        "searchmoves"@,
        "ponder"@,
        "wtime"@,
        "btime"@,
        "winc"@,
        "binc"@,
        "movestogo"@,
        "depth"@,
        "nodes"@,
        "mate"@,
        "movetime"@,
        "infinite"@,
    ];
    assert forall|n: int, j: int| 0 <= n < 12 && 0 <= j < kws[n].len() && j < 5 && tag_at(s, p, kws[n])
        implies s[p + j] == #[trigger] kws[n][j] by {
        lemma_tag_char(s, p, kws[n], j);
    }
    assert(kws[0] == "searchmoves"@);
    assert(kws[1] == "ponder"@);
    assert(kws[2] == "wtime"@);
    assert(kws[3] == "btime"@);
    assert(kws[4] == "winc"@);
    assert(kws[5] == "binc"@);
    assert(kws[6] == "movestogo"@);
    assert(kws[7] == "depth"@);
    assert(kws[8] == "nodes"@);
    assert(kws[9] == "mate"@);
    assert(kws[10] == "movetime"@);
    assert(kws[11] == "infinite"@);
    assert(kws[0][0] == 's');
    assert(kws[1][0] == 'p');
    assert(kws[2][0] == 'w' && kws[2][1] == 't');
    assert(kws[3][0] == 'b' && kws[3][1] == 't');
    assert(kws[4][0] == 'w' && kws[4][1] == 'i');
    assert(kws[5][0] == 'b' && kws[5][1] == 'i');
    assert(kws[6][0] == 'm' && kws[6][1] == 'o' && kws[6][4] == 's');
    assert(kws[7][0] == 'd' && kws[7][1] == 'e');
    assert(kws[8][0] == 'n');
    assert(kws[9][0] == 'm' && kws[9][1] == 'a');
    assert(kws[10][0] == 'm' && kws[10][1] == 'o' && kws[10][4] == 't');
    assert(kws[11][0] == 'i');
}

/// Reading a keyword, a space and a number where they stand, followed by a space or the end
/// of the line.
#[verifier::spinoff_prover]
pub(crate) proof fn lemma_number_at(s: Seq<char>, p: int, kw: Seq<char>, v: int, signed: bool, min: int, max: int)
    requires
        s.len() <= usize::MAX,
        kw.len() > 0,
        min <= v <= max,
        signed || 0 <= v,
        tag_at(s, p, kw + (seq![' '] + signed_decimal(v))),
        p + kw.len() + 1 + signed_decimal(v).len() == s.len() || s[p + kw.len() + 1 + signed_decimal(v).len()]
            == ' ',
    ensures
        keyword_number(s, p, kw, signed, min, max) == Some(
            (p + kw.len() + 1 + signed_decimal(v).len(), v),
        ),
{
    let k = p + kw.len();
    let d = signed_decimal(v);
    lemma_tag_split(s, p, kw, seq![' '] + d);
    lemma_tag_split(s, k, seq![' '], d);
    lemma_tag_char(s, k, seq![' '], 0);
    if v < 0 {
        lemma_decimal((-v) as nat);
        assert(d[0] == '-');
    } else {
        lemma_decimal(v as nat);
        assert(is_digit(d[0]));
    }
    lemma_tag_char(s, k + 1, d, 0);
    assert(skip_blanks(s, k + 1) == k + 1);
    assert(skip_blanks(s, k) == k + 1);
    if signed {
        lemma_signed_at(s, k + 1, v, min, max);
    } else {
        lemma_unsigned_at(s, k + 1, v as nat, max);
    }
}

/// A list of moves after a space: the space is skipped, the first move read, and the rest
/// read after it.
#[verifier::spinoff_prover]
pub(crate) proof fn lemma_move_list(s: Seq<char>, e: int, ms: Seq<(int, int, Option<Promotion>)>)
    requires
        s.len() <= usize::MAX,
        ms.len() > 0,
        moves_ok(ms),
        tag_at(s, e, moves_spaced(ms)),
        moves_stop(s, e + moves_spaced(ms).len()),
    ensures
        skip_blanks(s, e) == e + 1,
        uci_move_at(s, e + 1) == Step::Done((e + 1 + move_text(ms[0]).len()) as usize, ms[0]),
        more_moves(s, e + 1 + move_text(ms[0]).len(), seq![ms[0]]) == (e + moves_spaced(ms).len(), ms),
{
    let m = ms[0];
    let rest = ms.drop_first();
    let g = e + 1 + move_text(m).len();
    lemma_moves_spaced_front(ms);
    assert(move_ok(m));
    assert(moves_ok(rest));
    lemma_tag_split(s, e, seq![' '] + move_text(m), moves_spaced(rest));
    lemma_tag_split(s, e, seq![' '], move_text(m));
    lemma_tag_char(s, e, seq![' '], 0);
    lemma_move_text(m);
    lemma_tag_char(s, e + 1, move_text(m), 0);
    assert(skip_blanks(s, e + 1) == e + 1);
    if rest.len() > 0 {
        lemma_moves_spaced_front(rest);
        lemma_tag_split(s, g, seq![' '] + move_text(rest[0]), moves_spaced(rest.drop_first()));
        lemma_tag_split(s, g, seq![' '], move_text(rest[0]));
        lemma_tag_char(s, g, seq![' '], 0);
    }
    lemma_move_at(s, e + 1, m);
    lemma_read_moves(s, g, rest, seq![m]);
    assert(seq![m] + rest =~= ms);
}

/// Reading a setting where its text stands, up to where the list of settings goes on.
#[verifier::spinoff_prover]
proof fn lemma_setting_at(s: Seq<char>, p: int, o: GoSetting)
    requires
        s.len() <= usize::MAX,
        setting_ok(o),
        tag_at(s, p, setting_keyword(o) + setting_tail(o)),
        moves_stop(s, p + (setting_keyword(o) + setting_tail(o)).len()),
    ensures
        go_setting_at(s, p) == Some((p + (setting_keyword(o) + setting_tail(o)).len(), o)),
{
    let kw = setting_keyword(o);
    let tail = setting_tail(o);
    let after = p + (kw + tail).len();
    lemma_tag_split(s, p, kw, tail);
    lemma_keyword_chars(s, p);
    reveal_strlit("searchmoves");
    reveal_strlit("ponder");
    reveal_strlit("wtime");
    reveal_strlit("btime");
    reveal_strlit("winc");
    reveal_strlit("binc");
    reveal_strlit("movestogo");
    reveal_strlit("depth");
    reveal_strlit("nodes");
    reveal_strlit("mate");
    reveal_strlit("movetime");
    reveal_strlit("infinite");
    match o {
        GoSetting::SearchMoves(ms) => {
            lemma_move_list(s, p + 11, ms);
        },
        GoSetting::WTime(v) => {
            lemma_number_at(s, p, kw, v, true, -0x8000_0000_0000_0000, 0x7fff_ffff_ffff_ffff);
        },
        GoSetting::BTime(v) => {
            lemma_number_at(s, p, kw, v, true, -0x8000_0000_0000_0000, 0x7fff_ffff_ffff_ffff);
        },
        GoSetting::WInc(v) => {
            lemma_number_at(s, p, kw, v, true, -0x8000_0000, 0x7fff_ffff);
        },
        GoSetting::BInc(v) => {
            lemma_number_at(s, p, kw, v, true, -0x8000_0000, 0x7fff_ffff);
        },
        GoSetting::MovesToGo(v) => {
            lemma_number_at(s, p, kw, v, false, 0, 0xffff_ffff);
        },
        GoSetting::Depth(v) => {
            lemma_number_at(s, p, kw, v, false, 0, 0xffff_ffff);
        },
        GoSetting::Nodes(v) => {
            lemma_number_at(s, p, kw, v, false, 0, 0xffff_ffff_ffff_ffff);
        },
        GoSetting::Mate(v) => {
            lemma_number_at(s, p, kw, v, false, 0, 0xffff_ffff);
        },
        GoSetting::Movetime(v) => {
            lemma_number_at(s, p, kw, v, false, 0, 0xffff_ffff_ffff_ffff);
        },
        _ => {},
    }
}

/// No keyword of a setting is a space or the start of a move.
#[verifier::spinoff_prover]
proof fn lemma_keyword_not_move(s: Seq<char>, q: int, o: GoSetting)
    requires
        tag_at(s, q, setting_keyword(o)),
    ensures
        q < s.len(),
        !is_blank(s[q]),
        !(uci_move_at(s, q) is Done),
{
    lemma_keyword_chars(s, q);
    reveal_strlit("searchmoves");
    reveal_strlit("ponder");
    reveal_strlit("wtime");
    reveal_strlit("btime");
    reveal_strlit("winc");
    reveal_strlit("binc");
    reveal_strlit("movestogo");
    reveal_strlit("depth");
    reveal_strlit("nodes");
    reveal_strlit("mate");
    reveal_strlit("movetime");
    reveal_strlit("infinite");
}

/// Whether every setting of a list reads back from its text.
pub open spec fn settings_ok(l: Seq<GoSetting>) -> bool {
    forall|i: int| 0 <= i < l.len() ==> setting_ok(#[trigger] l[i])
}

/// The first of a list of settings after a space: the space is skipped and the setting read,
/// and the texts of the others follow it.
#[verifier::spinoff_prover]
proof fn lemma_first_setting(s: Seq<char>, e: int, l: Seq<GoSetting>)
    requires
        s.len() <= usize::MAX,
        l.len() > 0,
        settings_ok(l),
        tag_at(s, e, settings_text(l)),
        e + settings_text(l).len() == s.len(),
    ensures
        skip_blanks(s, e) == e + 1,
        go_setting_at(s, e + 1) == Some((e + setting_text(l[0]).len(), l[0])),
        tag_at(s, e + setting_text(l[0]).len(), settings_text(l.drop_first())),
        e + setting_text(l[0]).len() + settings_text(l.drop_first()).len() == s.len(),
        settings_ok(l.drop_first()),
        e + 1 < s.len(),
{
    let o = l[0];
    let rest = l.drop_first();
    let kw = setting_keyword(o);
    let tail = setting_tail(o);
    assert(setting_ok(o));
    assert(settings_ok(rest)) by {
        assert forall|i: int| 0 <= i < rest.len() implies setting_ok(#[trigger] rest[i]) by {
            assert(rest[i] == l[i + 1]);
        }
    }
    lemma_tag_split(s, e, setting_text(o), settings_text(rest));
    lemma_tag_split(s, e, seq![' '] + kw, tail);
    lemma_tag_split(s, e, seq![' '], kw);
    lemma_tag_char(s, e, seq![' '], 0);
    assert(tag_at(s, e + 1, kw + tail)) by {
        assert(s.subrange(e + 1, e + 1 + (kw + tail).len()) =~= kw + tail) by {
            assert forall|j: int| 0 <= j < (kw + tail).len() implies s.subrange(
                e + 1,
                e + 1 + (kw + tail).len(),
            )[j] == (kw + tail)[j] by {
                lemma_tag_char(s, e, setting_text(o), j + 1);
            }
        }
    }
    lemma_keyword_not_move(s, e + 1, o);
    assert(skip_blanks(s, e + 1) == e + 1);
    let g = e + setting_text(o).len();
    if rest.len() > 0 {
        let o2 = rest[0];
        lemma_tag_split(s, g, setting_text(o2), settings_text(rest.drop_first()));
        lemma_tag_split(s, g, seq![' '] + setting_keyword(o2), setting_tail(o2));
        lemma_tag_split(s, g, seq![' '], setting_keyword(o2));
        lemma_tag_char(s, g, seq![' '], 0);
        lemma_keyword_not_move(s, g + 1, o2);
    } else {
        assert(settings_text(rest) == Seq::<char>::empty());
    }
    lemma_setting_at(s, e + 1, o);
}

/// Reading more settings where their texts stand, up to the end of the line.
#[verifier::spinoff_prover]
proof fn lemma_read_settings(s: Seq<char>, e: int, l: Seq<GoSetting>, acc: GoRequestView)
    requires
        s.len() <= usize::MAX,
        settings_ok(l),
        tag_at(s, e, settings_text(l)),
        e + settings_text(l).len() == s.len(),
    ensures
        more_settings(s, e, acc) == (s.len() as int, apply_all(acc, l)),
    decreases l.len(),
{
    if l.len() > 0 {
        lemma_first_setting(s, e, l);
        lemma_read_settings(s, e + setting_text(l[0]).len(), l.drop_first(), apply_setting(acc, l[0]));
    } else {
        assert(s.len() == e);
    }
}

/// Reading a `go` request where the text of its settings stands after `go` and a space, up
/// to the end of the line: where it has no setting, the reading stops before that space.
#[verifier::spinoff_prover]
proof fn lemma_read_go(s: Seq<char>, l: Seq<GoSetting>)
    requires
        s.len() <= usize::MAX,
        settings_ok(l),
        s == "go "@ + settings_text(l),
    ensures
        go_at(s, 0) == Step::Done(
            (if l.len() == 0 { 2 } else { s.len() as int }) as usize,
            RequestView::Go(apply_all(no_settings(), l)),
        ),
        skip_blanks(s, if l.len() == 0 { 2 } else { s.len() as int }) == s.len(),
{
    reveal_strlit("go ");
    reveal_strlit("go");
    let t = settings_text(l);
    assert(tag_at(s, 0, "go"@)) by {
        assert(s.subrange(0, 2) =~= "go"@);
    }
    assert(tag_at(s, 3, t)) by {
        assert(s.subrange(3, 3 + t.len() as int) =~= t);
    }
    assert(s[2] == ' ');
    if l.len() == 0 {
        assert(settings_text(l) == Seq::<char>::empty());
        assert(apply_all(no_settings(), l) == no_settings());
        lemma_go_empty(s);
    } else {
        lemma_read_go_settings(s, l);
        assert(skip_blanks(s, s.len() as int) == s.len());
    }
}

/// Reading a `go` request with settings: the space after `go` and the one before the
/// first setting are skipped, and the settings read up to the end of the line.
#[verifier::spinoff_prover]
proof fn lemma_read_go_settings(s: Seq<char>, l: Seq<GoSetting>)
    requires
        s.len() <= usize::MAX,
        l.len() > 0,
        settings_ok(l),
        tag_at(s, 0, "go"@),
        s[2] == ' ',
        tag_at(s, 3, settings_text(l)),
        3 + settings_text(l).len() == s.len(),
    ensures
        go_at(s, 0) == Step::Done(s.len() as usize, RequestView::Go(apply_all(no_settings(), l))),
{
    lemma_first_setting(s, 3, l);
    let g0 = 3 + setting_text(l[0]).len() as int;
    let acc = apply_setting(no_settings(), l[0]);
    lemma_read_settings(s, g0, l.drop_first(), acc);
    assert(skip_blanks(s, 2) == skip_blanks(s, 3));
    assert(apply_all(no_settings(), l) == apply_all(acc, l.drop_first()));
}

/// A `go` request with no setting: its text is `go` and a space.
#[verifier::spinoff_prover]
proof fn lemma_go_empty(s: Seq<char>)
    requires
        s.len() == 3,
        s[2] == ' ',
        tag_at(s, 0, "go"@),
    ensures
        skip_blanks(s, 2) == 3,
        go_at(s, 0) == Step::Done(2, RequestView::Go(no_settings())),
{
    assert(skip_blanks(s, 3) == 3);
    reveal_strlit("searchmoves");
    reveal_strlit("ponder");
    reveal_strlit("wtime");
    reveal_strlit("btime");
    reveal_strlit("winc");
    reveal_strlit("binc");
    reveal_strlit("movestogo");
    reveal_strlit("depth");
    reveal_strlit("nodes");
    reveal_strlit("mate");
    reveal_strlit("movetime");
    reveal_strlit("infinite");
}

/// Whether an option name reads back from its text: words of ASCII letters and digits
/// separated by spaces or tabs, starting with a word, none of them starting with `value`.
pub open spec fn option_name_ok(t: Seq<char>) -> bool {
    &&& t.len() > 0
    &&& is_alnum(t[0])
    &&& forall|i: int| 0 <= i < t.len() ==> is_alnum(#[trigger] t[i]) || is_blank(t[i])
    &&& forall|p: int|
        0 <= p < t.len() && (p == 0 || is_blank(t[p - 1])) ==> !#[trigger] tag_at(t, p, "value"@)
}

/// A text stands at `k + p` in a line when it stands at `p` in the rest of the line from `k`.
#[verifier::spinoff_prover]
pub(crate) proof fn lemma_tag_shift(s: Seq<char>, k: int, p: int, w: Seq<char>)
    requires
        0 <= k <= s.len(),
        0 <= p,
    ensures
        tag_at(s.subrange(k, s.len() as int), p, w) == tag_at(s, k + p, w),
{
    let t = s.subrange(k, s.len() as int);
    if tag_at(s, k + p, w) {
        assert(t.subrange(p, p + w.len()) =~= s.subrange(k + p, k + p + w.len()));
    }
    if tag_at(t, p, w) {
        assert(t.subrange(p, p + w.len()) =~= s.subrange(k + p, k + p + w.len()));
    }
}

/// A run of letters and digits ends at the end of the line or before a character that is
/// none of them.
#[verifier::spinoff_prover]
proof fn lemma_alnum_end_stop(s: Seq<char>, i: int)
    requires
        0 <= i <= s.len(),
    ensures
        alnum_end(s, i) < s.len() ==> !is_alnum(s[alnum_end(s, i)]),
    decreases s.len() - i,
{
    if i < s.len() && is_alnum(s[i]) {
        lemma_alnum_end_stop(s, i + 1);
    }
}

/// Spaces and tabs are skipped up to the end of the line or a character that is neither;
/// the last one skipped is a space or a tab.
#[verifier::spinoff_prover]
pub(crate) proof fn lemma_skip_blanks_stop(s: Seq<char>, i: int)
    requires
        0 <= i <= s.len(),
    ensures
        skip_blanks(s, i) < s.len() ==> !is_blank(s[skip_blanks(s, i)]),
        skip_blanks(s, i) > i ==> is_blank(s[skip_blanks(s, i) - 1]),
    decreases s.len() - i,
{
    if i < s.len() && is_blank(s[i]) {
        lemma_skip_blanks_stop(s, i + 1);
    }
}

/// Reading the rest of an option name from a word of it on reaches the end of the line.
#[verifier::spinoff_prover]
proof fn lemma_name_end(s: Seq<char>, k: int, p: int)
    requires
        0 <= k <= p <= s.len(),
        option_name_ok(s.subrange(k, s.len() as int)),
        p == s.len() || (is_alnum(s[p]) && (p == k || is_blank(s[p - 1]))),
    ensures
        name_end(s, p) == s.len(),
    decreases s.len() - p,
{
    let t = s.subrange(k, s.len() as int);
    if p < s.len() {
        lemma_tag_shift(s, k, p - k, "value"@);
        assert(t[p - k] == s[p]);
        if p > k {
            assert(t[p - k - 1] == s[p - 1]);
        }
        assert(!tag_at(t, p - k, "value"@));
        let a = alnum_end(s, p);
        lemma_alnum_end_bounds(s, p);
        lemma_alnum_end_stop(s, p);
        lemma_skip_blanks_bounds(s, a);
        lemma_skip_blanks_stop(s, a);
        let b = skip_blanks(s, a);
        if a < s.len() {
            assert(t[a - k] == s[a]);
            assert(is_blank(s[a]));
        }
        if b < s.len() {
            assert(t[b - k] == s[b]);
        }
        lemma_name_end(s, k, b);
    }
}

/// Reading `position startposition` and its moves, up to the end of the line.
#[verifier::spinoff_prover]
proof fn lemma_read_position(s: Seq<char>, ms: Seq<(int, int, Option<Promotion>)>)
    requires
        s.len() <= usize::MAX,
        moves_ok(ms),
        s == "position "@ + "startposition"@ + (if ms.len() == 0 {
            Seq::empty()
        } else {
            " moves"@ + moves_spaced(ms)
        }),
    ensures
        position_at(s, 0) == Step::Done(s.len() as usize, RequestView::Position { fen: None, moves: ms }),
{
    reveal_strlit("position ");
    reveal_strlit("position");
    reveal_strlit("startposition");
    reveal_strlit("fen");
    reveal_strlit(" moves");
    reveal_strlit("moves");
    assert(tag_at(s, 0, "position"@)) by {
        assert(s.subrange(0, 8) =~= "position"@);
    }
    assert(tag_at(s, 9, "startposition"@)) by {
        assert(s.subrange(9, 22) =~= "startposition"@);
    }
    assert(s[8] == ' ' && s[9] == 's');
    assert(skip_blanks(s, 9) == 9);
    assert(skip_blanks(s, 8) == 9);
    assert(position_start_at(s, 9) == Step::Done(22, None::<(Seq<SquareContent>, ExtraState)>));
    if ms.len() == 0 {
        assert(s.len() == 22);
        assert(skip_blanks(s, 22) == 22);
        assert(ms =~= Seq::<(int, int, Option<Promotion>)>::empty());
    } else {
        let t = moves_spaced(ms);
        assert(s[22] == ' ' && s[23] == 'm');
        assert(skip_blanks(s, 23) == 23);
        assert(skip_blanks(s, 22) == 23);
        assert(tag_at(s, 23, "moves"@)) by {
            assert(s.subrange(23, 28) =~= "moves"@);
        }
        assert(tag_at(s, 28, t)) by {
            assert(s.subrange(28, 28 + t.len() as int) =~= t);
        }
        assert(s.len() == 28 + t.len());
        lemma_move_list(s, 28, ms);
    }
}

/// Reading `setoption name` and an option name with no value, up to the end of the line.
#[verifier::spinoff_prover]
proof fn lemma_read_option(s: Seq<char>, name: Seq<char>)
    requires
        s.len() <= usize::MAX,
        option_name_ok(name),
        s == "setoption name "@ + name,
    ensures
        option_at(s, 0) == Step::Done(s.len() as usize, RequestView::SetOption { name, value: None }),
{
    reveal_strlit("setoption name ");
    reveal_strlit("setoption");
    reveal_strlit("name");
    reveal_strlit("value");
    assert(tag_at(s, 0, "setoption"@)) by {
        assert(s.subrange(0, 9) =~= "setoption"@);
    }
    assert(tag_at(s, 10, "name"@)) by {
        assert(s.subrange(10, 14) =~= "name"@);
    }
    assert(s.subrange(15, s.len() as int) =~= name);
    assert(s[9] == ' ' && s[10] == 'n' && s[14] == ' ');
    assert(s[15] == name[0]);
    assert(skip_blanks(s, 10) == 10);
    assert(skip_blanks(s, 9) == 10);
    assert(skip_blanks(s, 15) == 15);
    assert(skip_blanks(s, 14) == 15);
    lemma_tag_shift(s, 15, 0, "value"@);
    lemma_name_end(s, 15, 15);
    lemma_alnum_end_bounds(s, 15);
    lemma_skip_blanks_bounds(s, alnum_end(s, 15));
    assert(!tag_at(s, s.len() as int, "value"@));
}

/// Reading `debug` and `on` or `off`, up to the end of the line.
#[verifier::spinoff_prover]
proof fn lemma_read_debug(s: Seq<char>, x: bool)
    requires
        s == "debug "@ + if x { "on"@ } else { "off"@ },
    ensures
        debug_at(s, 0) == Step::Done(s.len() as usize, RequestView::Debug(x)),
{
    reveal_strlit("debug ");
    reveal_strlit("debug");
    reveal_strlit("on");
    reveal_strlit("off");
    assert(tag_at(s, 0, "debug"@)) by {
        assert(s.subrange(0, 5) =~= "debug"@);
    }
    assert(s[5] == ' ' && s[6] == 'o');
    assert(skip_blanks(s, 6) == 6);
    assert(skip_blanks(s, 5) == 6);
    if x {
        assert(tag_at(s, 6, "on"@)) by {
            assert(s.subrange(6, 8) =~= "on"@);
        }
    } else {
        assert(s[7] == 'f');
        assert(!tag_at(s, 6, "on"@)) by {
            if tag_at(s, 6, "on"@) {
                lemma_tag_char(s, 6, "on"@, 1);
            }
        }
        assert(tag_at(s, 6, "off"@)) by {
            assert(s.subrange(6, 9) =~= "off"@);
        }
    }
}

/// What a request word standing at the start of a line says of its first characters:
/// enough of them to tell the words apart.
#[verifier::spinoff_prover]
proof fn lemma_request_chars(s: Seq<char>)
    ensures
        tag_at(s, 0, "debug"@) ==> s[0] == 'd',
        tag_at(s, 0, "isready"@) ==> s[0] == 'i',
        tag_at(s, 0, "ucinewgame"@) ==> s[0] == 'u' && s.len() >= 10 && s[3] == 'n',
        tag_at(s, 0, "uci"@) ==> s[0] == 'u' && s.len() >= 3,
        tag_at(s, 0, "setoption"@) ==> s[0] == 's' && s[1] == 'e',
        tag_at(s, 0, "position"@) ==> s[0] == 'p' && s[2] == 's',
        tag_at(s, 0, "go"@) ==> s[0] == 'g',
        tag_at(s, 0, "stop"@) ==> s[0] == 's' && s[1] == 't',
        tag_at(s, 0, "ponderhit"@) ==> s[0] == 'p' && s[2] == 'n',
        tag_at(s, 0, "quit"@) ==> s[0] == 'q',
{
    reveal_strlit("debug");
    reveal_strlit("isready");
    reveal_strlit("ucinewgame");
    reveal_strlit("uci");
    reveal_strlit("setoption");
    reveal_strlit("position");
    reveal_strlit("go");
    reveal_strlit("stop");
    reveal_strlit("ponderhit");
    reveal_strlit("quit");
    if tag_at(s, 0, "debug"@) {
        lemma_tag_char(s, 0, "debug"@, 0);
    }
    if tag_at(s, 0, "isready"@) {
        lemma_tag_char(s, 0, "isready"@, 0);
    }
    if tag_at(s, 0, "ucinewgame"@) {
        lemma_tag_char(s, 0, "ucinewgame"@, 0);
        lemma_tag_char(s, 0, "ucinewgame"@, 3);
    }
    if tag_at(s, 0, "uci"@) {
        lemma_tag_char(s, 0, "uci"@, 0);
    }
    if tag_at(s, 0, "setoption"@) {
        lemma_tag_char(s, 0, "setoption"@, 0);
        lemma_tag_char(s, 0, "setoption"@, 1);
    }
    if tag_at(s, 0, "position"@) {
        lemma_tag_char(s, 0, "position"@, 0);
        lemma_tag_char(s, 0, "position"@, 2);
    }
    if tag_at(s, 0, "go"@) {
        lemma_tag_char(s, 0, "go"@, 0);
    }
    if tag_at(s, 0, "stop"@) {
        lemma_tag_char(s, 0, "stop"@, 0);
        lemma_tag_char(s, 0, "stop"@, 1);
    }
    if tag_at(s, 0, "ponderhit"@) {
        lemma_tag_char(s, 0, "ponderhit"@, 0);
        lemma_tag_char(s, 0, "ponderhit"@, 2);
    }
    if tag_at(s, 0, "quit"@) {
        lemma_tag_char(s, 0, "quit"@, 0);
    }
}

/// Whether a request reads back from its text: an option is set without a value and with
/// a name of words that do not start with `value`, a position is the start position with
/// moves on the board, and every setting of a `go` request reads back.
pub open spec fn request_reads_back(r: RequestView) -> bool {
    match r {
        RequestView::SetOption { name, value } => value is None && option_name_ok(name),
        RequestView::Position { fen, moves } => fen is None && moves_ok(moves),
        RequestView::Go(g) => settings_ok(go_settings(g)),
        _ => true,
    }
}

/// The text of a request reads back as the same request, the whole line being read.
///
/// Three kinds of requests are left out because they never read back: an option set with a
/// value (the name read keeps the space before `value`), a position given in FEN (the
/// clocks at its end are not read as they were written), and a `go` request that searches
/// an empty list of moves (the keyword then has no move after it).
#[verifier::spinoff_prover]
pub proof fn lemma_request_roundtrip(r: RequestView)
    requires
        request_reads_back(r),
        request_text(r).len() <= usize::MAX,
    ensures
        request_line(request_text(r)) == Step::Done(request_text(r).len() as usize, r),
{
    let s = request_text(r);
    reveal_strlit("uci");
    reveal_strlit("debug ");
    reveal_strlit("on");
    reveal_strlit("off");
    reveal_strlit("isready");
    reveal_strlit("ucinewgame");
    reveal_strlit("setoption name ");
    reveal_strlit("position ");
    reveal_strlit("startposition");
    reveal_strlit("go ");
    reveal_strlit("stop");
    reveal_strlit("ponderhit");
    reveal_strlit("quit");
    lemma_request_chars(s);
    assert(s.len() > 0);
    assert(!is_blank(s[0]));
    assert(skip_blanks(s, 0) == 0);
    match r {
        RequestView::Uci => {
            assert(tag_at(s, 0, "uci"@)) by {
                assert(s.subrange(0, 3) =~= "uci"@);
            }
            assert(skip_blanks(s, 3) == 3);
        },
        RequestView::Debug(x) => {
            lemma_read_debug(s, x);
            assert(skip_blanks(s, s.len() as int) == s.len());
        },
        RequestView::IsReady => {
            assert(tag_at(s, 0, "isready"@)) by {
                assert(s.subrange(0, 7) =~= "isready"@);
            }
            assert(skip_blanks(s, 7) == 7);
        },
        RequestView::UciNewGame => {
            assert(tag_at(s, 0, "ucinewgame"@)) by {
                assert(s.subrange(0, 10) =~= "ucinewgame"@);
            }
            assert(skip_blanks(s, 10) == 10);
        },
        RequestView::SetOption { name, value } => {
            lemma_read_option(s, name);
            assert(skip_blanks(s, s.len() as int) == s.len());
        },
        RequestView::Position { fen, moves } => {
            lemma_read_position(s, moves);
            assert(skip_blanks(s, s.len() as int) == s.len());
        },
        RequestView::Go(g) => {
            lemma_go_settings(g);
            lemma_read_go(s, go_settings(g));
        },
        RequestView::Stop => {
            assert(tag_at(s, 0, "stop"@)) by {
                assert(s.subrange(0, 4) =~= "stop"@);
            }
            assert(skip_blanks(s, 4) == 4);
        },
        RequestView::PonderHit => {
            assert(tag_at(s, 0, "ponderhit"@)) by {
                assert(s.subrange(0, 9) =~= "ponderhit"@);
            }
            assert(skip_blanks(s, 9) == 9);
        },
        RequestView::Quit => {
            assert(tag_at(s, 0, "quit"@)) by {
                assert(s.subrange(0, 4) =~= "quit"@);
            }
            assert(skip_blanks(s, 4) == 4);
        },
    }
}

/// A run of letters and digits from `i` ends at the latest at a character `j` that is none
/// of them.
proof fn lemma_alnum_end_upto(s: Seq<char>, i: int, j: int)
    requires
        0 <= i <= j < s.len(),
        !is_alnum(s[j]),
    ensures
        alnum_end(s, i) <= j,
    decreases j - i,
{
    if i < j && is_alnum(s[i]) {
        lemma_alnum_end_upto(s, i + 1, j);
    }
}

/// Spaces and tabs from `i` end at the latest at a character `j` that is neither.
proof fn lemma_skip_blanks_upto(s: Seq<char>, i: int, j: int)
    requires
        0 <= i <= j < s.len(),
        !is_blank(s[j]),
    ensures
        skip_blanks(s, i) <= j,
    decreases j - i,
{
    if i < j && is_blank(s[i]) {
        lemma_skip_blanks_upto(s, i + 1, j);
    }
}

/// Reading an option name from a word of it on, where the name ends at `n` and a space and
/// the word `value` follow it, stops at that word.
#[verifier::spinoff_prover]
proof fn lemma_name_end_before_value(s: Seq<char>, k: int, p: int, n: int)
    requires
        0 <= k <= p,
        k <= n,
        n + 6 <= s.len(),
        option_name_ok(s.subrange(k, n)),
        s[n] == ' ',
        tag_at(s, n + 1, "value"@),
        p == n + 1 || (p < n && is_alnum(s[p]) && (p == k || is_blank(s[p - 1]))),
    ensures
        name_end(s, p) == n + 1,
        p < n ==> !tag_at(s, p, "value"@),
    decreases s.len() - p,
{
    reveal_strlit("value");
    let t = s.subrange(k, n);
    if p < n {
        assert(t[p - k] == s[p]);
        if p > k {
            assert(t[p - k - 1] == s[p - 1]);
        }
        assert(!tag_at(s, p, "value"@)) by {
            if tag_at(s, p, "value"@) {
                if p + 5 > n {
                    lemma_tag_char(s, p, "value"@, n - p);
                } else {
                    assert(t.subrange(p - k, p - k + 5) =~= s.subrange(p, p + 5));
                    assert(tag_at(t, p - k, "value"@));
                }
            }
        }
        let a = alnum_end(s, p);
        lemma_alnum_end_bounds(s, p);
        lemma_alnum_end_upto(s, p, n);
        lemma_alnum_end_stop(s, p);
        if a < n {
            assert(t[a - k] == s[a]);
        }
        assert(is_blank(s[a]));
        lemma_tag_char(s, n + 1, "value"@, 0);
        lemma_skip_blanks_bounds(s, a);
        lemma_skip_blanks_upto(s, a, n + 1);
        lemma_skip_blanks_stop(s, a);
        let b = skip_blanks(s, a);
        if b < n {
            assert(t[b - k] == s[b]);
        }
        lemma_name_end_before_value(s, k, b, n);
    }
}

/// Whether an option value reads back from its text: a number within 64 bits, a switch, or
/// a text on one line that does not start with a space or a tab, with a number, or with
/// `true` or `false` (which would be read as those values).
pub open spec fn option_value_ok(v: OptionValueView) -> bool {
    match v {
        OptionValueView::Spin(x) => -0x8000_0000_0000_0000 <= x <= 0x7fff_ffff_ffff_ffff,
        OptionValueView::Check(_) => true,
        OptionValueView::String(x) => string_value_ok(x),
    }
}

/// Whether a text given as an option value reads back as that text: it is on one line, and
/// it does not start with a space or a tab, with a number of 64 bits, or with `true` or
/// `false`.
pub open spec fn string_value_ok(x: Seq<char>) -> bool {
    &&& forall|i: int| 0 <= i < x.len() ==> #[trigger] x[i] != '\n' && x[i] != '\r'
    &&& x.len() > 0 ==> !is_blank(x[0])
    &&& !(signed_at(x, 0, -0x8000_0000_0000_0000, 0x7fff_ffff_ffff_ffff) is Done)
    &&& !tag_at(x, 0, "true"@)
    &&& !tag_at(x, 0, "false"@)
}

/// The run of digits from `m + p` in a line ends where the run from `p` ends in the rest
/// of the line from `m`.
proof fn lemma_digits_end_shift(s: Seq<char>, m: int, p: int)
    requires
        0 <= m <= s.len(),
        0 <= p <= s.len() - m,
    ensures
        digits_end(s, m + p) == m + digits_end(s.subrange(m, s.len() as int), p),
    decreases s.len() - m - p,
{
    let x = s.subrange(m, s.len() as int);
    if p < x.len() {
        assert(x[p] == s[m + p]);
        if is_digit(s[m + p]) {
            lemma_digits_end_shift(s, m, p + 1);
        }
    }
}

/// A run of digits from `p` ends within the line.
proof fn lemma_digits_end_bounds(s: Seq<char>, p: int)
    requires
        0 <= p <= s.len(),
    ensures
        p <= digits_end(s, p) <= s.len(),
    decreases s.len() - p,
{
    if p < s.len() && is_digit(s[p]) {
        lemma_digits_end_bounds(s, p + 1);
    }
}

/// A signed number is read at `m` in a line exactly when it is read at the start of the
/// rest of the line from `m`.
proof fn lemma_signed_at_shift(s: Seq<char>, m: int, min: int, max: int)
    requires
        0 <= m <= s.len(),
    ensures
        (signed_at(s, m, min, max) is Done) == (signed_at(s.subrange(m, s.len() as int), 0, min, max) is Done),
{
    let x = s.subrange(m, s.len() as int);
    if m < s.len() {
        assert(x[0] == s[m]);
    }
    let k = if 0 <= m < s.len() && (s[m] == '-' || s[m] == '+') { m + 1 } else { m };
    lemma_digits_end_shift(s, m, k - m);
    lemma_digits_end_bounds(x, k - m);
    let j = digits_end(s, k);
    assert(s.subrange(k, j) =~= x.subrange(k - m, j - m));
}

/// The rest of a line with no line break in it is all of it.
proof fn lemma_line_break_none(s: Seq<char>, i: int)
    requires
        0 <= i <= s.len(),
        forall|k: int| i <= k < s.len() ==> #[trigger] s[k] != '\n' && s[k] != '\r',
    ensures
        line_break_at(s, i) == s.len(),
    decreases s.len() - i,
{
    if i < s.len() {
        lemma_line_break_none(s, i + 1);
    }
}

/// Reading `setoption name`, an option name, `value` and a value that reads back, up to
/// the end of the line.
#[verifier::spinoff_prover]
proof fn lemma_read_option_value(s: Seq<char>, name: Seq<char>, v: OptionValueView)
    requires
        s.len() <= usize::MAX,
        option_name_ok(name),
        option_value_ok(v),
        s == request_text(RequestView::SetOption { name, value: Some(v) }),
    ensures
        option_at(s, 0) == Step::Done(
            s.len() as usize,
            RequestView::SetOption { name: name + seq![' '], value: Some(v) },
        ),
{
    reveal_strlit("setoption name ");
    reveal_strlit("setoption");
    reveal_strlit("name");
    reveal_strlit("value");
    reveal_strlit(" value ");
    reveal_strlit("true");
    reveal_strlit("false");
    let n: int = name.len() + 15int;
    let text = match v {
        OptionValueView::Spin(x) => signed_decimal(x),
        OptionValueView::Check(x) => if x {
            "true"@
        } else {
            "false"@
        },
        OptionValueView::String(x) => x,
    };
    assert(s =~= "setoption name "@ + name + " value "@ + text);
    assert(tag_at(s, 0, "setoption"@)) by {
        assert(s.subrange(0, 9) =~= "setoption"@);
    }
    assert(tag_at(s, 10, "name"@)) by {
        assert(s.subrange(10, 14) =~= "name"@);
    }
    assert(s.subrange(15, n) =~= name);
    assert(s[9] == ' ' && s[10] == 'n' && s[14] == ' ');
    assert(s[15] == name[0]);
    assert(skip_blanks(s, 10) == 10);
    assert(skip_blanks(s, 9) == 10);
    assert(skip_blanks(s, 15) == 15);
    assert(skip_blanks(s, 14) == 15);
    assert(s[n] == ' ');
    assert(tag_at(s, n + 1, "value"@)) by {
        assert(s.subrange(n + 1, n + 6) =~= "value"@);
    }
    assert(s.subrange(n + 7, s.len() as int) =~= text);
    lemma_name_end_before_value(s, 15, 15, n);
    lemma_alnum_end_bounds(s, 15);
    lemma_skip_blanks_bounds(s, alnum_end(s, 15));
    assert(s.subrange(15, n + 1) =~= name + seq![' ']);
    let m: int = n + 7;
    assert(s[n + 6] == ' ');
    match v {
        OptionValueView::Spin(x) => {
            lemma_decimal(if x < 0 { (-x) as nat } else { x as nat });
            assert(text.len() >= 1);
            assert(s[m] == text[0]);
            assert(!is_blank(s[m]));
            assert(skip_blanks(s, m) == m);
            assert(skip_blanks(s, n + 6) == m);
            assert(tag_at(s, m, signed_decimal(x))) by {
                assert(s.subrange(m, m + text.len()) =~= text);
            }
            lemma_signed_at(s, m, x, -0x8000_0000_0000_0000, 0x7fff_ffff_ffff_ffff);
        },
        OptionValueView::Check(x) => {
            assert(s[m] == text[0]);
            assert(skip_blanks(s, m) == m);
            assert(skip_blanks(s, n + 6) == m);
            assert(!is_digit(s[m]));
            assert(digits_end(s, m) == m);
            assert(signed_at(s, m, -0x8000_0000_0000_0000, 0x7fff_ffff_ffff_ffff) is Error);
            if x {
                assert(tag_at(s, m, "true"@)) by {
                    assert(s.subrange(m, m + 4) =~= "true"@);
                }
            } else {
                assert(!tag_at(s, m, "true"@)) by {
                    if tag_at(s, m, "true"@) {
                        lemma_tag_char(s, m, "true"@, 0);
                    }
                }
                assert(tag_at(s, m, "false"@)) by {
                    assert(s.subrange(m, m + 5) =~= "false"@);
                }
            }
        },
        OptionValueView::String(x) => {
            assert(x == text);
            let rest = s.subrange(m, s.len() as int);
            assert(rest =~= x);
            if x.len() > 0 {
                assert(s[m] == x[0]);
                assert(!is_blank(s[m]));
            }
            assert(skip_blanks(s, m) == m);
            assert(skip_blanks(s, n + 6) == m);
            lemma_signed_at_shift(s, m, -0x8000_0000_0000_0000, 0x7fff_ffff_ffff_ffff);
            lemma_tag_shift(s, m, 0, "true"@);
            lemma_tag_shift(s, m, 0, "false"@);
            assert forall|k: int| m <= k < s.len() implies #[trigger] s[k] != '\n' && s[k] != '\r' by {
                assert(s[k] == x[k - m]);
            }
            lemma_line_break_none(s, m);
        },
    }
}

/// An option set with a number, with `true` or `false`, or with a text that reads back
/// reads back with the value that was written, the whole line being read; the name read
/// keeps the space written between it and `value`.
#[verifier::spinoff_prover]
pub proof fn lemma_option_value_roundtrip(name: Seq<char>, v: OptionValueView)
    requires
        option_name_ok(name),
        option_value_ok(v),
        request_text(RequestView::SetOption { name, value: Some(v) }).len() <= usize::MAX,
    ensures
        request_line(request_text(RequestView::SetOption { name, value: Some(v) })) == Step::Done(
            request_text(RequestView::SetOption { name, value: Some(v) }).len() as usize,
            RequestView::SetOption { name: name + seq![' '], value: Some(v) },
        ),
{
    let s = request_text(RequestView::SetOption { name, value: Some(v) });
    reveal_strlit("setoption name ");
    lemma_request_chars(s);
    assert(s[0] == 's' && s[1] == 'e');
    assert(skip_blanks(s, 0) == 0);
    lemma_read_option_value(s, name, v);
    assert(skip_blanks(s, s.len() as int) == s.len());
}

} // verus!
