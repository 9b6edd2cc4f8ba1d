//! What reading an engine message gives back of the text a message writes.
use vstd::prelude::*;
use super::cmd::{
    lemma_move_run_end, lemma_uci_move_text_roundtrip, move_run, moves_spaced, uci_move_of_word, uci_move_text,
};
use super::cmd_laws::{lemma_moves_spaced_join, move_texts};
use super::msg::{
    IdView, InfoView, MsgView, OptionTypeView, Version, option_name, option_type_of_words, option_type_text,
    spin_of_words, ScoreKind, info_of_words, info_text, infos_text, is_numbered_info, msg_of_words, msg_text,
    numbered_info, numbered_info_max, prepend_info, run_moves, score_kind_of, score_kind_text, unsigned_after,
};
use crate::text::{
    all_digits, decimal, is_space, is_word, join_words, lemma_join_append, lemma_join_two, lemma_words_append,
    lemma_words_join, signed_between, signed_decimal, signed_value, unsigned_at_most, words,
};
use crate::chess_core::mov::Promotion;
use crate::common::square::square_name;
use crate::uci::req_laws::lemma_decimal;

verus! {

/// The words of search information and of score kinds, known by their characters.
proof fn lemma_reveal_score_words()
    ensures
        "id"@ =~= seq!['i', 'd'],
        "uciok"@ =~= seq!['u', 'c', 'i', 'o', 'k'],
        "readyok"@ =~= seq!['r', 'e', 'a', 'd', 'y', 'o', 'k'],
        "bestmove"@ =~= seq!['b', 'e', 's', 't', 'm', 'o', 'v', 'e'],
        "info"@ =~= seq!['i', 'n', 'f', 'o'],
        "depth"@ =~= seq!['d', 'e', 'p', 't', 'h'],
        "seldepth"@ =~= seq!['s', 'e', 'l', 'd', 'e', 'p', 't', 'h'],
        "time"@ =~= seq!['t', 'i', 'm', 'e'],
        "nodes"@ =~= seq!['n', 'o', 'd', 'e', 's'],
        "curmovenumber"@ =~= seq!['c', 'u', 'r', 'm', 'o', 'v', 'e', 'n', 'u', 'm', 'b', 'e', 'r'],
        "hashfull"@ =~= seq!['h', 'a', 's', 'h', 'f', 'u', 'l', 'l'],
        "nps"@ =~= seq!['n', 'p', 's'],
        "tbhits"@ =~= seq!['t', 'b', 'h', 'i', 't', 's'],
        "cpuload"@ =~= seq!['c', 'p', 'u', 'l', 'o', 'a', 'd'],
        "pv"@ =~= seq!['p', 'v'],
        "refutation"@ =~= seq!['r', 'e', 'f', 'u', 't', 'a', 't', 'i', 'o', 'n'],
        "currline"@ =~= seq!['c', 'u', 'r', 'r', 'l', 'i', 'n', 'e'],
        "multipv"@ =~= seq!['m', 'u', 'l', 't', 'i', 'p', 'v'],
        "score"@ =~= seq!['s', 'c', 'o', 'r', 'e'],
        "cp"@ =~= seq!['c', 'p'],
        "mate"@ =~= seq!['m', 'a', 't', 'e'],
        "upperbound"@ =~= seq!['u', 'p', 'p', 'e', 'r', 'b', 'o', 'u', 'n', 'd'],
        "lowerbound"@ =~= seq!['l', 'o', 'w', 'e', 'r', 'b', 'o', 'u', 'n', 'd'],
        " score "@ =~= seq![' '] + "score"@ + seq![' '],
{
    reveal_strlit("id");
    reveal_strlit("uciok");
    reveal_strlit("readyok");
    reveal_strlit("bestmove");
    reveal_strlit("info");
    reveal_strlit("depth");
    reveal_strlit("seldepth");
    reveal_strlit("time");
    reveal_strlit("nodes");
    reveal_strlit("curmovenumber");
    reveal_strlit("hashfull");
    reveal_strlit("nps");
    reveal_strlit("tbhits");
    reveal_strlit("cpuload");
    reveal_strlit("pv");
    reveal_strlit("refutation");
    reveal_strlit("currline");
    reveal_strlit("multipv");
    reveal_strlit("score");
    reveal_strlit("cp");
    reveal_strlit("mate");
    reveal_strlit("upperbound");
    reveal_strlit("lowerbound");
    reveal_strlit(" score ");
}

/// The word a score kind is written with names that kind, for every kind but an upper
/// bound, which is written as a lower one.
pub proof fn lemma_score_kind_roundtrip(k: ScoreKind)
    requires
        k != ScoreKind::UpperBound,
    ensures
        score_kind_of(score_kind_text(k)) == Some(k),
        is_word(score_kind_text(k)),
{
    lemma_reveal_score_words();
}

/// The notation of a signed number is a single word that reads back as that number.
pub proof fn lemma_signed_decimal_value(v: int)
    ensures
        signed_value(signed_decimal(v)) == Some(v),
        is_word(signed_decimal(v)),
{
    if v < 0 {
        let d = decimal((-v) as nat);
        lemma_decimal((-v) as nat);
        let s = signed_decimal(v);
        assert(s.subrange(1, s.len() as int) =~= d);
        assert forall|i: int| 0 <= i < s.len() implies !is_space(#[trigger] s[i]) by {
            if i > 0 {
                assert(s[i] == d[i - 1]);
            }
        }
    } else {
        let d = decimal(v as nat);
        lemma_decimal(v as nat);
        assert(d[0] != '+' && d[0] != '-');
        assert forall|i: int| 0 <= i < d.len() implies !is_space(#[trigger] d[i]) by {
            assert(all_digits(d));
        }
    }
}

/// Wherever the word `score` stands among the words of an information line, followed by the
/// word of a score kind and a number of 32 bits, it is read as a score of that kind and
/// that value, and the reading goes on after the number.
#[verifier::spinoff_prover]
pub proof fn lemma_score_item_read(ws: Seq<Seq<char>>, i: int, k: ScoreKind, v: int)
    requires
        0 <= i,
        i + 2 < ws.len(),
        k != ScoreKind::UpperBound,
        -0x8000_0000 <= v <= 0x7fff_ffff,
        ws[i] == "score"@,
        ws[i + 1] == score_kind_text(k),
        ws[i + 2] == signed_decimal(v),
    ensures
        info_of_words(ws, i) == prepend_info(InfoView::Score { value: v, kind: k }, info_of_words(ws, i + 3)),
{
    lemma_reveal_score_words();
    lemma_score_kind_roundtrip(k);
    lemma_signed_decimal_value(v);
    assert(signed_between(ws[i + 2], -0x8000_0000, 0x7fff_ffff) == Some(v));
}

/// The words of an information line holding a score: `info`, `score`, the kind and the
/// number.
#[verifier::spinoff_prover]
proof fn lemma_score_info_words(k: ScoreKind, v: int)
    requires
        k != ScoreKind::UpperBound,
    ensures
        words(msg_text(MsgView::Info(seq![InfoView::Score { value: v, kind: k }])))
            == seq!["info"@, "score"@, score_kind_text(k), signed_decimal(v)],
{
    reveal_strlit("info");
    reveal_strlit("score");
    reveal_strlit(" score ");
    lemma_score_kind_roundtrip(k);
    lemma_signed_decimal_value(v);
    let x = InfoView::Score { value: v, kind: k };
    let is = seq![x];
    let kt = score_kind_text(k);
    let sd = signed_decimal(v);
    assert(is.drop_last() =~= Seq::<InfoView>::empty());
    assert(infos_text(is) == infos_text(Seq::<InfoView>::empty()) + info_text(x));
    assert(infos_text(is) =~= info_text(x));
    let head = seq!["info"@, "score"@];
    let tail = seq![kt, sd];
    let ws = head + tail;
    lemma_join_two("info"@, "score"@);
    lemma_join_two(kt, sd);
    lemma_join_append(head, tail);
    assert(" score "@ =~= seq![' '] + "score"@ + seq![' ']);
    let t = msg_text(MsgView::Info(is));
    assert(t == "info"@ + (" score "@ + kt + seq![' '] + sd));
    assert(t =~= join_words(ws));
    assert(ws =~= seq!["info"@, "score"@, kt, sd]);
    assert(is_word("info"@) && is_word("score"@));
    assert forall|i: int| 0 <= i < ws.len() implies is_word(#[trigger] ws[i]) by {}
    lemma_words_join(ws);
}

/// An information line holding a score reads back as that score, for every kind of score
/// but an upper bound, which is written as a lower one.
#[verifier::spinoff_prover]
pub proof fn lemma_score_info_roundtrip(k: ScoreKind, v: int)
    requires
        k != ScoreKind::UpperBound,
        -0x8000_0000 <= v <= 0x7fff_ffff,
    ensures
        msg_of_words(words(msg_text(MsgView::Info(seq![InfoView::Score { value: v, kind: k }])))) == Some(
            MsgView::Info(seq![InfoView::Score { value: v, kind: k }]),
        ),
{
    lemma_score_info_words(k, v);
    lemma_reveal_score_words();
    let x = InfoView::Score { value: v, kind: k };
    let ws = seq!["info"@, "score"@, score_kind_text(k), signed_decimal(v)];
    lemma_score_item_read(ws, 1, k, v);
    assert(info_of_words(ws, 4) == Some(Seq::<InfoView>::empty()));
    assert(seq![x] + Seq::<InfoView>::empty() =~= seq![x]);
}

/// The keyword and the number of an information item written as a keyword and one
/// number.
pub open spec fn numbered_parts(x: InfoView) -> Option<(Seq<char>, int)> {
    match x {
        InfoView::Depth(v) => Some(("depth"@, v)),
        InfoView::SelDepth(v) => Some(("seldepth"@, v)),
        InfoView::Time(v) => Some(("time"@, v)),
        InfoView::Nodes(v) => Some(("nodes"@, v)),
        InfoView::HashFull(v) => Some(("hashfull"@, v)),
        InfoView::Nps(v) => Some(("nps"@, v)),
        InfoView::TbHits(v) => Some(("tbhits"@, v)),
        InfoView::CpuLoad(v) => Some(("cpuload"@, v)),
        _ => None,
    }
}

/// Whether an information item reads back from its text: a keyword and a number within the
/// item's bounds, a score of a kind other than an upper bound, or a line of moves on the
/// board.
pub open spec fn info_reads_back(x: InfoView) -> bool {
    match x {
        InfoView::Depth(v) => 0 <= v <= 0xffff_ffff,
        InfoView::SelDepth(v) => 0 <= v <= 0xffff_ffff,
        InfoView::Time(v) => 0 <= v <= 0xffff_ffff,
        InfoView::Nodes(v) => 0 <= v <= 0xffff_ffff_ffff_ffff,
        InfoView::HashFull(v) => 0 <= v <= 0xffff,
        InfoView::Nps(v) => 0 <= v <= 0xffff_ffff_ffff_ffff,
        InfoView::TbHits(v) => 0 <= v <= 0xffff_ffff_ffff_ffff,
        InfoView::CpuLoad(v) => 0 <= v <= 0xffff,
        InfoView::Score { value, kind } => kind != ScoreKind::UpperBound && -0x8000_0000 <= value <= 0x7fff_ffff,
        InfoView::Pv(ms) => moves_on_board(ms),
        InfoView::MultiPv { order, moves } => 0 <= order <= 0xffff_ffff && moves_on_board(moves),
        InfoView::Refutation(ms) => moves_on_board(ms),
        InfoView::CurrLine(ms) => moves_on_board(ms),
        _ => false,
    }
}

/// Whether every move of a list lies on the board.
pub open spec fn moves_on_board(ms: Seq<(int, int, Option<Promotion>)>) -> bool {
    forall|k: int| 0 <= k < ms.len() ==> move_on_board(#[trigger] ms[k])
}

/// The words an information item is written with.
pub open spec fn info_words(x: InfoView) -> Seq<Seq<char>> {
    match x {
        InfoView::Score { value, kind } => seq!["score"@, score_kind_text(kind), signed_decimal(value)],
        InfoView::Pv(ms) => seq!["pv"@] + move_texts(ms),
        InfoView::MultiPv { order, moves } => seq!["multipv"@, decimal(order as nat)] + move_texts(moves),
        InfoView::Refutation(ms) => seq!["refutation"@] + move_texts(ms),
        InfoView::CurrLine(ms) => seq!["currline"@] + move_texts(ms),
        _ => match numbered_parts(x) {
            Some((kw, v)) => seq![kw, decimal(v as nat)],
            None => Seq::empty(),
        },
    }
}

/// The notation of a number is a single word that reads back as that number.
pub proof fn lemma_decimal_value(n: nat, max: int)
    requires
        n <= max,
    ensures
        unsigned_at_most(decimal(n), max) == Some(n as int),
        is_word(decimal(n)),
{
    lemma_decimal(n);
    let d = decimal(n);
    assert(d[0] != '+');
    assert forall|i: int| 0 <= i < d.len() implies !is_space(#[trigger] d[i]) by {
        assert(all_digits(d));
    }
}

/// The texts of the keyword items, known by their characters.
proof fn lemma_reveal_item_texts()
    ensures
        " depth "@ =~= seq![' '] + "depth"@ + seq![' '],
        " seldepth "@ =~= seq![' '] + "seldepth"@ + seq![' '],
        " time "@ =~= seq![' '] + "time"@ + seq![' '],
        " nodes "@ =~= seq![' '] + "nodes"@ + seq![' '],
        " hashfull "@ =~= seq![' '] + "hashfull"@ + seq![' '],
        " nps "@ =~= seq![' '] + "nps"@ + seq![' '],
        " tbhits "@ =~= seq![' '] + "tbhits"@ + seq![' '],
        " cpuload "@ =~= seq![' '] + "cpuload"@ + seq![' '],
        " pv"@ =~= seq![' '] + "pv"@,
        " multipv "@ =~= seq![' '] + "multipv"@ + seq![' '],
        " refutation"@ =~= seq![' '] + "refutation"@,
        " currline"@ =~= seq![' '] + "currline"@,
{
    lemma_reveal_score_words();
    reveal_strlit(" depth ");
    reveal_strlit(" seldepth ");
    reveal_strlit(" time ");
    reveal_strlit(" nodes ");
    reveal_strlit(" hashfull ");
    reveal_strlit(" nps ");
    reveal_strlit(" tbhits ");
    reveal_strlit(" cpuload ");
    reveal_strlit(" pv");
    reveal_strlit(" multipv ");
    reveal_strlit(" refutation");
    reveal_strlit(" currline");
}

/// Words, then moves written each after a space: a space and all of them joined with
/// single spaces, when the words are written as a space and their join.
#[verifier::spinoff_prover]
proof fn lemma_words_then_moves(lead: Seq<char>, head: Seq<Seq<char>>, ms: Seq<(int, int, Option<Promotion>)>)
    requires
        head.len() > 0,
        forall|k: int| 0 <= k < head.len() ==> is_word(#[trigger] head[k]),
        moves_on_board(ms),
        lead == seq![' '] + join_words(head),
    ensures
        lead + moves_spaced(ms) == seq![' '] + join_words(head + move_texts(ms)),
        forall|k: int| 0 <= k < (head + move_texts(ms)).len() ==> is_word(#[trigger] (head + move_texts(ms))[k]),
{
    let mts = move_texts(ms);
    assert forall|k: int| 0 <= k < mts.len() implies is_word(#[trigger] mts[k]) by {
        lemma_move_word(ms[k]);
    }
    assert forall|k: int| 0 <= k < (head + mts).len() implies is_word(#[trigger] (head + mts)[k]) by {
        if k >= head.len() {
            assert((head + mts)[k] == mts[k - head.len()]);
        }
    }
    if ms.len() > 0 {
        lemma_moves_spaced_join(ms);
        lemma_join_append(head, mts);
        assert(lead + moves_spaced(ms) =~= seq![' '] + join_words(head + mts));
    } else {
        assert(mts =~= Seq::<Seq<char>>::empty());
        assert(head + mts =~= head);
        assert(moves_spaced(ms) =~= Seq::<char>::empty());
        assert(lead + moves_spaced(ms) =~= lead);
    }
}

/// The words that stand from `i + a` on are those of `iw` from `a` on, when the words of
/// `iw` stand from `i` on.
proof fn lemma_words_tail(ws: Seq<Seq<char>>, i: int, iw: Seq<Seq<char>>, a: int)
    requires
        0 <= i,
        0 <= a <= iw.len(),
        i + iw.len() <= ws.len(),
        ws.subrange(i, i + iw.len()) == iw,
    ensures
        ws.subrange(i + a, i + iw.len()) == iw.subrange(a, iw.len() as int),
{
    assert forall|k: int| 0 <= k < iw.len() - a implies ws.subrange(i + a, i + iw.len())[k] == iw.subrange(
        a,
        iw.len() as int,
    )[k] by {
        assert(ws.subrange(i, i + iw.len())[a + k] == ws[i + a + k]);
    }
    assert(ws.subrange(i + a, i + iw.len()) =~= iw.subrange(a, iw.len() as int));
}

/// The text of an information item that reads back is a space and the item's words joined
/// with single spaces, the first of them no move.
#[verifier::spinoff_prover]
proof fn lemma_info_text_words(x: InfoView)
    requires
        info_reads_back(x),
    ensures
        info_text(x) == seq![' '] + join_words(info_words(x)),
        forall|i: int| 0 <= i < info_words(x).len() ==> is_word(#[trigger] info_words(x)[i]),
        info_words(x).len() >= 1,
        uci_move_of_word(info_words(x)[0]) is None,
{
    lemma_reveal_item_texts();
    lemma_reveal_score_words();
    let iw = info_words(x);
    match x {
        InfoView::Score { value, kind } => {
            lemma_score_kind_roundtrip(kind);
            lemma_signed_decimal_value(value);
            let a = seq!["score"@];
            let b = seq![score_kind_text(kind), signed_decimal(value)];
            lemma_join_two(score_kind_text(kind), signed_decimal(value));
            lemma_join_append(a, b);
            assert(a + b =~= iw);
            assert(join_words(a) == "score"@);
            assert(info_text(x) =~= seq![' '] + join_words(iw));
        },
        InfoView::Pv(ms) => {
            assert(join_words(seq!["pv"@]) == "pv"@);
            lemma_words_then_moves(" pv"@, seq!["pv"@], ms);
        },
        InfoView::Refutation(ms) => {
            assert(join_words(seq!["refutation"@]) == "refutation"@);
            lemma_words_then_moves(" refutation"@, seq!["refutation"@], ms);
        },
        InfoView::CurrLine(ms) => {
            assert(join_words(seq!["currline"@]) == "currline"@);
            lemma_words_then_moves(" currline"@, seq!["currline"@], ms);
        },
        InfoView::MultiPv { order, moves } => {
            let d = decimal(order as nat);
            lemma_decimal_value(order as nat, order);
            let head = seq!["multipv"@, d];
            lemma_join_two("multipv"@, d);
            assert(" multipv "@ + d =~= seq![' '] + join_words(head));
            assert(is_word("multipv"@));
            assert forall|k: int| 0 <= k < head.len() implies is_word(#[trigger] head[k]) by {}
            lemma_words_then_moves(" multipv "@ + d, head, moves);
        },
        _ => {
            let (kw, v) = numbered_parts(x)->0;
            lemma_decimal_value(v as nat, v);
            lemma_join_two(kw, decimal(v as nat));
            assert(info_text(x) =~= seq![' '] + join_words(iw));
        },
    }
}

/// The words of an information item's text are the item's words.
#[verifier::spinoff_prover]
proof fn lemma_info_text_split(x: InfoView)
    requires
        info_reads_back(x),
    ensures
        words(info_text(x)) == info_words(x),
        info_text(x).len() > 0,
        info_text(x)[0] == ' ',
{
    lemma_info_text_words(x);
    let j = join_words(info_words(x));
    lemma_words_join(info_words(x));
    lemma_words_append(seq![' '], j);
    let sp: Seq<char> = seq![' '];
    assert(sp.drop_last() =~= Seq::<char>::empty());
    assert(words(sp.drop_last()) =~= Seq::<Seq<char>>::empty());
    assert(words(sp) =~= Seq::<Seq<char>>::empty());
    assert(Seq::<Seq<char>>::empty() + info_words(x) =~= info_words(x));
}

/// The texts of information items start with the text of the first.
proof fn lemma_infos_text_front(is: Seq<InfoView>)
    requires
        is.len() > 0,
    ensures
        infos_text(is) == info_text(is[0]) + infos_text(is.drop_first()),
    decreases is.len(),
{
    if is.len() == 1 {
        assert(is.drop_last() =~= Seq::<InfoView>::empty());
        assert(is.drop_first() =~= Seq::<InfoView>::empty());
        assert(infos_text(is) =~= info_text(is[0]) + infos_text(is.drop_first()));
    } else {
        let dl = is.drop_last();
        lemma_infos_text_front(dl);
        assert(dl.drop_first() =~= is.drop_first().drop_last());
        assert(is.drop_first().last() == is.last());
        assert(dl[0] == is[0]);
        assert(infos_text(is) =~= info_text(is[0]) + infos_text(is.drop_first()));
    }
}

/// The moves whose texts stand from word `j` on, followed by the end of the line or by a
/// word that is no move, are the run of moves read there.
proof fn lemma_moves_run_read(ws: Seq<Seq<char>>, j: int, ms: Seq<(int, int, Option<Promotion>)>)
    requires
        0 <= j,
        moves_on_board(ms),
        j + ms.len() <= ws.len(),
        ws.subrange(j, j + ms.len()) == move_texts(ms),
        j + ms.len() < ws.len() ==> uci_move_of_word(ws[j + ms.len()]) is None,
    ensures
        move_run(ws, j) == ms.len(),
        run_moves(ws, j) == ms,
{
    let n = ms.len() as int;
    assert forall|k: int| j <= k < j + n implies (#[trigger] uci_move_of_word(ws[k])) is Some by {
        assert(ws[k] == move_texts(ms)[k - j]);
        lemma_move_word(ms[k - j]);
    }
    lemma_move_run_end(ws, j, j + n);
    assert forall|k: int| 0 <= k < n implies uci_move_of_word(ws[j + k])->0 == ms[k] by {
        assert(ws[j + k] == move_texts(ms)[k]);
        lemma_move_word(ms[k]);
    }
    assert(run_moves(ws, j) =~= ms);
}

/// An item whose words stand at `i`, followed by the end of the line or by a word that is
/// no move, is read there, and the reading goes on after its words.
#[verifier::spinoff_prover]
proof fn lemma_info_item_read(ws: Seq<Seq<char>>, i: int, x: InfoView)
    requires
        0 <= i,
        info_reads_back(x),
        i + info_words(x).len() <= ws.len(),
        ws.subrange(i, i + info_words(x).len()) == info_words(x),
        i + info_words(x).len() < ws.len() ==> uci_move_of_word(ws[i + info_words(x).len()]) is None,
    ensures
        info_of_words(ws, i) == prepend_info(x, info_of_words(ws, i + info_words(x).len())),
{
    lemma_reveal_score_words();
    let iw = info_words(x);
    assert(ws[i] == iw[0]);
    match x {
        InfoView::Score { value, kind } => {
            assert(ws[i + 1] == iw[1]);
            assert(ws[i + 2] == iw[2]);
            lemma_score_item_read(ws, i, kind, value);
        },
        InfoView::Pv(ms) => {
            lemma_words_tail(ws, i, iw, 1);
            assert(iw.subrange(1, iw.len() as int) =~= move_texts(ms));
            lemma_moves_run_read(ws, i + 1, ms);
        },
        InfoView::Refutation(ms) => {
            lemma_words_tail(ws, i, iw, 1);
            assert(iw.subrange(1, iw.len() as int) =~= move_texts(ms));
            lemma_moves_run_read(ws, i + 1, ms);
        },
        InfoView::CurrLine(ms) => {
            lemma_words_tail(ws, i, iw, 1);
            assert(iw.subrange(1, iw.len() as int) =~= move_texts(ms));
            lemma_moves_run_read(ws, i + 1, ms);
        },
        InfoView::MultiPv { order, moves } => {
            assert(ws[i + 1] == iw[1]);
            lemma_decimal_value(order as nat, 0xffff_ffff);
            assert(unsigned_after(ws, i, 0xffff_ffff) == Some(order));
            lemma_words_tail(ws, i, iw, 2);
            assert(iw.subrange(2, iw.len() as int) =~= move_texts(moves));
            lemma_moves_run_read(ws, i + 2, moves);
        },
        _ => {
            assert(ws[i + 1] == iw[1]);
            let (kw, v) = numbered_parts(x)->0;
            assert(is_numbered_info(kw));
            assert(v <= numbered_info_max(kw));
            lemma_decimal_value(v as nat, numbered_info_max(kw));
            assert(unsigned_after(ws, i, numbered_info_max(kw)) == Some(v));
            assert(numbered_info(kw, v) == x);
        },
    }
}

/// Information items written after any words are read back from where they start.
#[verifier::spinoff_prover]
proof fn lemma_read_infos(pre: Seq<Seq<char>>, is: Seq<InfoView>)
    requires
        forall|k: int| 0 <= k < is.len() ==> info_reads_back(#[trigger] is[k]),
    ensures
        info_of_words(pre + words(infos_text(is)), pre.len() as int) == Some(is),
        is.len() > 0 ==> words(infos_text(is)).len() > 0 && words(infos_text(is))[0] == info_words(is[0])[0],
    decreases is.len(),
{
    if is.len() == 0 {
        assert(words(infos_text(is)) =~= Seq::<Seq<char>>::empty());
        assert(pre + words(infos_text(is)) =~= pre);
        assert(is =~= Seq::<InfoView>::empty());
    } else {
        let x = is[0];
        let tail = is.drop_first();
        lemma_infos_text_front(is);
        lemma_info_text_split(x);
        lemma_info_text_words(x);
        if tail.len() > 0 {
            lemma_infos_text_front(tail);
            lemma_info_text_split(tail[0]);
            assert(infos_text(tail)[0] == info_text(tail[0])[0]);
        }
        lemma_words_append(info_text(x), infos_text(tail));
        let iw = info_words(x);
        let rest = words(infos_text(tail));
        let ws = pre + iw + rest;
        assert(pre + words(infos_text(is)) =~= ws);
        lemma_read_infos(pre + iw, tail);
        assert(words(infos_text(is)) == iw + rest);
        assert((iw + rest)[0] == iw[0]);
        assert(ws.subrange(pre.len() as int, (pre.len() + iw.len()) as int) =~= iw);
        if tail.len() > 0 {
            lemma_info_text_words(tail[0]);
            assert(rest[0] == info_words(tail[0])[0]);
            assert(ws[(pre.len() + iw.len()) as int] == rest[0]);
        }
        lemma_info_item_read(ws, pre.len() as int, x);
        assert(seq![x] + tail =~= is);
    }
}

/// An information line whose items are keyword items, scores and lines of moves reads back
/// as those items, in order; left out are the items that never read back, among them
/// scores of an upper bound, which are written as lower ones.
#[verifier::spinoff_prover]
pub proof fn lemma_info_roundtrip(is: Seq<InfoView>)
    requires
        forall|k: int| 0 <= k < is.len() ==> info_reads_back(#[trigger] is[k]),
    ensures
        msg_of_words(words(msg_text(MsgView::Info(is)))) == Some(MsgView::Info(is)),
{
    lemma_reveal_score_words();
    let t = msg_text(MsgView::Info(is));
    assert(is_word("info"@));
    lemma_words_join(seq!["info"@]);
    assert(join_words(seq!["info"@]) == "info"@);
    if is.len() > 0 {
        lemma_infos_text_front(is);
        lemma_info_text_split(is[0]);
        assert(infos_text(is)[0] == info_text(is[0])[0]);
    }
    lemma_words_append("info"@, infos_text(is));
    lemma_read_infos(seq!["info"@], is);
    let ws = words(t);
    assert(ws == seq!["info"@] + words(infos_text(is)));
    assert(ws[0] == "info"@);
}

/// Whether a text is words joined with single spaces; the empty text is no words.
pub open spec fn joined_words(x: Seq<char>) -> bool {
    exists|fs: Seq<Seq<char>>|
        (forall|i: int| 0 <= i < fs.len() ==> is_word(#[trigger] fs[i])) && x == join_words(fs)
}

/// Whether both squares of a move lie on the board.
pub open spec fn move_on_board(m: (int, int, Option<Promotion>)) -> bool {
    0 <= m.0 < 64 && 0 <= m.1 < 64
}

/// Whether a message reads back from its text: a name or an author made of words joined
/// with single spaces, a best move and a ponder move on the board, an information line of
/// items that read back; option messages are left out.
pub open spec fn msg_reads_back(m: MsgView) -> bool {
    match m {
        MsgView::Id(IdView::Name(x)) => joined_words(x),
        MsgView::Id(IdView::Author(x)) => joined_words(x),
        MsgView::Id(IdView::Version(_)) => true,
        MsgView::UciOk => true,
        MsgView::ReadyOk => true,
        MsgView::BestMove { m, ponder } => move_on_board(m) && (ponder matches Some(p) ==> move_on_board(p)),
        MsgView::Info(is) => forall|k: int| 0 <= k < is.len() ==> info_reads_back(#[trigger] is[k]),
        MsgView::Option { name, ty } => is_word(name) && name != "type"@ && option_type_reads_back(ty),
    }
}

/// The text of a move on the board is a single word that reads back as the move.
pub proof fn lemma_move_word(m: (int, int, Option<Promotion>))
    requires
        move_on_board(m),
    ensures
        is_word(uci_move_text(m)),
        uci_move_of_word(uci_move_text(m)) == Some(m),
{
    lemma_uci_move_text_roundtrip(m);
    let t = uci_move_text(m);
    assert forall|i: int| 0 <= i < t.len() implies !is_space(#[trigger] t[i]) by {
        if i < 2 {
            assert(t[i] == square_name(m.0)[i]);
        } else if i < 4 {
            assert(t[i] == square_name(m.1)[i - 2]);
        }
    }
}

/// A text of one word reads as that word.
proof fn lemma_one_word(w: Seq<char>)
    requires
        is_word(w),
    ensures
        words(w) == seq![w],
{
    assert(join_words(seq![w]) == w);
    lemma_words_join(seq![w]);
}

/// The text of a name or an author reads back.
#[verifier::spinoff_prover]
proof fn lemma_id_text_roundtrip(author: bool, x: Seq<char>)
    requires
        joined_words(x),
    ensures
        ({
            let m = MsgView::Id(if author { IdView::Author(x) } else { IdView::Name(x) });
            msg_of_words(words(msg_text(m))) == Some(m)
        }),
{
    lemma_reveal_score_words();
    reveal_strlit("name");
    reveal_strlit("author");
    reveal_strlit("version");
    reveal_strlit("id name ");
    reveal_strlit("id author ");
    let m = MsgView::Id(if author { IdView::Author(x) } else { IdView::Name(x) });
    let kw = if author { "author"@ } else { "name"@ };
    let fs = choose|fs: Seq<Seq<char>>|
        (forall|i: int| 0 <= i < fs.len() ==> is_word(#[trigger] fs[i])) && x == join_words(fs);
    let head = seq!["id"@, kw];
    let ws = head + fs;
    lemma_join_two("id"@, kw);
    assert(msg_text(m) =~= join_words(head) + seq![' '] + x);
    assert(is_word("id"@) && is_word(kw));
    if fs.len() == 0 {
        lemma_words_join(head);
        lemma_words_append(join_words(head), seq![' ']);
        let sp: Seq<char> = seq![' '];
        assert(sp.drop_last() =~= Seq::<char>::empty());
        assert(words(sp.drop_last()) =~= Seq::<Seq<char>>::empty());
        assert(join_words(fs) =~= Seq::<char>::empty());
        assert(msg_text(m) =~= join_words(head) + sp);
        assert(head + words(sp) =~= ws);
    } else {
        lemma_join_append(head, fs);
        assert forall|i: int| 0 <= i < ws.len() implies is_word(#[trigger] ws[i]) by {
            if i >= 2 {
                assert(ws[i] == fs[i - 2]);
            }
        }
        lemma_words_join(ws);
    }
    assert(ws.subrange(2, ws.len() as int) =~= fs);
    assert(ws[0] == "id"@ && ws[1] == kw);
}

/// The text of a version reads back.
#[verifier::spinoff_prover]
proof fn lemma_version_roundtrip(v: Version)
    ensures
        msg_of_words(words(msg_text(MsgView::Id(IdView::Version(v))))) == Some(MsgView::Id(IdView::Version(v))),
{
    lemma_reveal_score_words();
    reveal_strlit("name");
    reveal_strlit("author");
    reveal_strlit("version");
    reveal_strlit("id version ");
    let a = decimal(v.major as nat);
    let b = decimal(v.minor as nat);
    let c = decimal(v.patch as nat);
    lemma_decimal_value(v.major as nat, 0xffff_ffff);
    lemma_decimal_value(v.minor as nat, 0xffff_ffff);
    lemma_decimal_value(v.patch as nat, 0xffff_ffff);
    let head = seq!["id"@, "version"@];
    let tail = seq![a, b, c];
    let ws = head + tail;
    lemma_join_two("id"@, "version"@);
    lemma_join_two(a, b);
    assert(tail.drop_last() =~= seq![a, b]);
    assert(join_words(tail) == join_words(seq![a, b]) + seq![' '] + c);
    lemma_join_append(head, tail);
    assert(msg_text(MsgView::Id(IdView::Version(v))) =~= join_words(ws));
    assert(is_word("id"@) && is_word("version"@));
    assert forall|i: int| 0 <= i < ws.len() implies is_word(#[trigger] ws[i]) by {}
    lemma_words_join(ws);
    assert(ws[0] == "id"@ && ws[1] == "version"@ && ws[2] == a && ws[3] == b && ws[4] == c);
    assert(unsigned_after(ws, 1, 0xffff_ffff) == Some(v.major as int));
    assert(unsigned_after(ws, 2, 0xffff_ffff) == Some(v.minor as int));
    assert(unsigned_after(ws, 3, 0xffff_ffff) == Some(v.patch as int));
}

/// The text of a best move, with its ponder move if any, reads back.
#[verifier::spinoff_prover]
proof fn lemma_bestmove_roundtrip(m: (int, int, Option<Promotion>), ponder: Option<(int, int, Option<Promotion>)>)
    requires
        move_on_board(m),
        ponder matches Some(p) ==> move_on_board(p),
    ensures
        msg_of_words(words(msg_text(MsgView::BestMove { m, ponder }))) == Some(MsgView::BestMove { m, ponder }),
{
    lemma_reveal_score_words();
    reveal_strlit("ponder");
    reveal_strlit("bestmove ");
    reveal_strlit(" ponder ");
    lemma_move_word(m);
    let mt = uci_move_text(m);
    let t = msg_text(MsgView::BestMove { m, ponder });
    let head = seq!["bestmove"@, mt];
    lemma_join_two("bestmove"@, mt);
    assert(is_word("bestmove"@) && is_word("ponder"@));
    match ponder {
        Some(p) => {
            lemma_move_word(p);
            let pt = uci_move_text(p);
            let tail = seq!["ponder"@, pt];
            let ws = head + tail;
            lemma_join_two("ponder"@, pt);
            lemma_join_append(head, tail);
            assert(t =~= join_words(ws));
            assert forall|i: int| 0 <= i < ws.len() implies is_word(#[trigger] ws[i]) by {}
            lemma_words_join(ws);
            assert(ws[0] == "bestmove"@ && ws[1] == mt && ws[2] == "ponder"@ && ws[3] == pt);
        },
        None => {
            assert(t =~= join_words(head));
            lemma_words_join(head);
            assert(head[0] == "bestmove"@ && head[1] == mt);
        },
    }
}

/// The words of an optional spin setting: its keyword and its number, when it is set.
pub open spec fn opt_words(kw: Seq<char>, v: Option<int>) -> Seq<Seq<char>> {
    match v {
        Some(x) => seq![kw, signed_decimal(x)],
        None => Seq::empty(),
    }
}

/// Whether a number fits in 64 bits with a sign.
pub open spec fn fits_i64(x: int) -> bool {
    -0x8000_0000_0000_0000 <= x <= 0x7fff_ffff_ffff_ffff
}

/// Whether an option type reads back from its text: a check or a button, a string whose
/// default is words joined with single spaces, or a spin whose numbers fit in 64 bits;
/// combo types are left out, as their values are written with no space before `var`.
pub open spec fn option_type_reads_back(ty: OptionTypeView) -> bool {
    match ty {
        OptionTypeView::Check { .. } => true,
        OptionTypeView::Button => true,
        OptionTypeView::String { default } => joined_words(default),
        OptionTypeView::Spin { default, min, max } => fits_i64(default) && (min matches Some(m) ==> fits_i64(m)) && (
        max matches Some(m) ==> fits_i64(m)),
        OptionTypeView::Combo { .. } => false,
    }
}

/// The words an option type is written with, after the word `type`.
pub open spec fn option_type_words(ty: OptionTypeView) -> Seq<Seq<char>> {
    match ty {
        OptionTypeView::Check { default } => seq![
            "check"@,
            "default"@,
            if default {
                "true"@
            } else {
                "false"@
            },
        ],
        OptionTypeView::Button => seq!["button"@],
        OptionTypeView::String { default } => seq!["string"@, "default"@] + words(default),
        OptionTypeView::Spin { default, min, max } => seq!["spin"@, "default"@, signed_decimal(default)] + opt_words(
            "min"@,
            min,
        ) + opt_words("max"@, max),
        OptionTypeView::Combo { .. } => Seq::empty(),
    }
}

/// The option words, known by their characters.
proof fn lemma_reveal_option_words()
    ensures
        "option"@ =~= seq!['o', 'p', 't', 'i', 'o', 'n'],
        "name"@ =~= seq!['n', 'a', 'm', 'e'],
        "type"@ =~= seq!['t', 'y', 'p', 'e'],
        "check"@ =~= seq!['c', 'h', 'e', 'c', 'k'],
        "spin"@ =~= seq!['s', 'p', 'i', 'n'],
        "combo"@ =~= seq!['c', 'o', 'm', 'b', 'o'],
        "button"@ =~= seq!['b', 'u', 't', 't', 'o', 'n'],
        "string"@ =~= seq!['s', 't', 'r', 'i', 'n', 'g'],
        "default"@ =~= seq!['d', 'e', 'f', 'a', 'u', 'l', 't'],
        "true"@ =~= seq!['t', 'r', 'u', 'e'],
        "false"@ =~= seq!['f', 'a', 'l', 's', 'e'],
        "min"@ =~= seq!['m', 'i', 'n'],
        "max"@ =~= seq!['m', 'a', 'x'],
        "option name "@ =~= "option"@ + seq![' '] + "name"@ + seq![' '],
        " type string default "@ =~= seq![' '] + "type"@ + seq![' '] + "string"@ + seq![' '] + "default"@ + seq![' '],
        " type button"@ =~= seq![' '] + "type"@ + seq![' '] + "button"@,
        " type check default "@ =~= seq![' '] + "type"@ + seq![' '] + "check"@ + seq![' '] + "default"@ + seq![' '],
        " type spin default "@ =~= seq![' '] + "type"@ + seq![' '] + "spin"@ + seq![' '] + "default"@ + seq![' '],
        " min "@ =~= seq![' '] + "min"@ + seq![' '],
        " max "@ =~= seq![' '] + "max"@ + seq![' '],
{
    reveal_strlit("option");
    reveal_strlit("name");
    reveal_strlit("type");
    reveal_strlit("check");
    reveal_strlit("spin");
    reveal_strlit("combo");
    reveal_strlit("button");
    reveal_strlit("string");
    reveal_strlit("default");
    reveal_strlit("true");
    reveal_strlit("false");
    reveal_strlit("min");
    reveal_strlit("max");
    reveal_strlit("option name ");
    reveal_strlit(" type string default ");
    reveal_strlit(" type button");
    reveal_strlit(" type check default ");
    reveal_strlit(" type spin default ");
    reveal_strlit(" min ");
    reveal_strlit(" max ");
}

/// A text that is a space and words joined with single spaces has those words.
proof fn lemma_spaced_join_words(ws: Seq<Seq<char>>)
    requires
        forall|k: int| 0 <= k < ws.len() ==> is_word(#[trigger] ws[k]),
    ensures
        words(seq![' '] + join_words(ws)) == ws,
{
    lemma_words_join(ws);
    lemma_words_append(seq![' '], join_words(ws));
    let sp: Seq<char> = seq![' '];
    assert(sp.drop_last() =~= Seq::<char>::empty());
    assert(words(sp.drop_last()) =~= Seq::<Seq<char>>::empty());
    assert(words(sp) =~= Seq::<Seq<char>>::empty());
    assert(Seq::<Seq<char>>::empty() + ws =~= ws);
}

/// The text of a spin setting that is set is a space and its two words joined.
proof fn lemma_opt_text(kw: Seq<char>, lit: Seq<char>, v: Option<int>)
    requires
        is_word(kw),
        lit == seq![' '] + kw + seq![' '],
        v matches Some(x) ==> fits_i64(x),
    ensures
        (match v {
            Some(m) => lit + signed_decimal(m),
            None => Seq::<char>::empty(),
        }) == (if v is Some { seq![' '] + join_words(opt_words(kw, v)) } else { Seq::<char>::empty() }),
        forall|k: int| 0 <= k < opt_words(kw, v).len() ==> is_word(#[trigger] opt_words(kw, v)[k]),
{
    if let Some(m) = v {
        lemma_signed_decimal_value(m);
        lemma_join_two(kw, signed_decimal(m));
        assert(lit + signed_decimal(m) =~= seq![' '] + join_words(opt_words(kw, v)));
    }
}

/// What the words of an option type's text are: `type` and the type's words, the text
/// starting with a space.
pub open spec fn option_type_text_split(ty: OptionTypeView) -> bool {
    &&& words(option_type_text(ty)) == seq!["type"@] + option_type_words(ty)
    &&& option_type_text(ty).len() > 0
    &&& option_type_text(ty)[0] == ' '
}

/// The text of a string type.
#[verifier::spinoff_prover]
proof fn lemma_string_type_text(default: Seq<char>)
    requires
        joined_words(default),
    ensures
        option_type_text_split(OptionTypeView::String { default }),
{
    lemma_reveal_option_words();
    let ty = OptionTypeView::String { default };
    let tw = seq!["type"@] + option_type_words(ty);
    let t = option_type_text(ty);
    let fs = choose|fs: Seq<Seq<char>>|
        (forall|i: int| 0 <= i < fs.len() ==> is_word(#[trigger] fs[i])) && default == join_words(fs);
    lemma_words_join(fs);
    let head = seq!["type"@, "string"@, "default"@];
    assert(head.drop_last() =~= seq!["type"@, "string"@]);
    lemma_join_two("type"@, "string"@);
    assert(" type string default "@ =~= seq![' '] + join_words(head) + seq![' ']);
    assert(forall|k: int| 0 <= k < head.len() ==> is_word(#[trigger] head[k]));
    lemma_spaced_join_words(head);
    lemma_words_append(seq![' '] + join_words(head), seq![' ']);
    let sp: Seq<char> = seq![' '];
    assert(sp.drop_last() =~= Seq::<char>::empty());
    assert(words(sp.drop_last()) =~= Seq::<Seq<char>>::empty());
    assert(words(sp) =~= Seq::<Seq<char>>::empty());
    assert(t =~= (seq![' '] + join_words(head) + sp) + default);
    lemma_words_append(seq![' '] + join_words(head) + sp, default);
    assert(head + Seq::<Seq<char>>::empty() + fs =~= tw);
}

/// The text of a button type.
#[verifier::spinoff_prover]
proof fn lemma_button_type_text()
    ensures
        option_type_text_split(OptionTypeView::Button),
{
    lemma_reveal_option_words();
    let ty = OptionTypeView::Button;
    let tw = seq!["type"@] + option_type_words(ty);
    assert(tw =~= seq!["type"@, "button"@]);
    lemma_join_two("type"@, "button"@);
    assert(option_type_text(ty) =~= seq![' '] + join_words(tw));
    assert(forall|k: int| 0 <= k < tw.len() ==> is_word(#[trigger] tw[k]));
    lemma_spaced_join_words(tw);
}

/// The text of a check type.
#[verifier::spinoff_prover]
proof fn lemma_check_type_text(default: bool)
    ensures
        option_type_text_split(OptionTypeView::Check { default }),
{
    lemma_reveal_option_words();
    let ty = OptionTypeView::Check { default };
    let tw = seq!["type"@] + option_type_words(ty);
    let x = if default { "true"@ } else { "false"@ };
    let a = seq!["type"@, "check"@];
    let b = seq!["default"@, x];
    lemma_join_two("type"@, "check"@);
    lemma_join_two("default"@, x);
    lemma_join_append(a, b);
    assert(a + b =~= tw);
    assert(option_type_text(ty) =~= seq![' '] + join_words(tw));
    assert(forall|k: int| 0 <= k < tw.len() ==> is_word(#[trigger] tw[k]));
    lemma_spaced_join_words(tw);
}

/// A spin setting written after words that are written as a space and their join: a space
/// and the join of all of them.
proof fn lemma_join_opt(pre: Seq<char>, base: Seq<Seq<char>>, kw: Seq<char>, lit: Seq<char>, v: Option<int>)
    requires
        base.len() > 0,
        pre == seq![' '] + join_words(base),
        is_word(kw),
        lit == seq![' '] + kw + seq![' '],
        v matches Some(x) ==> fits_i64(x),
    ensures
        pre + (match v {
            Some(m) => lit + signed_decimal(m),
            None => Seq::<char>::empty(),
        }) == seq![' '] + join_words(base + opt_words(kw, v)),
        forall|k: int| 0 <= k < opt_words(kw, v).len() ==> is_word(#[trigger] opt_words(kw, v)[k]),
{
    lemma_opt_text(kw, lit, v);
    let ow = opt_words(kw, v);
    if v is Some {
        lemma_join_append(base, ow);
        assert(pre + (seq![' '] + join_words(ow)) =~= seq![' '] + join_words(base + ow));
    } else {
        assert(base + ow =~= base);
        assert(pre + Seq::<char>::empty() =~= pre);
    }
}

/// The text of a spin type.
#[verifier::spinoff_prover]
proof fn lemma_spin_type_text(default: int, min: Option<int>, max: Option<int>)
    requires
        option_type_reads_back(OptionTypeView::Spin { default, min, max }),
    ensures
        option_type_text_split(OptionTypeView::Spin { default, min, max }),
{
    reveal_strlit("type");
    reveal_strlit("spin");
    reveal_strlit("default");
    reveal_strlit("min");
    reveal_strlit("max");
    reveal_strlit(" type spin default ");
    reveal_strlit(" min ");
    reveal_strlit(" max ");
    let ty = OptionTypeView::Spin { default, min, max };
    let tw = seq!["type"@] + option_type_words(ty);
    let t = option_type_text(ty);
    lemma_signed_decimal_value(default);
    let a = seq!["type"@, "spin"@];
    let b = seq!["default"@, signed_decimal(default)];
    lemma_join_two("type"@, "spin"@);
    lemma_join_two("default"@, signed_decimal(default));
    lemma_join_append(a, b);
    let base = a + b;
    let t0 = " type spin default "@ + signed_decimal(default);
    assert(t0 =~= seq![' '] + join_words(base));
    assert(is_word("min"@) && is_word("max"@));
    assert(" min "@ =~= seq![' '] + "min"@ + seq![' ']);
    assert(" max "@ =~= seq![' '] + "max"@ + seq![' ']);
    let mn = opt_words("min"@, min);
    let mx = opt_words("max"@, max);
    lemma_join_opt(t0, base, "min"@, " min "@, min);
    let t1 = t0 + (match min {
        Some(m) => " min "@ + signed_decimal(m),
        None => Seq::<char>::empty(),
    });
    let mid = base + mn;
    lemma_join_opt(t1, mid, "max"@, " max "@, max);
    assert(t =~= t1 + (match max {
        Some(m) => " max "@ + signed_decimal(m),
        None => Seq::<char>::empty(),
    }));
    assert(mid + mx =~= tw);
    assert forall|k: int| 0 <= k < tw.len() implies is_word(#[trigger] tw[k]) by {
        if k >= 4 + mn.len() {
            assert(tw[k] == mx[k - 4 - mn.len()]);
        } else if k >= 4 {
            assert(tw[k] == mn[k - 4]);
        } else {
            assert(tw[k] == base[k]);
        }
    }
    lemma_spaced_join_words(tw);
}

/// The words of an option type's text are `type` and the type's words, the text starting
/// with a space.
proof fn lemma_option_type_text_words(ty: OptionTypeView)
    requires
        option_type_reads_back(ty),
    ensures
        option_type_text_split(ty),
{
    match ty {
        OptionTypeView::String { default } => lemma_string_type_text(default),
        OptionTypeView::Button => lemma_button_type_text(),
        OptionTypeView::Check { default } => lemma_check_type_text(default),
        OptionTypeView::Spin { default, min, max } => lemma_spin_type_text(default, min, max),
        OptionTypeView::Combo { .. } => {},
    }
}

/// The words of a spin setting that is set are read as its number, and the reading goes on
/// after them.
proof fn lemma_spin_setting(ws: Seq<Seq<char>>, i: int, kw: Seq<char>, x: int)
    requires
        0 <= i,
        i + 1 < ws.len(),
        ws[i] == kw,
        ws[i + 1] == signed_decimal(x),
        fits_i64(x),
    ensures
        signed_between(ws[i + 1], -0x8000_0000_0000_0000, 0x7fff_ffff_ffff_ffff) == Some(x),
{
    lemma_signed_decimal_value(x);
}

/// An option type whose words stand from `i` to the end of the line is read there.
#[verifier::spinoff_prover]
proof fn lemma_option_type_read(ws: Seq<Seq<char>>, i: int, ty: OptionTypeView)
    requires
        0 <= i,
        option_type_reads_back(ty),
        i + option_type_words(ty).len() == ws.len(),
        ws.subrange(i, ws.len() as int) == option_type_words(ty),
    ensures
        option_type_of_words(ws, i) == Some(ty),
{
    lemma_reveal_option_words();
    let tw = option_type_words(ty);
    assert(ws[i] == tw[0]);
    match ty {
        OptionTypeView::Check { default } => {
            assert(ws[i + 1] == tw[1]);
            assert(ws[i + 2] == tw[2]);
        },
        OptionTypeView::Button => {},
        OptionTypeView::String { default } => {
            let fs = choose|fs: Seq<Seq<char>>|
                (forall|i: int| 0 <= i < fs.len() ==> is_word(#[trigger] fs[i])) && default == join_words(fs);
            lemma_words_join(fs);
            assert(ws[i + 1] == tw[1]);
            assert(ws.subrange(i + 2, ws.len() as int) =~= fs) by {
                assert forall|k: int| 0 <= k < fs.len() implies ws.subrange(i + 2, ws.len() as int)[k] == fs[k] by {
                    assert(ws.subrange(i, ws.len() as int)[k + 2] == ws[i + 2 + k]);
                    assert(tw[k + 2] == fs[k]);
                }
            }
        },
        OptionTypeView::Spin { default, min, max } => {
            let mn = opt_words("min"@, min);
            let mx = opt_words("max"@, max);
            let j: int = i + 3 + mn.len();
            assert(ws[i + 1] == tw[1]);
            assert(ws[i + 2] == tw[2]);
            lemma_spin_setting(ws, i + 1, "default"@, default);
            if let Some(m) = min {
                assert(ws[i + 3] == tw[3]);
                assert(ws[i + 4] == tw[4]);
                lemma_spin_setting(ws, i + 3, "min"@, m);
            }
            if let Some(m) = max {
                assert(ws[j] == tw[3 + mn.len() as int]);
                assert(ws[j + 1] == tw[4 + mn.len() as int]);
                lemma_spin_setting(ws, j, "max"@, m);
                assert(spin_of_words(ws, j + 2, Some(default), max, min) == Some(ty));
                assert(spin_of_words(ws, j, Some(default), None, min) == Some(ty));
            } else {
                assert(spin_of_words(ws, j, Some(default), None, min) == Some(ty));
            }
            assert(spin_of_words(ws, i + 3, Some(default), None, None) == Some(ty));
        },
        OptionTypeView::Combo { .. } => {},
    }
}

/// An option with a name of one word other than `type` and a type that reads back reads
/// back.
#[verifier::spinoff_prover]
proof fn lemma_option_roundtrip(name: Seq<char>, ty: OptionTypeView)
    requires
        is_word(name),
        name != "type"@,
        option_type_reads_back(ty),
    ensures
        msg_of_words(words(msg_text(MsgView::Option { name, ty }))) == Some(MsgView::Option { name, ty }),
{
    lemma_reveal_option_words();
    lemma_reveal_score_words();
    let head = seq!["option"@, "name"@, name];
    assert(head.drop_last() =~= seq!["option"@, "name"@]);
    lemma_join_two("option"@, "name"@);
    assert(forall|k: int| 0 <= k < head.len() ==> is_word(#[trigger] head[k]));
    lemma_words_join(head);
    let t = msg_text(MsgView::Option { name, ty });
    assert(t =~= join_words(head) + option_type_text(ty));
    lemma_option_type_text_words(ty);
    lemma_words_append(join_words(head), option_type_text(ty));
    let tw = seq!["type"@] + option_type_words(ty);
    let ws = head + tw;
    assert(words(t) == ws);
    assert(ws[0] == "option"@ && ws[1] == "name"@ && ws[2] == name && ws[3] == "type"@);
    assert(option_name(ws, 3, Seq::<char>::empty() + name) == Some((name, 3int)));
    assert(Seq::<char>::empty() + name =~= name);
    assert(option_name(ws, 2, Seq::<char>::empty()) == Some((name, 3int)));
    assert(ws.subrange(4, ws.len() as int) =~= option_type_words(ty));
    lemma_option_type_read(ws, 4, ty);
}

/// Reading the text a message writes gives the message back.
///
/// Left out are the messages that never read back: a name or an author whose text is not
/// words joined with single spaces (the spaces are not kept as written), a move off the
/// board, information items other than keyword items, scores and lines of moves (among
/// them scores of an upper bound, written as lower ones, and the current move and its
/// number, whose keywords are read with one `r` fewer than they are written), and option
/// messages.
pub proof fn lemma_msg_roundtrip(m: MsgView)
    requires
        msg_reads_back(m),
    ensures
        msg_of_words(words(msg_text(m))) == Some(m),
{
    match m {
        MsgView::Id(IdView::Name(x)) => lemma_id_text_roundtrip(false, x),
        MsgView::Id(IdView::Author(x)) => lemma_id_text_roundtrip(true, x),
        MsgView::Id(IdView::Version(v)) => lemma_version_roundtrip(v),
        MsgView::UciOk => {
            lemma_reveal_score_words();
            lemma_one_word("uciok"@);
        },
        MsgView::ReadyOk => {
            lemma_reveal_score_words();
            lemma_one_word("readyok"@);
        },
        MsgView::BestMove { m: mv, ponder } => lemma_bestmove_roundtrip(mv, ponder),
        MsgView::Info(is) => lemma_info_roundtrip(is),
        MsgView::Option { name, ty } => lemma_option_roundtrip(name, ty),
    }
}

} // verus!
