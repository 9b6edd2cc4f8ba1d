//! What reading a command line gives back of the text a command writes, and what it reads
//! of a `position` line with moves.
use vstd::prelude::*;
use super::cmd::{
    CmdView, GoCmdView, cmd_of_words, cmd_text, go_cmd_text, go_of_words, go_texts, lemma_move_run_end, move_run,
    moves_of_words, moves_spaced, prepend, uci_move_of_word, uci_move_text,
};
use super::msg_laws::{
    lemma_decimal_value, lemma_move_word, lemma_signed_decimal_value, move_on_board, moves_on_board,
};
use crate::chess_core::mov::Promotion;
use crate::text::{
    decimal, is_word, join_words, lemma_join_append, lemma_join_two, lemma_words_append, lemma_words_join,
    signed_decimal, words,
};

verus! {

/// Whether a text is six words joined with single spaces, as a FEN string is.
pub open spec fn six_words(f: Seq<char>) -> bool {
    exists|fs: Seq<Seq<char>>|
        fs.len() == 6 && (forall|i: int| 0 <= i < 6 ==> is_word(#[trigger] fs[i])) && f == join_words(fs)
}

/// Whether a command reads back from its text: an option's name and value are single
/// words, a position has no moves and, when given in FEN, six words, and every setting of
/// a `go` command reads back.
pub open spec fn cmd_reads_back(c: CmdView) -> bool {
    match c {
        CmdView::SetOption { name, value } => is_word(name) && (value matches Some(v) ==> is_word(v)),
        CmdView::Position { fen, moves } => moves.len() == 0 && (fen matches Some(f) ==> six_words(f)),
        CmdView::Go(gs) => forall|k: int| 0 <= k < gs.len() ==> go_reads_back(#[trigger] gs[k]),
        _ => true,
    }
}

/// The command words, known by their characters.
proof fn lemma_reveal_cmd_words()
    ensures
        "uci"@ =~= seq!['u', 'c', 'i'],
        "debug"@ =~= seq!['d', 'e', 'b', 'u', 'g'],
        "on"@ =~= seq!['o', 'n'],
        "off"@ =~= seq!['o', 'f', 'f'],
        "isready"@ =~= seq!['i', 's', 'r', 'e', 'a', 'd', 'y'],
        "setoption"@ =~= seq!['s', 'e', 't', 'o', 'p', 't', 'i', 'o', 'n'],
        "name"@ =~= seq!['n', 'a', 'm', 'e'],
        "value"@ =~= seq!['v', 'a', 'l', 'u', 'e'],
        "ucinewgame"@ =~= seq!['u', 'c', 'i', 'n', 'e', 'w', 'g', 'a', 'm', 'e'],
        "position"@ =~= seq!['p', 'o', 's', 'i', 't', 'i', 'o', 'n'],
        "startpos"@ =~= seq!['s', 't', 'a', 'r', 't', 'p', 'o', 's'],
        "fen"@ =~= seq!['f', 'e', 'n'],
        "moves"@ =~= seq!['m', 'o', 'v', 'e', 's'],
        "go"@ =~= seq!['g', 'o'],
        "stop"@ =~= seq!['s', 't', 'o', 'p'],
        "ponderhit"@ =~= seq!['p', 'o', 'n', 'd', 'e', 'r', 'h', 'i', 't'],
        "quit"@ =~= seq!['q', 'u', 'i', 't'],
{
    reveal_strlit("uci");
    reveal_strlit("debug");
    reveal_strlit("on");
    reveal_strlit("off");
    reveal_strlit("isready");
    reveal_strlit("setoption");
    reveal_strlit("name");
    reveal_strlit("value");
    reveal_strlit("ucinewgame");
    reveal_strlit("position");
    reveal_strlit("startpos");
    reveal_strlit("fen");
    reveal_strlit("moves");
    reveal_strlit("go");
    reveal_strlit("stop");
    reveal_strlit("ponderhit");
    reveal_strlit("quit");
}

/// The texts that commands are written with, known by their characters.
proof fn lemma_reveal_cmd_texts()
    ensures
        "debug on"@ =~= "debug"@ + seq![' '] + "on"@,
        "debug off"@ =~= "debug"@ + seq![' '] + "off"@,
        "setoption name "@ =~= "setoption"@ + seq![' '] + "name"@ + seq![' '],
        " value "@ =~= seq![' '] + "value"@ + seq![' '],
        " fen "@ =~= seq![' '] + "fen"@ + seq![' '],
        " startpos"@ =~= seq![' '] + "startpos"@,
{
    lemma_reveal_cmd_words();
    reveal_strlit("debug on");
    reveal_strlit("debug off");
    reveal_strlit("setoption name ");
    reveal_strlit(" value ");
    reveal_strlit(" fen ");
    reveal_strlit(" startpos");
}

/// The words of a command text that is a single word.
proof fn lemma_single_word_text(w: Seq<char>)
    requires
        is_word(w),
    ensures
        words(w) == seq![w],
{
    assert(join_words(seq![w]) == w);
    lemma_words_join(seq![w]);
}

/// A command written as a single word reads back.
#[verifier::spinoff_prover]
proof fn lemma_keyword_roundtrip(c: CmdView)
    requires
        c is Uci || c is IsReady || c is NewGame || c is Stop || c is PonderHit || c is Quit,
    ensures
        cmd_of_words(words(cmd_text(c))) == Some(c),
{
    lemma_reveal_cmd_words();
    let t = cmd_text(c);
    assert(is_word(t));
    lemma_single_word_text(t);
    assert(seq![t][0] == t);
}

/// A `debug` command reads back.
#[verifier::spinoff_prover]
proof fn lemma_debug_roundtrip(on: bool)
    ensures
        cmd_of_words(words(cmd_text(CmdView::Debug(on)))) == Some(CmdView::Debug(on)),
{
    lemma_reveal_cmd_words();
    lemma_reveal_cmd_texts();
    let t = cmd_text(CmdView::Debug(on));
    let x = if on { "on"@ } else { "off"@ };
    let ws = seq!["debug"@, x];
    lemma_join_two("debug"@, x);
    assert(t =~= join_words(ws));
    lemma_words_join(ws);
    assert(ws[0] == "debug"@ && ws[1] == x);
}

/// An option set with a name and a value of single words reads back.
#[verifier::spinoff_prover]
proof fn lemma_setoption_roundtrip(name: Seq<char>, value: Option<Seq<char>>)
    requires
        is_word(name),
        value matches Some(v) ==> is_word(v),
    ensures
        cmd_of_words(words(cmd_text(CmdView::SetOption { name, value }))) == Some(
            CmdView::SetOption { name, value },
        ),
{
    lemma_reveal_cmd_words();
    lemma_reveal_cmd_texts();
    let t = cmd_text(CmdView::SetOption { name, value });
    let head = seq!["setoption"@, "name"@, name];
    assert(head.drop_last() =~= seq!["setoption"@, "name"@]);
    lemma_join_two("setoption"@, "name"@);
    match value {
        Some(v) => {
            let ws = head + seq!["value"@, v];
            lemma_join_append(head, seq!["value"@, v]);
            lemma_join_two("value"@, v);
            assert(t =~= join_words(ws));
            lemma_words_join(ws);
            assert(ws[0] == "setoption"@ && ws[1] == "name"@ && ws[2] == name);
            assert(ws[3] == "value"@ && ws[4] == v);
        },
        None => {
            assert(t =~= join_words(head));
            lemma_words_join(head);
            assert(head[0] == "setoption"@ && head[1] == "name"@ && head[2] == name);
        },
    }
}

/// A `position` command with no moves reads back.
#[verifier::spinoff_prover]
proof fn lemma_position_roundtrip(fen: Option<Seq<char>>, moves: Seq<(int, int, Option<Promotion>)>)
    requires
        moves.len() == 0,
        fen matches Some(f) ==> six_words(f),
    ensures
        cmd_of_words(words(cmd_text(CmdView::Position { fen, moves }))) == Some(CmdView::Position { fen, moves }),
{
    lemma_reveal_cmd_words();
    lemma_reveal_cmd_texts();
    let t = cmd_text(CmdView::Position { fen, moves });
    assert(moves =~= Seq::<(int, int, Option<Promotion>)>::empty());
    match fen {
        Some(f) => {
            let fs = choose|fs: Seq<Seq<char>>|
                fs.len() == 6 && (forall|i: int| 0 <= i < 6 ==> is_word(#[trigger] fs[i])) && f == join_words(fs);
            let head = seq!["position"@, "fen"@];
            let ws = head + fs;
            lemma_join_two("position"@, "fen"@);
            lemma_join_append(head, fs);
            assert(t =~= join_words(ws));
            assert forall|i: int| 0 <= i < ws.len() implies is_word(#[trigger] ws[i]) by {
                if i >= 2 {
                    assert(ws[i] == fs[i - 2]);
                }
            }
            lemma_words_join(ws);
            assert(ws.subrange(2, 8) =~= fs);
            assert(ws[0] == "position"@ && ws[1] == "fen"@);
        },
        None => {
            let ws = seq!["position"@, "startpos"@];
            lemma_join_two("position"@, "startpos"@);
            assert(t =~= join_words(ws));
            lemma_words_join(ws);
            assert(ws[0] == "position"@ && ws[1] == "startpos"@);
        },
    }
}

/// The keyword and the number of a `go` setting written as a keyword and one number.
pub open spec fn go_number_parts(g: GoCmdView) -> Option<(Seq<char>, int)> {
    match g {
        GoCmdView::WhiteTime(t) => Some(("wtime"@, t)),
        GoCmdView::BlackTime(t) => Some(("btime"@, t)),
        GoCmdView::WhiteInc(t) => Some(("winc"@, t)),
        GoCmdView::BlackInc(t) => Some(("binc"@, t)),
        GoCmdView::MovesToGo(x) => Some(("movestogo"@, x)),
        GoCmdView::Depth(x) => Some(("depth"@, x)),
        GoCmdView::Nodes(x) => Some(("nodes"@, x)),
        GoCmdView::Mate(x) => Some(("mate"@, x)),
        GoCmdView::MoveTime(x) => Some(("movetime"@, x)),
        _ => None,
    }
}

/// Whether a `go` setting reads back from its text: numbers within their bounds, an
/// increment above zero (one of zero is not kept), and moves to search on the board.
pub open spec fn go_reads_back(g: GoCmdView) -> bool {
    match g {
        GoCmdView::SearchMoves(ms) => forall|k: int| 0 <= k < ms.len() ==> move_on_board(#[trigger] ms[k]),
        GoCmdView::Ponder => true,
        GoCmdView::Infinite => true,
        GoCmdView::WhiteInc(t) => 0 < t <= 0x7fff_ffff,
        GoCmdView::BlackInc(t) => 0 < t <= 0x7fff_ffff,
        GoCmdView::Nodes(x) => 0 <= x <= 0xffff_ffff_ffff_ffff,
        _ => match go_number_parts(g) {
            Some((_, x)) => 0 <= x <= 0xffff_ffff,
            None => false,
        },
    }
}

/// The texts of moves.
pub open spec fn move_texts(ms: Seq<(int, int, Option<Promotion>)>) -> Seq<Seq<char>> {
    ms.map_values(|m: (int, int, Option<Promotion>)| uci_move_text(m))
}

/// The words a `go` setting is written with.
pub open spec fn go_words(g: GoCmdView) -> Seq<Seq<char>> {
    match g {
        GoCmdView::SearchMoves(ms) => seq!["searchmoves"@] + move_texts(ms),
        GoCmdView::Ponder => seq!["ponder"@],
        GoCmdView::Infinite => seq!["infinite"@],
        _ => match go_number_parts(g) {
            Some((kw, x)) => seq![kw, decimal(x as nat)],
            None => Seq::empty(),
        },
    }
}

/// The `go` keywords, known by their characters.
proof fn lemma_reveal_go_words()
    ensures
        "searchmoves"@ =~= seq!['s', 'e', 'a', 'r', 'c', 'h', 'm', 'o', 'v', 'e', 's'],
        "ponder"@ =~= seq!['p', 'o', 'n', 'd', 'e', 'r'],
        "infinite"@ =~= seq!['i', 'n', 'f', 'i', 'n', 'i', 't', 'e'],
        "wtime"@ =~= seq!['w', 't', 'i', 'm', 'e'],
        "btime"@ =~= seq!['b', 't', 'i', 'm', 'e'],
        "winc"@ =~= seq!['w', 'i', 'n', 'c'],
        "binc"@ =~= seq!['b', 'i', 'n', 'c'],
        "movestogo"@ =~= seq!['m', 'o', 'v', 'e', 's', 't', 'o', 'g', 'o'],
        "depth"@ =~= seq!['d', 'e', 'p', 't', 'h'],
        "nodes"@ =~= seq!['n', 'o', 'd', 'e', 's'],
        "mate"@ =~= seq!['m', 'a', 't', 'e'],
        "movetime"@ =~= seq!['m', 'o', 'v', 'e', 't', 'i', 'm', 'e'],
        " searchmoves"@ =~= seq![' '] + "searchmoves"@,
        " ponder"@ =~= seq![' '] + "ponder"@,
        " infinite"@ =~= seq![' '] + "infinite"@,
        " wtime "@ =~= seq![' '] + "wtime"@ + seq![' '],
        " btime "@ =~= seq![' '] + "btime"@ + seq![' '],
        " winc "@ =~= seq![' '] + "winc"@ + seq![' '],
        " binc "@ =~= seq![' '] + "binc"@ + seq![' '],
        " movestogo "@ =~= seq![' '] + "movestogo"@ + seq![' '],
        " depth "@ =~= seq![' '] + "depth"@ + seq![' '],
        " nodes "@ =~= seq![' '] + "nodes"@ + seq![' '],
        " mate "@ =~= seq![' '] + "mate"@ + seq![' '],
        " movetime "@ =~= seq![' '] + "movetime"@ + seq![' '],
{
    reveal_strlit("searchmoves");
    reveal_strlit("ponder");
    reveal_strlit("infinite");
    reveal_strlit("wtime");
    reveal_strlit("btime");
    reveal_strlit("winc");
    reveal_strlit("binc");
    reveal_strlit("movestogo");
    reveal_strlit("depth");
    reveal_strlit("nodes");
    reveal_strlit("mate");
    reveal_strlit("movetime");
    reveal_strlit(" searchmoves");
    reveal_strlit(" ponder");
    reveal_strlit(" infinite");
    reveal_strlit(" wtime ");
    reveal_strlit(" btime ");
    reveal_strlit(" winc ");
    reveal_strlit(" binc ");
    reveal_strlit(" movestogo ");
    reveal_strlit(" depth ");
    reveal_strlit(" nodes ");
    reveal_strlit(" mate ");
    reveal_strlit(" movetime ");
}

/// Moves written each after a space are a space and their texts joined with single
/// spaces.
pub proof fn lemma_moves_spaced_join(ms: Seq<(int, int, Option<Promotion>)>)
    requires
        ms.len() > 0,
    ensures
        moves_spaced(ms) == seq![' '] + join_words(move_texts(ms)),
    decreases ms.len(),
{
    let dl = ms.drop_last();
    assert(move_texts(ms).drop_last() =~= move_texts(dl));
    assert(move_texts(ms).last() == uci_move_text(ms.last()));
    if ms.len() == 1 {
        assert(dl =~= Seq::<(int, int, Option<Promotion>)>::empty());
        assert(moves_spaced(dl) =~= Seq::<char>::empty());
        assert(moves_spaced(ms) =~= seq![' '] + join_words(move_texts(ms)));
    } else {
        lemma_moves_spaced_join(dl);
        assert(moves_spaced(ms) =~= seq![' '] + join_words(move_texts(ms)));
    }
}

/// The text of a `go` setting that reads back is a space and the setting's words joined
/// with single spaces, the first of them no move.
#[verifier::spinoff_prover]
proof fn lemma_go_text_words(g: GoCmdView)
    requires
        go_reads_back(g),
    ensures
        go_cmd_text(g) == seq![' '] + join_words(go_words(g)),
        forall|i: int| 0 <= i < go_words(g).len() ==> is_word(#[trigger] go_words(g)[i]),
        go_words(g).len() >= 1,
        uci_move_of_word(go_words(g)[0]) is None,
{
    lemma_reveal_go_words();
    match g {
        GoCmdView::SearchMoves(ms) => {
            let head = seq!["searchmoves"@];
            let mts = move_texts(ms);
            assert(is_word("searchmoves"@));
            assert forall|k: int| 0 <= k < mts.len() implies is_word(#[trigger] mts[k]) by {
                lemma_move_word(ms[k]);
            }
            assert(go_words(g)[0] == "searchmoves"@);
            if ms.len() > 0 {
                lemma_moves_spaced_join(ms);
                lemma_join_append(head, mts);
            } else {
                assert(mts =~= Seq::<Seq<char>>::empty());
                assert(head + mts =~= head);
            }
            assert(go_cmd_text(g) =~= seq![' '] + join_words(go_words(g)));
            assert forall|i: int| 0 <= i < go_words(g).len() implies is_word(#[trigger] go_words(g)[i]) by {
                if i > 0 {
                    assert(go_words(g)[i] == mts[i - 1]);
                }
            }
        },
        GoCmdView::Ponder => {
            assert(go_cmd_text(g) =~= seq![' '] + join_words(go_words(g)));
        },
        GoCmdView::Infinite => {
            assert(go_cmd_text(g) =~= seq![' '] + join_words(go_words(g)));
        },
        _ => {
            let (kw, x) = go_number_parts(g)->0;
            lemma_decimal_value(x as nat, x);
            lemma_join_two(kw, decimal(x as nat));
            assert(go_cmd_text(g) =~= seq![' '] + join_words(go_words(g)));
        },
    }
}

/// The words of a `go` setting's text are the setting's words.
#[verifier::spinoff_prover]
proof fn lemma_go_text_split(g: GoCmdView)
    requires
        go_reads_back(g),
    ensures
        words(go_cmd_text(g)) == go_words(g),
        go_cmd_text(g).len() > 0,
        go_cmd_text(g)[0] == ' ',
{
    lemma_go_text_words(g);
    let j = join_words(go_words(g));
    lemma_words_join(go_words(g));
    lemma_words_append(seq![' '], j);
    let sp: Seq<char> = seq![' '];
    assert(sp.drop_last() =~= Seq::<char>::empty());
    assert(words(sp.drop_last()) =~= Seq::<Seq<char>>::empty());
    assert(words(sp) =~= Seq::<Seq<char>>::empty());
    assert(Seq::<Seq<char>>::empty() + go_words(g) =~= go_words(g));
}

/// The texts of `go` settings start with the text of the first.
proof fn lemma_go_texts_front(gs: Seq<GoCmdView>)
    requires
        gs.len() > 0,
    ensures
        go_texts(gs) == go_cmd_text(gs[0]) + go_texts(gs.drop_first()),
    decreases gs.len(),
{
    if gs.len() == 1 {
        assert(gs.drop_last() =~= Seq::<GoCmdView>::empty());
        assert(gs.drop_first() =~= Seq::<GoCmdView>::empty());
        assert(go_texts(gs) =~= go_cmd_text(gs[0]) + go_texts(gs.drop_first()));
    } else {
        let dl = gs.drop_last();
        lemma_go_texts_front(dl);
        assert(dl.drop_first() =~= gs.drop_first().drop_last());
        assert(gs.drop_first().last() == gs.last());
        assert(dl[0] == gs[0]);
        assert(go_texts(gs) =~= go_cmd_text(gs[0]) + go_texts(gs.drop_first()));
    }
}

/// A `go` setting whose words stand at `i`, followed by the end of the line or by a word
/// that is no move, is read there, and the reading goes on after its words.
#[verifier::spinoff_prover]
proof fn lemma_go_setting_read(ws: Seq<Seq<char>>, i: int, g: GoCmdView)
    requires
        0 <= i,
        go_reads_back(g),
        i + go_words(g).len() <= ws.len(),
        ws.subrange(i, i + go_words(g).len()) == go_words(g),
        i + go_words(g).len() < ws.len() ==> uci_move_of_word(ws[i + go_words(g).len()]) is None,
    ensures
        go_of_words(ws, i) == prepend(g, go_of_words(ws, i + go_words(g).len())),
{
    lemma_reveal_go_words();
    let gw = go_words(g);
    assert(ws[i] == gw[0]);
    match g {
        GoCmdView::SearchMoves(ms) => {
            let n = ms.len() as int;
            assert forall|k: int| i + 1 <= k < i + 1 + n implies (#[trigger] uci_move_of_word(ws[k])) is Some by {
                assert(ws[k] == gw[k - i]);
                lemma_move_word(ms[k - i - 1]);
            }
            lemma_move_run_end(ws, i + 1, i + 1 + n);
            assert(move_run(ws, i + 1) == n);
            assert forall|k: int| 0 <= k < n implies uci_move_of_word(ws[i + 1 + k])->0 == ms[k] by {
                assert(ws[i + 1 + k] == gw[k + 1]);
                lemma_move_word(ms[k]);
            }
            assert(Seq::new(n as nat, |k: int| uci_move_of_word(ws[i + 1 + k])->0) =~= ms);
        },
        GoCmdView::Ponder => {},
        GoCmdView::Infinite => {},
        _ => {
            let (kw, x) = go_number_parts(g)->0;
            assert(ws[i + 1] == gw[1]);
            lemma_decimal_value(x as nat, 0xffff_ffff_ffff_ffff);
            if x <= 0xffff_ffff {
                lemma_decimal_value(x as nat, 0xffff_ffff);
            }
            lemma_signed_decimal_value(x);
            assert(signed_decimal(x) == decimal(x as nat));
        },
    }
}

/// `go` settings written after any words are read back from where they start.
#[verifier::spinoff_prover]
proof fn lemma_read_go(pre: Seq<Seq<char>>, gs: Seq<GoCmdView>)
    requires
        forall|k: int| 0 <= k < gs.len() ==> go_reads_back(#[trigger] gs[k]),
    ensures
        go_of_words(pre + words(go_texts(gs)), pre.len() as int) == Some(gs),
        gs.len() > 0 ==> words(go_texts(gs)).len() > 0 && words(go_texts(gs))[0] == go_words(gs[0])[0],
    decreases gs.len(),
{
    if gs.len() == 0 {
        assert(words(go_texts(gs)) =~= Seq::<Seq<char>>::empty());
        assert(pre + words(go_texts(gs)) =~= pre);
        assert(gs =~= Seq::<GoCmdView>::empty());
    } else {
        let g = gs[0];
        let tail = gs.drop_first();
        lemma_go_texts_front(gs);
        lemma_go_text_split(g);
        lemma_go_text_words(g);
        let gw = go_words(g);
        let rest = words(go_texts(tail));
        if tail.len() > 0 {
            lemma_go_texts_front(tail);
            lemma_go_text_split(tail[0]);
            assert(go_texts(tail)[0] == go_cmd_text(tail[0])[0]);
        }
        lemma_words_append(go_cmd_text(g), go_texts(tail));
        let ws = pre + gw + rest;
        assert(pre + words(go_texts(gs)) =~= ws);
        lemma_read_go(pre + gw, tail);
        assert(words(go_texts(gs)) == gw + rest);
        assert((gw + rest)[0] == gw[0]);
        assert(ws.subrange(pre.len() as int, (pre.len() + gw.len()) as int) =~= gw);
        if tail.len() > 0 {
            lemma_go_text_words(tail[0]);
            assert(rest[0] == go_words(tail[0])[0]);
            assert(ws[(pre.len() + gw.len()) as int] == rest[0]);
        } else {
            assert(rest =~= Seq::<Seq<char>>::empty()) by {
                assert(go_texts(tail) =~= Seq::<char>::empty());
            }
        }
        lemma_go_setting_read(ws, pre.len() as int, g);
        assert(seq![g] + tail =~= gs);
    }
}

/// A `go` command reads back when each of its settings does.
#[verifier::spinoff_prover]
proof fn lemma_go_roundtrip(gs: Seq<GoCmdView>)
    requires
        forall|k: int| 0 <= k < gs.len() ==> go_reads_back(#[trigger] gs[k]),
    ensures
        cmd_of_words(words(cmd_text(CmdView::Go(gs)))) == Some(CmdView::Go(gs)),
{
    lemma_reveal_cmd_words();
    assert(is_word("go"@));
    lemma_single_word_text("go"@);
    if gs.len() > 0 {
        lemma_go_texts_front(gs);
        lemma_go_text_split(gs[0]);
        assert(go_texts(gs)[0] == go_cmd_text(gs[0])[0]);
    }
    lemma_words_append("go"@, go_texts(gs));
    lemma_read_go(seq!["go"@], gs);
    let ws = words(cmd_text(CmdView::Go(gs)));
    assert(ws == seq!["go"@] + words(go_texts(gs)));
    assert(ws[0] == "go"@);
}

/// The texts of moves on the board read as those moves.
proof fn lemma_moves_of_texts(ms: Seq<(int, int, Option<Promotion>)>)
    requires
        moves_on_board(ms),
    ensures
        moves_of_words(move_texts(ms)) == Some(ms),
        forall|k: int| 0 <= k < move_texts(ms).len() ==> is_word(#[trigger] move_texts(ms)[k]),
{
    let mts = move_texts(ms);
    assert forall|j: int| 0 <= j < mts.len() implies (#[trigger] uci_move_of_word(mts[j])) == Some(ms[j]) by {
        lemma_move_word(ms[j]);
    }
    assert forall|k: int| 0 <= k < mts.len() implies is_word(#[trigger] mts[k]) by {
        lemma_move_word(ms[k]);
    }
    assert(Seq::new(mts.len(), |j: int| uci_move_of_word(mts[j])->0) =~= ms);
}

/// A line whose first word is a command word that stands alone is that command, whatever
/// words follow.
#[verifier::spinoff_prover]
pub proof fn lemma_keyword_line(ws: Seq<Seq<char>>, c: CmdView)
    requires
        c is Uci || c is IsReady || c is NewGame || c is Stop || c is PonderHit || c is Quit,
        ws.len() > 0,
        ws[0] == cmd_text(c),
    ensures
        cmd_of_words(ws) == Some(c),
{
    lemma_reveal_cmd_words();
    match c {
        CmdView::Uci => assert(ws[0] == "uci"@),
        CmdView::IsReady => assert(ws[0] == "isready"@),
        CmdView::NewGame => assert(ws[0] == "ucinewgame"@),
        CmdView::Stop => assert(ws[0] == "stop"@),
        CmdView::PonderHit => assert(ws[0] == "ponderhit"@),
        _ => assert(ws[0] == "quit"@),
    }
}

/// A `position` line from the start position, with `moves` and moves on the board written
/// each after a space, reads as the start position with those moves.
#[verifier::spinoff_prover]
pub proof fn lemma_startpos_moves_read(ms: Seq<(int, int, Option<Promotion>)>)
    requires
        moves_on_board(ms),
    ensures
        cmd_of_words(words(join_words(seq!["position"@, "startpos"@, "moves"@] + move_texts(ms)))) == Some(
            CmdView::Position { fen: None, moves: ms },
        ),
{
    lemma_reveal_cmd_words();
    let ws = seq!["position"@, "startpos"@, "moves"@] + move_texts(ms);
    lemma_moves_of_texts(ms);
    assert forall|k: int| 0 <= k < ws.len() implies is_word(#[trigger] ws[k]) by {
        if k >= 3 {
            assert(ws[k] == move_texts(ms)[k - 3]);
        }
    }
    lemma_words_join(ws);
    assert(ws[0] == "position"@ && ws[1] == "startpos"@ && ws[2] == "moves"@);
    assert(ws.subrange(3, ws.len() as int) =~= move_texts(ms));
}

/// A `position` line with a FEN of six words, `moves` and moves on the board written each
/// after a space, reads as that FEN with those moves.
#[verifier::spinoff_prover]
pub proof fn lemma_fen_moves_read(fs: Seq<Seq<char>>, ms: Seq<(int, int, Option<Promotion>)>)
    requires
        fs.len() == 6,
        forall|i: int| 0 <= i < 6 ==> is_word(#[trigger] fs[i]),
        moves_on_board(ms),
    ensures
        cmd_of_words(words(join_words(seq!["position"@, "fen"@] + fs + seq!["moves"@] + move_texts(ms)))) == Some(
            CmdView::Position { fen: Some(join_words(fs)), moves: ms },
        ),
{
    lemma_reveal_cmd_words();
    let ws = seq!["position"@, "fen"@] + fs + seq!["moves"@] + move_texts(ms);
    lemma_moves_of_texts(ms);
    assert forall|k: int| 0 <= k < ws.len() implies is_word(#[trigger] ws[k]) by {
        if 2 <= k < 8 {
            assert(ws[k] == fs[k - 2]);
        } else if k >= 9 {
            assert(ws[k] == move_texts(ms)[k - 9]);
        }
    }
    lemma_words_join(ws);
    assert(ws[0] == "position"@ && ws[1] == "fen"@ && ws[8] == "moves"@);
    assert(ws.subrange(2, 8) =~= fs);
    assert(ws.subrange(9, ws.len() as int) =~= move_texts(ms));
}

/// Reading the text a command writes gives the command back.
///
/// Left out are the commands that never read back: a `position` command with moves (its
/// moves are written one after another with no space between them, so they read as a
/// single word), an option or a FEN whose text is not made of single words, and a `go`
/// command with an increment of zero (which is not kept) or a move off the board.
pub proof fn lemma_cmd_roundtrip(c: CmdView)
    requires
        cmd_reads_back(c),
    ensures
        cmd_of_words(words(cmd_text(c))) == Some(c),
{
    match c {
        CmdView::Debug(on) => lemma_debug_roundtrip(on),
        CmdView::SetOption { name, value } => lemma_setoption_roundtrip(name, value),
        CmdView::Position { fen, moves } => lemma_position_roundtrip(fen, moves),
        CmdView::Go(gs) => lemma_go_roundtrip(gs),
        _ => lemma_keyword_roundtrip(c),
    }
}

} // verus!
