use vstd::prelude::*;
use super::cmd::{
    UciMove, lemma_move_run_bound, move_run, moves_spaced, moves_view, read_move_run,
    uci_move_of_word, uci_move_text,
};
use crate::chess_core::mov::Promotion;
use crate::text::{
    chars_equal, decimal, join_words, parse_signed, parse_unsigned, push_decimal, push_joined, push_signed,
    push_str, push_word, signed_between, signed_decimal, split_words, string_of, unsigned_at_most,
    views, word_is, words,
};

verus! {

/// The version an engine reports.
#[derive(Clone, Copy, Debug, Eq, PartialEq, Structural)]
pub struct Version {
    pub major: u32,
    pub minor: u32,
    pub patch: u32,
}

/// What an engine says about itself.
#[derive(Debug)]
pub enum Id {
    Name(String),
    Author(String),
    Version(Version),
}

/// How a score is to be read.
#[derive(Clone, Copy, Debug, PartialEq, Eq, Structural)]
pub enum ScoreKind {
    Cp,
    Mate,
    Lowerbound,
    UpperBound,
}

/// One item of search information.
#[derive(Debug)]
pub enum InfoMsg {
    Depth(u32),
    SelDepth(u32),
    Time(u32),
    Pv(Vec<UciMove>),
    MultiPv { order: u32, moves: Vec<UciMove> },
    Score { value: i32, kind: ScoreKind },
    CurrMove(UciMove),
    CurrMoveNumber(u32),
    HashFull(u16),
    Nps(u64),
    Nodes(u64),
    TbHits(u64),
    CpuLoad(u16),
    String(String),
    Refutation(Vec<UciMove>),
    CurrLine(Vec<UciMove>),
}

/// The type of an engine option, with its default.
#[derive(Debug)]
#[allow(inconsistent_fields)]
pub enum OptionMsgType {
    Check { default: bool },
    Spin { default: i64, min: Option<i64>, max: Option<i64> },
    Combo {
        /// Options values
        options: Vec<String>,
        /// Index into options
        default: usize,
    },
    String { default: String },
    Button,
}

/// An option an engine offers.
#[derive(Debug)]
pub struct OptionMsg {
    pub name: String,
    pub kind: OptionMsgType,
}

/// A message from the engine to the GUI.
#[derive(Debug)]
pub enum Msg {
    Id(Id),
    UciOk,
    ReadyOk,
    BestMove { mov: UciMove, ponder: Option<UciMove> },
    Info(Vec<InfoMsg>),
    Option(OptionMsg),
}

/// The content of an engine's statement about itself.
pub enum IdView {
    Name(Seq<char>),
    Author(Seq<char>),
    Version(Version),
}

/// The content of an item of search information.
pub enum InfoView {
    Depth(int),
    SelDepth(int),
    Time(int),
    Pv(Seq<(int, int, Option<Promotion>)>),
    MultiPv { order: int, moves: Seq<(int, int, Option<Promotion>)> },
    Score { value: int, kind: ScoreKind },
    CurrMove((int, int, Option<Promotion>)),
    CurrMoveNumber(int),
    HashFull(int),
    Nps(int),
    Nodes(int),
    TbHits(int),
    CpuLoad(int),
    String(Seq<char>),
    Refutation(Seq<(int, int, Option<Promotion>)>),
    CurrLine(Seq<(int, int, Option<Promotion>)>),
}

/// The content of an option type.
#[allow(inconsistent_fields)]
pub enum OptionTypeView {
    Check { default: bool },
    Spin { default: int, min: Option<int>, max: Option<int> },
    Combo { options: Seq<Seq<char>>, default: int },
    String { default: Seq<char> },
    Button,
}

/// The content of a message.
pub enum MsgView {
    Id(IdView),
    UciOk,
    ReadyOk,
    BestMove { m: (int, int, Option<Promotion>), ponder: Option<(int, int, Option<Promotion>)> },
    Info(Seq<InfoView>),
    Option { name: Seq<char>, ty: OptionTypeView },
}

impl View for Id {
    type V = IdView;

    open spec fn view(&self) -> IdView {
        match self {
            Id::Name(s) => IdView::Name(s@),
            Id::Author(s) => IdView::Author(s@),
            Id::Version(v) => IdView::Version(*v),
        }
    }
}

impl View for InfoMsg {
    type V = InfoView;

    open spec fn view(&self) -> InfoView {
        match self {
            InfoMsg::Depth(x) => InfoView::Depth(*x as int),
            InfoMsg::SelDepth(x) => InfoView::SelDepth(*x as int),
            InfoMsg::Time(x) => InfoView::Time(*x as int),
            InfoMsg::Pv(m) => InfoView::Pv(moves_view(m@)),
            InfoMsg::MultiPv { order, moves } => InfoView::MultiPv {
                order: *order as int,
                moves: moves_view(moves@),
            },
            InfoMsg::Score { value, kind } => InfoView::Score { value: *value as int, kind: *kind },
            InfoMsg::CurrMove(m) => InfoView::CurrMove(m@),
            InfoMsg::CurrMoveNumber(x) => InfoView::CurrMoveNumber(*x as int),
            InfoMsg::HashFull(x) => InfoView::HashFull(*x as int),
            InfoMsg::Nps(x) => InfoView::Nps(*x as int),
            InfoMsg::Nodes(x) => InfoView::Nodes(*x as int),
            InfoMsg::TbHits(x) => InfoView::TbHits(*x as int),
            InfoMsg::CpuLoad(x) => InfoView::CpuLoad(*x as int),
            InfoMsg::String(s) => InfoView::String(s@),
            InfoMsg::Refutation(m) => InfoView::Refutation(moves_view(m@)),
            InfoMsg::CurrLine(m) => InfoView::CurrLine(moves_view(m@)),
        }
    }
}

/// The contents of a list of strings.
pub open spec fn strings_view(s: Seq<String>) -> Seq<Seq<char>> {
    s.map_values(|x: String| x@)
}

impl View for OptionMsgType {
    type V = OptionTypeView;

    open spec fn view(&self) -> OptionTypeView {
        match self {
            OptionMsgType::Check { default } => OptionTypeView::Check { default: *default },
            OptionMsgType::Spin { default, min, max } => OptionTypeView::Spin {
                default: *default as int,
                min: match min {
                    Some(m) => Some(*m as int),
                    None => None,
                },
                max: match max {
                    Some(m) => Some(*m as int),
                    None => None,
                },
            },
            OptionMsgType::Combo { options, default } => OptionTypeView::Combo {
                options: strings_view(options@),
                default: *default as int,
            },
            OptionMsgType::String { default } => OptionTypeView::String { default: default@ },
            OptionMsgType::Button => OptionTypeView::Button,
        }
    }
}

/// The contents of a list of information items.
pub open spec fn infos_view(s: Seq<InfoMsg>) -> Seq<InfoView> {
    s.map_values(|x: InfoMsg| x@)
}

impl View for Msg {
    type V = MsgView;

    open spec fn view(&self) -> MsgView {
        match self {
            Msg::Id(i) => MsgView::Id(i@),
            Msg::UciOk => MsgView::UciOk,
            Msg::ReadyOk => MsgView::ReadyOk,
            Msg::BestMove { mov, ponder } => MsgView::BestMove {
                m: mov@,
                ponder: match ponder {
                    Some(p) => Some(p@),
                    None => None,
                },
            },
            Msg::Info(i) => MsgView::Info(infos_view(i@)),
            Msg::Option(o) => MsgView::Option { name: o.name@, ty: o.kind@ },
        }
    }
}

/// The moves of the run that starts at word `j`.
pub open spec fn run_moves(ws: Seq<Seq<char>>, j: int) -> Seq<(int, int, Option<Promotion>)> {
    Seq::new(move_run(ws, j), |k: int| uci_move_of_word(ws[j + k])->0)
}

/// An item in front of the items that follow it, unless those are malformed.
pub open spec fn prepend_info(c: InfoView, rest: Option<Seq<InfoView>>) -> Option<Seq<InfoView>> {
    match rest {
        Some(r) => Some(seq![c] + r),
        None => None,
    }
}

/// The number that follows word `i`, when it is an unsigned decimal of at most `max`.
pub open spec fn unsigned_after(ws: Seq<Seq<char>>, i: int, max: int) -> Option<int> {
    if i + 1 < ws.len() {
        unsigned_at_most(ws[i + 1], max)
    } else {
        None
    }
}

/// The item of a word that a single number follows, for the words that take one.
pub open spec fn numbered_info(x: Seq<char>, v: int) -> InfoView {
    if x == "depth"@ {
        InfoView::Depth(v)
    } else if x == "seldepth"@ {
        InfoView::SelDepth(v)
    } else if x == "time"@ {
        InfoView::Time(v)
    } else if x == "nodes"@ {
        InfoView::Nodes(v)
    } else if x == "curmovenumber"@ {
        InfoView::CurrMoveNumber(v)
    } else if x == "hashfull"@ {
        InfoView::HashFull(v)
    } else if x == "nps"@ {
        InfoView::Nps(v)
    } else if x == "tbhits"@ {
        InfoView::TbHits(v)
    } else {
        InfoView::CpuLoad(v)
    }
}

/// The largest number the word `x` takes, for the words that a single number follows.
pub open spec fn numbered_info_max(x: Seq<char>) -> int {
    if x == "depth"@ || x == "seldepth"@ || x == "time"@ || x == "curmovenumber"@ {
        0xffff_ffff
    } else if x == "hashfull"@ || x == "cpuload"@ {
        0xffff
    } else {
        0xffff_ffff_ffff_ffff
    }
}

/// Whether a word is one that a single number follows.
pub open spec fn is_numbered_info(x: Seq<char>) -> bool {
    x == "depth"@ || x == "seldepth"@ || x == "time"@ || x == "nodes"@ || x == "curmovenumber"@
        || x == "hashfull"@ || x == "nps"@ || x == "tbhits"@ || x == "cpuload"@
}

/// The kind of score a word names.
pub open spec fn score_kind_of(w: Seq<char>) -> Option<ScoreKind> {
    if w == "cp"@ {
        Some(ScoreKind::Cp)
    } else if w == "mate"@ {
        Some(ScoreKind::Mate)
    } else if w == "upperbound"@ {
        Some(ScoreKind::UpperBound)
    } else if w == "lowerbound"@ {
        Some(ScoreKind::Lowerbound)
    } else {
        None
    }
}

/// The information items read from the words from `i` on, or `None` when one is malformed.
/// A `string` item takes all the words after it.
pub open spec fn info_of_words(ws: Seq<Seq<char>>, i: int) -> Option<Seq<InfoView>>
    decreases ws.len() - i,
{
    if i < 0 || i >= ws.len() {
        Some(Seq::empty())
    } else {
        let x = ws[i];
        if is_numbered_info(x) {
            match unsigned_after(ws, i, numbered_info_max(x)) {
                Some(v) => prepend_info(numbered_info(x, v), info_of_words(ws, i + 2)),
                None => None,
            }
        } else if x == "pv"@ || x == "refutation"@ || x == "currline"@ {
            proof {
                lemma_move_run_bound(ws, i + 1);
            }
            let ms = run_moves(ws, i + 1);
            let item = if x == "pv"@ {
                InfoView::Pv(ms)
            } else if x == "refutation"@ {
                InfoView::Refutation(ms)
            } else {
                InfoView::CurrLine(ms)
            };
            prepend_info(item, info_of_words(ws, i + 1 + move_run(ws, i + 1)))
        } else if x == "multipv"@ {
            match unsigned_after(ws, i, 0xffff_ffff) {
                Some(order) => {
                    proof {
                        lemma_move_run_bound(ws, i + 2);
                    }
                    prepend_info(
                        InfoView::MultiPv { order, moves: run_moves(ws, i + 2) },
                        info_of_words(ws, i + 2 + move_run(ws, i + 2)),
                    )
                },
                None => None,
            }
        } else if x == "score"@ {
            if i + 2 < ws.len() {
                match (score_kind_of(ws[i + 1]), signed_between(ws[i + 2], -0x8000_0000, 0x7fff_ffff)) {
                    (Some(kind), Some(value)) => prepend_info(
                        InfoView::Score { value, kind },
                        info_of_words(ws, i + 3),
                    ),
                    _ => None,
                }
            } else {
                None
            }
        } else if x == "curmove"@ {
            if i + 1 < ws.len() {
                match uci_move_of_word(ws[i + 1]) {
                    Some(m) => prepend_info(InfoView::CurrMove(m), info_of_words(ws, i + 2)),
                    None => None,
                }
            } else {
                None
            }
        } else if x == "string"@ {
            Some(seq![InfoView::String(join_words(ws.subrange(i + 1, ws.len() as int)))])
        } else {
            None
        }
    }
}

/// The name of an option: the words from `i` up to the word `type` written one after
/// another without spaces, and the place of that word; `None` when no `type` follows.
pub open spec fn option_name(ws: Seq<Seq<char>>, i: int, acc: Seq<char>) -> Option<(Seq<char>, int)>
    decreases ws.len() - i,
{
    if i < 0 || i >= ws.len() {
        None
    } else if ws[i] == "type"@ {
        Some((acc, i))
    } else {
        option_name(ws, i + 1, acc + ws[i])
    }
}

/// The spin option read from the settings from word `i` on, with the settings so far.
pub open spec fn spin_of_words(
    ws: Seq<Seq<char>>,
    i: int,
    default: Option<int>,
    max: Option<int>,
    min: Option<int>,
) -> Option<OptionTypeView>
    decreases ws.len() - i,
{
    if i < 0 || i >= ws.len() {
        match default {
            Some(d) => Some(OptionTypeView::Spin { default: d, min, max }),
            None => None,
        }
    } else {
        let x = ws[i];
        if !(x == "default"@ || x == "max"@ || x == "min"@) || i + 1 >= ws.len() {
            None
        } else {
            match signed_between(ws[i + 1], -0x8000_0000_0000_0000, 0x7fff_ffff_ffff_ffff) {
                Some(v) => if x == "default"@ {
                    spin_of_words(ws, i + 2, Some(v), max, min)
                } else if x == "max"@ {
                    spin_of_words(ws, i + 2, default, Some(v), min)
                } else {
                    spin_of_words(ws, i + 2, default, max, Some(v))
                },
                None => None,
            }
        }
    }
}

/// The place of the first occurrence of `x` in `s`.
pub open spec fn first_index(s: Seq<Seq<char>>, x: Seq<char>) -> Option<int>
    decreases s.len(),
{
    if s.len() == 0 {
        None
    } else {
        match first_index(s.drop_last(), x) {
            Some(k) => Some(k),
            None => if s.last() == x {
                Some(s.len() - 1)
            } else {
                None
            },
        }
    }
}

/// The combo option read from the pairs of words from `i` on, with the values and default
/// so far. The default must be one of the values.
pub open spec fn combo_of_words(
    ws: Seq<Seq<char>>,
    i: int,
    options: Seq<Seq<char>>,
    default: Option<Seq<char>>,
) -> Option<OptionTypeView>
    decreases ws.len() - i,
{
    if i < 0 || i >= ws.len() {
        match default {
            Some(d) => match first_index(options, d) {
                Some(k) => Some(OptionTypeView::Combo { options, default: k }),
                None => None,
            },
            None => None,
        }
    } else if i + 1 >= ws.len() {
        None
    } else if ws[i] == "default"@ {
        combo_of_words(ws, i + 2, options, Some(ws[i + 1]))
    } else if ws[i] != "var"@ {
        None
    } else {
        combo_of_words(ws, i + 2, options.push(ws[i + 1]), default)
    }
}

/// The type of an option, whose name word is at `i`.
pub open spec fn option_type_of_words(ws: Seq<Seq<char>>, i: int) -> Option<OptionTypeView> {
    if i < 0 || i >= ws.len() {
        None
    } else {
        let t = ws[i];
        if t == "check"@ {
            if i + 2 < ws.len() && ws[i + 1] == "default"@ {
                if ws[i + 2] == "true"@ {
                    Some(OptionTypeView::Check { default: true })
                } else if ws[i + 2] == "false"@ {
                    Some(OptionTypeView::Check { default: false })
                } else {
                    None
                }
            } else {
                None
            }
        } else if t == "spin"@ {
            spin_of_words(ws, i + 1, None, None, None)
        } else if t == "combo"@ {
            combo_of_words(ws, i + 1, Seq::empty(), None)
        } else if t == "button"@ {
            Some(OptionTypeView::Button)
        } else if t == "string"@ {
            if i + 1 < ws.len() && ws[i + 1] == "default"@ {
                Some(OptionTypeView::String { default: join_words(ws.subrange(i + 2, ws.len() as int)) })
            } else {
                None
            }
        } else {
            None
        }
    }
}

/// The message that a line's words stand for, or `None` when they stand for none.
pub open spec fn msg_of_words(ws: Seq<Seq<char>>) -> Option<MsgView> {
    if ws.len() == 0 {
        None
    } else {
        let first = ws[0];
        if first == "id"@ {
            if ws.len() < 2 {
                None
            } else if ws[1] == "name"@ {
                Some(MsgView::Id(IdView::Name(join_words(ws.subrange(2, ws.len() as int)))))
            } else if ws[1] == "author"@ {
                Some(MsgView::Id(IdView::Author(join_words(ws.subrange(2, ws.len() as int)))))
            } else if ws[1] == "version"@ {
                match (unsigned_after(ws, 1, 0xffff_ffff), unsigned_after(ws, 2, 0xffff_ffff), unsigned_after(ws, 3, 0xffff_ffff)) {
                    (Some(a), Some(b), Some(c)) => Some(
                        MsgView::Id(IdView::Version(Version { major: a as u32, minor: b as u32, patch: c as u32 })),
                    ),
                    _ => None,
                }
            } else {
                None
            }
        } else if first == "uciok"@ {
            Some(MsgView::UciOk)
        } else if first == "readyok"@ {
            Some(MsgView::ReadyOk)
        } else if first == "bestmove"@ {
            if ws.len() < 2 {
                None
            } else {
                match uci_move_of_word(ws[1]) {
                    Some(m) => Some(
                        MsgView::BestMove {
                            m,
                            ponder: if ws.len() > 3 && ws[2] == "ponder"@ {
                                uci_move_of_word(ws[3])
                            } else {
                                None
                            },
                        },
                    ),
                    None => None,
                }
            }
        } else if first == "info"@ {
            match info_of_words(ws, 1) {
                Some(i) => Some(MsgView::Info(i)),
                None => None,
            }
        } else if first == "option"@ {
            if ws.len() < 2 || ws[1] != "name"@ {
                None
            } else {
                match option_name(ws, 2, Seq::empty()) {
                    Some((name, k)) => match option_type_of_words(ws, k + 1) {
                        Some(ty) => Some(MsgView::Option { name, ty }),
                        None => None,
                    },
                    None => None,
                }
            }
        } else {
            None
        }
    }
}

/// Reads the number after word `i`, when it is an unsigned decimal of at most `max`.
fn read_unsigned_after(ws: &Vec<Vec<char>>, i: usize, max: u64) -> (r: Option<u64>)
    requires
        i < ws@.len(),
    ensures
        r is Some <==> unsigned_after(views(ws@), i as int, max as int) is Some,
        r matches Some(v) ==> v == unsigned_after(views(ws@), i as int, max as int)->0,
{
    let n = ws.len();
    if i + 1 < n {
        assert(views(ws@)[i + 1] == ws@[i + 1]@);
        parse_unsigned(&ws[i + 1], max)
    } else {
        None
    }
}

/// Reads the information item at word `i`: the item and the word after it.
fn info_item(ws: &Vec<Vec<char>>, i: usize) -> (r: Option<(InfoMsg, usize)>)
    requires
        1 <= i < ws@.len(),
    ensures
        match r {
            Some((m, next)) => i < next <= ws@.len() && info_of_words(views(ws@), i as int) == prepend_info(
                m@,
                info_of_words(views(ws@), next as int),
            ),
            None => info_of_words(views(ws@), i as int) is None,
        },
{
    let ghost w = views(ws@);
    let n = ws.len();
    let x = &ws[i];
    assert(w[i as int] == x@);
    let is_depth = word_is(x, "depth");
    let is_seldepth = word_is(x, "seldepth");
    let is_time = word_is(x, "time");
    let is_nodes = word_is(x, "nodes");
    let is_curmovenumber = word_is(x, "curmovenumber");
    let is_hashfull = word_is(x, "hashfull");
    let is_nps = word_is(x, "nps");
    let is_tbhits = word_is(x, "tbhits");
    let is_cpuload = word_is(x, "cpuload");
    if is_depth || is_seldepth || is_time || is_nodes || is_curmovenumber || is_hashfull || is_nps || is_tbhits
        || is_cpuload {
        let max: u64 = if is_depth || is_seldepth || is_time || is_curmovenumber {
            0xffff_ffff
        } else if is_hashfull || is_cpuload {
            0xffff
        } else {
            0xffff_ffff_ffff_ffff
        };
        let v = match read_unsigned_after(ws, i, max) {
            Some(v) => v,
            None => return None,
        };
        let m = if is_depth {
            InfoMsg::Depth(v as u32)
        } else if is_seldepth {
            InfoMsg::SelDepth(v as u32)
        } else if is_time {
            InfoMsg::Time(v as u32)
        } else if is_nodes {
            InfoMsg::Nodes(v)
        } else if is_curmovenumber {
            InfoMsg::CurrMoveNumber(v as u32)
        } else if is_hashfull {
            InfoMsg::HashFull(v as u16)
        } else if is_nps {
            InfoMsg::Nps(v)
        } else if is_tbhits {
            InfoMsg::TbHits(v)
        } else {
            InfoMsg::CpuLoad(v as u16)
        };
        return Some((m, i + 2));
    }
    let is_pv = word_is(x, "pv");
    let is_refutation = word_is(x, "refutation");
    let is_currline = word_is(x, "currline");
    if is_pv || is_refutation || is_currline {
        let (moves, j) = read_move_run(ws, i + 1);
        proof {
            lemma_move_run_bound(w, i + 1);
        }
        let m = if is_pv {
            InfoMsg::Pv(moves)
        } else if is_refutation {
            InfoMsg::Refutation(moves)
        } else {
            InfoMsg::CurrLine(moves)
        };
        return Some((m, j));
    }
    if word_is(x, "multipv") {
        let order = match read_unsigned_after(ws, i, 0xffff_ffff) {
            Some(v) => v as u32,
            None => return None,
        };
        let (moves, j) = read_move_run(ws, i + 2);
        proof {
            lemma_move_run_bound(w, i + 2);
        }
        return Some((InfoMsg::MultiPv { order, moves }, j));
    }
    if word_is(x, "score") {
        if n - i <= 2 {
            return None;
        }
        let k = &ws[i + 1];
        assert(w[i + 1] == k@);
        assert(w[i + 2] == ws@[i + 2]@);
        let kind = if word_is(k, "cp") {
            ScoreKind::Cp
        } else if word_is(k, "mate") {
            ScoreKind::Mate
        } else if word_is(k, "upperbound") {
            ScoreKind::UpperBound
        } else if word_is(k, "lowerbound") {
            ScoreKind::Lowerbound
        } else {
            return None;
        };
        let value = match parse_signed(&ws[i + 2], 0x8000_0000, 0x7fff_ffff) {
            Some(v) => v as i32,
            None => return None,
        };
        return Some((InfoMsg::Score { value, kind }, i + 3));
    }
    if word_is(x, "curmove") {
        if i + 1 >= n {
            return None;
        }
        assert(w[i + 1] == ws@[i + 1]@);
        return match UciMove::from_chars(&ws[i + 1]) {
            Ok(m) => Some((InfoMsg::CurrMove(m), i + 2)),
            Err(_) => None,
        };
    }
    if word_is(x, "string") {
        let mut s: Vec<char> = Vec::new();
        push_joined(&mut s, ws, i + 1, n);
        assert(s@ =~= join_words(w.subrange(i + 1, w.len() as int)));
        let m = InfoMsg::String(string_of(&s));
        assert(seq![m@] + Seq::<InfoView>::empty() =~= seq![m@]);
        return Some((m, n));
    }
    None
}

/// Reads the words from `i` up to the word `type` as an option name: the name, and the
/// place of that word.
fn read_option_name(ws: &Vec<Vec<char>>, i: usize) -> (r: Option<(Vec<char>, usize)>)
    requires
        i <= ws@.len(),
    ensures
        match r {
            Some((name, k)) => option_name(views(ws@), i as int, Seq::empty()) == Some((name@, k as int)) && k < ws@.len(),
            None => option_name(views(ws@), i as int, Seq::empty()) is None,
        },
{
    let ghost w = views(ws@);
    let mut name: Vec<char> = Vec::new();
    let mut j: usize = i;
    while j < ws.len()
        invariant
            i <= j <= ws@.len(),
            w == views(ws@),
            option_name(w, i as int, Seq::empty()) == option_name(w, j as int, name@),
        decreases ws@.len() - j,
    {
        assert(w[j as int] == ws@[j as int]@);
        if word_is(&ws[j], "type") {
            return Some((name, j));
        }
        push_word(&mut name, &ws[j]);
        j = j + 1;
    }
    None
}

/// Reads the settings of a spin option from word `i` on.
fn read_spin(ws: &Vec<Vec<char>>, i: usize) -> (r: Option<OptionMsgType>)
    requires
        i <= ws@.len(),
    ensures
        match r {
            Some(t) => spin_of_words(views(ws@), i as int, None, None, None) == Some(t@),
            None => spin_of_words(views(ws@), i as int, None, None, None) is None,
        },
{
    let ghost w = views(ws@);
    let mut default: Option<i64> = None;
    let mut max: Option<i64> = None;
    let mut min: Option<i64> = None;
    let mut j: usize = i;
    while j < ws.len()
        invariant
            i <= j <= ws@.len(),
            w == views(ws@),
            spin_of_words(w, i as int, None, None, None) == spin_of_words(
                w,
                j as int,
                match default { Some(d) => Some(d as int), None => None },
                match max { Some(d) => Some(d as int), None => None },
                match min { Some(d) => Some(d as int), None => None },
            ),
        decreases ws@.len() - j,
    {
        let x = &ws[j];
        assert(w[j as int] == x@);
        let is_default = word_is(x, "default");
        let is_max = word_is(x, "max");
        let is_min = word_is(x, "min");
        if !(is_default || is_max || is_min) || j + 1 >= ws.len() {
            return None;
        }
        assert(w[j + 1] == ws@[j + 1]@);
        let v = match parse_signed(&ws[j + 1], 0x8000_0000_0000_0000, 0x7fff_ffff_ffff_ffff) {
            Some(v) => v,
            None => return None,
        };
        if is_default {
            default = Some(v);
        } else if is_max {
            max = Some(v);
        } else {
            min = Some(v);
        }
        j = j + 2;
    }
    match default {
        Some(d) => Some(OptionMsgType::Spin { default: d, min, max }),
        None => None,
    }
}

/// The place of the first value equal to `x`.
fn find_first(options: &Vec<Vec<char>>, x: &Vec<char>) -> (r: Option<usize>)
    ensures
        match r {
            Some(k) => first_index(views(options@), x@) == Some(k as int),
            None => first_index(views(options@), x@) is None,
        },
{
    let ghost o = views(options@);
    let mut k: usize = 0;
    while k < options.len()
        invariant
            k <= options@.len(),
            o == views(options@),
            first_index(o.take(k as int), x@) is None,
        decreases options@.len() - k,
    {
        let ghost t = o.take(k + 1);
        assert(t.drop_last() =~= o.take(k as int));
        assert(t.last() == options@[k as int]@);
        if chars_equal(&options[k], x) {
            proof {
                lemma_first_index_prefix(o, x@, k as int + 1);
            }
            return Some(k);
        }
        k = k + 1;
    }
    assert(o.take(k as int) =~= o);
    None
}

/// Where the first occurrence lies in a prefix, it is the first occurrence in the whole.
proof fn lemma_first_index_prefix(s: Seq<Seq<char>>, x: Seq<char>, n: int)
    requires
        0 <= n <= s.len(),
        first_index(s.take(n), x) is Some,
    ensures
        first_index(s, x) == first_index(s.take(n), x),
    decreases s.len() - n,
{
    if n < s.len() {
        let t = s.take(n + 1);
        assert(t.drop_last() =~= s.take(n));
        lemma_first_index_prefix(s, x, n + 1);
    } else {
        assert(s.take(n) =~= s);
    }
}

/// Reads the values and default of a combo option from the pairs of words from `i` on.
fn read_combo(ws: &Vec<Vec<char>>, i: usize) -> (r: Option<OptionMsgType>)
    requires
        i <= ws@.len(),
    ensures
        match r {
            Some(t) => combo_of_words(views(ws@), i as int, Seq::empty(), None) == Some(t@),
            None => combo_of_words(views(ws@), i as int, Seq::empty(), None) is None,
        },
{
    let ghost w = views(ws@);
    let mut options: Vec<Vec<char>> = Vec::new();
    let mut default: Option<usize> = None;
    let mut j: usize = i;
    assert(views(options@) =~= Seq::empty());
    while j < ws.len()
        invariant
            i <= j <= ws@.len(),
            w == views(ws@),
            default matches Some(d) ==> d < ws@.len(),
            combo_of_words(w, i as int, Seq::empty(), None) == combo_of_words(
                w,
                j as int,
                views(options@),
                match default { Some(d) => Some(w[d as int]), None => None },
            ),
        decreases ws@.len() - j,
    {
        if j + 1 >= ws.len() {
            return None;
        }
        assert(w[j as int] == ws@[j as int]@);
        assert(w[j + 1] == ws@[j + 1]@);
        if word_is(&ws[j], "default") {
            default = Some(j + 1);
        } else if !word_is(&ws[j], "var") {
            return None;
        } else {
            let o = ws[j + 1].clone();
            assert(o@ == ws@[j + 1]@);
            let ghost before = views(options@);
            options.push(o);
            assert(views(options@) =~= before.push(w[j + 1]));
        }
        j = j + 2;
    }
    let d = match default {
        Some(d) => d,
        None => return None,
    };
    assert(w[d as int] == ws@[d as int]@);
    let k = match find_first(&options, &ws[d]) {
        Some(k) => k,
        None => return None,
    };
    let mut values: Vec<String> = Vec::new();
    let mut m: usize = 0;
    while m < options.len()
        invariant
            m <= options@.len(),
            strings_view(values@) == views(options@).take(m as int),
        decreases options@.len() - m,
    {
        let ghost before = strings_view(values@);
        values.push(string_of(&options[m]));
        assert(strings_view(values@) =~= before.push(options@[m as int]@));
        assert(views(options@).take(m + 1) =~= views(options@).take(m as int).push(options@[m as int]@));
        m = m + 1;
    }
    assert(views(options@).take(m as int) =~= views(options@));
    Some(OptionMsgType::Combo { options: values, default: k })
}

/// Reads the type of an option, whose name word is at `i`.
fn read_option_type(ws: &Vec<Vec<char>>, i: usize) -> (r: Option<OptionMsgType>)
    requires
        i <= ws@.len(),
    ensures
        match r {
            Some(t) => option_type_of_words(views(ws@), i as int) == Some(t@),
            None => option_type_of_words(views(ws@), i as int) is None,
        },
{
    let ghost w = views(ws@);
    let n = ws.len();
    if i >= n {
        return None;
    }
    let t = &ws[i];
    assert(w[i as int] == t@);
    if word_is(t, "check") {
        if n - i <= 2 || !word_is(&ws[i + 1], "default") {
            proof {
                if i + 1 < n {
                    assert(w[i + 1] == ws@[i + 1]@);
                }
            }
            return None;
        }
        assert(w[i + 1] == ws@[i + 1]@);
        assert(w[i + 2] == ws@[i + 2]@);
        if word_is(&ws[i + 2], "true") {
            return Some(OptionMsgType::Check { default: true });
        } else if word_is(&ws[i + 2], "false") {
            return Some(OptionMsgType::Check { default: false });
        } else {
            return None;
        }
    }
    if word_is(t, "spin") {
        return read_spin(ws, i + 1);
    }
    if word_is(t, "combo") {
        return read_combo(ws, i + 1);
    }
    if word_is(t, "button") {
        return Some(OptionMsgType::Button);
    }
    if word_is(t, "string") {
        if i + 1 >= n || !word_is(&ws[i + 1], "default") {
            proof {
                if i + 1 < n {
                    assert(w[i + 1] == ws@[i + 1]@);
                }
            }
            return None;
        }
        assert(w[i + 1] == ws@[i + 1]@);
        let mut d: Vec<char> = Vec::new();
        push_joined(&mut d, ws, i + 2, n);
        return Some(OptionMsgType::String { default: string_of(&d) });
    }
    None
}

impl Msg {
    /// Parses a line sent by an engine, returns none if it is no valid message.
    pub fn from_line(line: &str) -> (r: Option<Msg>)
        ensures
            match r {
                Some(m) => msg_of_words(words(line@)) == Some(m@),
                None => msg_of_words(words(line@)) is None,
            },
    {
        let ws = split_words(line);
        let ghost w = views(ws@);
        assert(w == words(line@));
        let n = ws.len();
        if n == 0 {
            return None;
        }
        let first = &ws[0];
        assert(w[0] == first@);
        if word_is(first, "id") {
            if n < 2 {
                return None;
            }
            assert(w[1] == ws@[1]@);
            if word_is(&ws[1], "name") {
                let mut s: Vec<char> = Vec::new();
                push_joined(&mut s, &ws, 2, n);
                return Some(Msg::Id(Id::Name(string_of(&s))));
            }
            if word_is(&ws[1], "author") {
                let mut s: Vec<char> = Vec::new();
                push_joined(&mut s, &ws, 2, n);
                return Some(Msg::Id(Id::Author(string_of(&s))));
            }
            if word_is(&ws[1], "version") {
                let major = match read_unsigned_after(&ws, 1, 0xffff_ffff) {
                    Some(v) => v as u32,
                    None => return None,
                };
                if n < 3 {
                    return None;
                }
                let minor = match read_unsigned_after(&ws, 2, 0xffff_ffff) {
                    Some(v) => v as u32,
                    None => return None,
                };
                if n < 4 {
                    return None;
                }
                let patch = match read_unsigned_after(&ws, 3, 0xffff_ffff) {
                    Some(v) => v as u32,
                    None => return None,
                };
                return Some(Msg::Id(Id::Version(Version { major, minor, patch })));
            }
            return None;
        }
        if word_is(first, "uciok") {
            return Some(Msg::UciOk);
        }
        if word_is(first, "readyok") {
            return Some(Msg::ReadyOk);
        }
        if word_is(first, "bestmove") {
            if n < 2 {
                return None;
            }
            assert(w[1] == ws@[1]@);
            let m = match UciMove::from_chars(&ws[1]) {
                Ok(m) => m,
                Err(_) => return None,
            };
            let mut ponder: Option<UciMove> = None;
            if n > 3 && word_is(&ws[2], "ponder") {
                assert(w[2] == ws@[2]@ && w[3] == ws@[3]@);
                ponder = match UciMove::from_chars(&ws[3]) {
                    Ok(p) => Some(p),
                    Err(_) => None,
                };
            }
            proof {
                if n > 3 {
                    assert(w[2] == ws@[2]@);
                }
            }
            return Some(Msg::BestMove { mov: m, ponder });
        }
        if word_is(first, "info") {
            let mut info: Vec<InfoMsg> = Vec::new();
            let mut i: usize = 1;
            assert(msg_of_words(words(line@)) == match info_of_words(w, 1) {
                Some(i) => Some(MsgView::Info(i)),
                None => None,
            });
            assert(infos_view(info@) =~= Seq::empty());
            while i < n
                invariant
                    1 <= i <= n,
                    n == ws@.len(),
                    w == views(ws@),
                    msg_of_words(words(line@)) == match info_of_words(w, 1) {
                        Some(i) => Some(MsgView::Info(i)),
                        None => None,
                    },
                    info_of_words(w, 1) == match info_of_words(w, i as int) {
                        Some(rest) => Some(infos_view(info@) + rest),
                        None => None,
                    },
                decreases n - i,
            {
                let ghost before = infos_view(info@);
                match info_item(&ws, i) {
                    Some((m, next)) => {
                        info.push(m);
                        proof {
                            assert(infos_view(info@) =~= before.push(m@));
                            if info_of_words(w, next as int) is Some {
                                assert(before.push(m@) + info_of_words(w, next as int)->0 =~= before + (seq![m@]
                                    + info_of_words(w, next as int)->0));
                            }
                        }
                        i = next;
                    },
                    None => {
                        return None;
                    },
                }
            }
            assert(infos_view(info@) + Seq::<InfoView>::empty() =~= infos_view(info@));
            return Some(Msg::Info(info));
        }
        if word_is(first, "option") {
            if n < 2 || !word_is(&ws[1], "name") {
                proof {
                    if n >= 2 {
                        assert(w[1] == ws@[1]@);
                    }
                }
                return None;
            }
            assert(w[1] == ws@[1]@);
            let (name, k) = match read_option_name(&ws, 2) {
                Some(x) => x,
                None => return None,
            };
            let kind = match read_option_type(&ws, k + 1) {
                Some(t) => t,
                None => return None,
            };
            return Some(Msg::Option(OptionMsg { name: string_of(&name), kind }));
        }
        None
    }
}

/// The word of a score kind. An upper bound is written as `lowerbound`, as a lower one is:
/// the printer has always written it so, and a reader of its lines reads it back as a lower
/// bound.
pub open spec fn score_kind_text(k: ScoreKind) -> Seq<char> {
    match k {
        ScoreKind::Cp => "cp"@,
        ScoreKind::Mate => "mate"@,
        ScoreKind::Lowerbound => "lowerbound"@,
        ScoreKind::UpperBound => "lowerbound"@,
    }
}

/// The text of an item of search information, with the space before it.
pub open spec fn info_text(i: InfoView) -> Seq<char> {
    match i {
        InfoView::Depth(x) => " depth "@ + decimal(x as nat),
        InfoView::SelDepth(x) => " seldepth "@ + decimal(x as nat),
        InfoView::Time(x) => " time "@ + decimal(x as nat),
        InfoView::Nodes(x) => " nodes "@ + decimal(x as nat),
        InfoView::Pv(ms) => " pv"@ + moves_spaced(ms),
        InfoView::MultiPv { order, moves } => " multipv "@ + decimal(order as nat) + moves_spaced(moves),
        InfoView::Score { value, kind } => " score "@ + score_kind_text(kind) + seq![' '] + signed_decimal(value),
        InfoView::CurrMove(m) => " currmove "@ + uci_move_text(m),
        InfoView::CurrMoveNumber(x) => " currmovenumber "@ + decimal(x as nat),
        InfoView::HashFull(x) => " hashfull "@ + decimal(x as nat),
        InfoView::Nps(x) => " nps "@ + decimal(x as nat),
        InfoView::TbHits(x) => " tbhits "@ + decimal(x as nat),
        InfoView::CpuLoad(x) => " cpuload "@ + decimal(x as nat),
        InfoView::String(s) => " string "@ + s,
        InfoView::Refutation(ms) => " refutation"@ + moves_spaced(ms),
        InfoView::CurrLine(ms) => " currline"@ + moves_spaced(ms),
    }
}

/// The texts of information items one after another.
pub open spec fn infos_text(is: Seq<InfoView>) -> Seq<char>
    decreases is.len(),
{
    if is.len() == 0 {
        Seq::empty()
    } else {
        infos_text(is.drop_last()) + info_text(is.last())
    }
}

/// The combo values, each after the word `var` and a space, with nothing between them.
pub open spec fn combo_vars_text(os: Seq<Seq<char>>) -> Seq<char>
    decreases os.len(),
{
    if os.len() == 0 {
        Seq::empty()
    } else {
        combo_vars_text(os.drop_last()) + "var "@ + os.last()
    }
}

/// The text of an option type, with the space before it.
pub open spec fn option_type_text(t: OptionTypeView) -> Seq<char> {
    match t {
        OptionTypeView::String { default } => " type string default "@ + default,
        OptionTypeView::Button => " type button"@,
        OptionTypeView::Check { default } => " type check default "@ + if default {
            "true"@
        } else {
            "false"@
        },
        OptionTypeView::Combo { options, default } => " type combo default "@ + options[default]
            + combo_vars_text(options),
        OptionTypeView::Spin { default, min, max } => " type spin default "@ + signed_decimal(default)
            + match min {
            Some(m) => " min "@ + signed_decimal(m),
            None => Seq::empty(),
        } + match max {
            Some(m) => " max "@ + signed_decimal(m),
            None => Seq::empty(),
        },
    }
}

/// Whether a message can be written: a combo option's default is one of its values.
pub open spec fn msg_printable(m: MsgView) -> bool {
    match m {
        MsgView::Option { ty: OptionTypeView::Combo { options, default }, .. } => 0 <= default < options.len(),
        _ => true,
    }
}

/// The text of a message.
pub open spec fn msg_text(m: MsgView) -> Seq<char> {
    match m {
        MsgView::Id(IdView::Name(x)) => "id name "@ + x,
        MsgView::Id(IdView::Author(x)) => "id author "@ + x,
        MsgView::Id(IdView::Version(v)) => "id version "@ + decimal(v.major as nat) + seq![' '] + decimal(
            v.minor as nat,
        ) + seq![' '] + decimal(v.patch as nat),
        MsgView::UciOk => "uciok"@,
        MsgView::ReadyOk => "readyok"@,
        MsgView::BestMove { m, ponder } => "bestmove "@ + uci_move_text(m) + match ponder {
            Some(p) => " ponder "@ + uci_move_text(p),
            None => Seq::empty(),
        },
        MsgView::Info(is) => "info"@ + infos_text(is),
        MsgView::Option { name, ty } => "option name "@ + name + option_type_text(ty),
    }
}

/// Appends the text of an item of search information.
fn push_info(out: &mut Vec<char>, i: &InfoMsg)
    ensures
        final(out)@ == old(out)@ + info_text(i@),
{
    match i {
        InfoMsg::Depth(x) => {
            push_str(out, " depth ");
            push_decimal(out, *x as u64);
        },
        InfoMsg::SelDepth(x) => {
            push_str(out, " seldepth ");
            push_decimal(out, *x as u64);
        },
        InfoMsg::Time(x) => {
            push_str(out, " time ");
            push_decimal(out, *x as u64);
        },
        InfoMsg::Nodes(x) => {
            push_str(out, " nodes ");
            push_decimal(out, *x);
        },
        InfoMsg::Pv(ms) => {
            push_str(out, " pv");
            push_moves_spaced(out, ms);
        },
        InfoMsg::MultiPv { order, moves } => {
            push_str(out, " multipv ");
            push_decimal(out, *order as u64);
            push_moves_spaced(out, moves);
        },
        InfoMsg::Score { value, kind } => {
            push_str(out, " score ");
            match kind {
                ScoreKind::Cp => push_str(out, "cp"),
                ScoreKind::Mate => push_str(out, "mate"),
                ScoreKind::Lowerbound => push_str(out, "lowerbound"),
                ScoreKind::UpperBound => push_str(out, "lowerbound"),
            }
            out.push(' ');
            push_signed(out, *value as i64);
        },
        InfoMsg::CurrMove(m) => {
            push_str(out, " currmove ");
            m.push_text(out);
        },
        InfoMsg::CurrMoveNumber(x) => {
            push_str(out, " currmovenumber ");
            push_decimal(out, *x as u64);
        },
        InfoMsg::HashFull(x) => {
            push_str(out, " hashfull ");
            push_decimal(out, *x as u64);
        },
        InfoMsg::Nps(x) => {
            push_str(out, " nps ");
            push_decimal(out, *x);
        },
        InfoMsg::TbHits(x) => {
            push_str(out, " tbhits ");
            push_decimal(out, *x);
        },
        InfoMsg::CpuLoad(x) => {
            push_str(out, " cpuload ");
            push_decimal(out, *x as u64);
        },
        InfoMsg::String(x) => {
            push_str(out, " string ");
            push_str(out, x.as_str());
        },
        InfoMsg::Refutation(ms) => {
            push_str(out, " refutation");
            push_moves_spaced(out, ms);
        },
        InfoMsg::CurrLine(ms) => {
            push_str(out, " currline");
            push_moves_spaced(out, ms);
        },
    }
    assert(out@ =~= old(out)@ + info_text(i@));
}

/// Appends the texts of moves, each after a space.
fn push_moves_spaced(out: &mut Vec<char>, ms: &Vec<UciMove>)
    ensures
        final(out)@ == old(out)@ + moves_spaced(moves_view(ms@)),
{
    let mut i: usize = 0;
    while i < ms.len()
        invariant
            i <= ms@.len(),
            out@ == old(out)@ + moves_spaced(moves_view(ms@.take(i as int))),
        decreases ms@.len() - i,
    {
        let ghost before = out@;
        out.push(' ');
        ms[i].push_text(out);
        let ghost t = moves_view(ms@.take(i + 1));
        assert(t.drop_last() =~= moves_view(ms@.take(i as int)));
        assert(t.last() == ms@[i as int]@);
        assert(out@ =~= before + seq![' '] + uci_move_text(ms@[i as int]@));
        i = i + 1;
    }
    assert(ms@.take(i as int) =~= ms@);
}

/// Appends the text of an option type.
fn push_option_type(out: &mut Vec<char>, t: &OptionMsgType)
    requires
        t@ matches OptionTypeView::Combo { options, default } ==> 0 <= default < options.len(),
    ensures
        final(out)@ == old(out)@ + option_type_text(t@),
{
    match t {
        OptionMsgType::String { default } => {
            push_str(out, " type string default ");
            push_str(out, default.as_str());
        },
        OptionMsgType::Button => push_str(out, " type button"),
        OptionMsgType::Check { default } => {
            push_str(out, " type check default ");
            if *default {
                push_str(out, "true");
            } else {
                push_str(out, "false");
            }
        },
        OptionMsgType::Combo { options, default } => {
            push_str(out, " type combo default ");
            assert(strings_view(options@)[*default as int] == options@[*default as int]@);
            push_str(out, options[*default].as_str());
            let ghost head = out@;
            let mut i: usize = 0;
            while i < options.len()
                invariant
                    i <= options@.len(),
                    out@ == head + combo_vars_text(strings_view(options@).take(i as int)),
                decreases options@.len() - i,
            {
                push_str(out, "var ");
                push_str(out, options[i].as_str());
                let ghost t = strings_view(options@).take(i + 1);
                assert(t.drop_last() =~= strings_view(options@).take(i as int));
                assert(t.last() == options@[i as int]@);
                i = i + 1;
            }
            assert(strings_view(options@).take(i as int) =~= strings_view(options@));
        },
        OptionMsgType::Spin { default, min, max } => {
            push_str(out, " type spin default ");
            push_signed(out, *default);
            match min {
                Some(m) => {
                    push_str(out, " min ");
                    push_signed(out, *m);
                },
                None => {},
            }
            match max {
                Some(m) => {
                    push_str(out, " max ");
                    push_signed(out, *m);
                },
                None => {},
            }
        },
    }
    assert(out@ =~= old(out)@ + option_type_text(t@));
}

impl Msg {
    /// The text of the message, as sent to a GUI.
    pub fn to_string(&self) -> (r: String)
        requires
            msg_printable(self@),
        ensures
            r@ == msg_text(self@),
    {
        let mut out: Vec<char> = Vec::new();
        match self {
            Msg::Id(Id::Name(x)) => {
                push_str(&mut out, "id name ");
                push_str(&mut out, x.as_str());
            },
            Msg::Id(Id::Author(x)) => {
                push_str(&mut out, "id author ");
                push_str(&mut out, x.as_str());
            },
            Msg::Id(Id::Version(v)) => {
                push_str(&mut out, "id version ");
                push_decimal(&mut out, v.major as u64);
                out.push(' ');
                push_decimal(&mut out, v.minor as u64);
                out.push(' ');
                push_decimal(&mut out, v.patch as u64);
            },
            Msg::UciOk => push_str(&mut out, "uciok"),
            Msg::ReadyOk => push_str(&mut out, "readyok"),
            Msg::BestMove { mov, ponder } => {
                push_str(&mut out, "bestmove ");
                mov.push_text(&mut out);
                match ponder {
                    Some(p) => {
                        push_str(&mut out, " ponder ");
                        p.push_text(&mut out);
                    },
                    None => {},
                }
            },
            Msg::Info(is) => {
                push_str(&mut out, "info");
                let ghost head = out@;
                let mut i: usize = 0;
                while i < is.len()
                    invariant
                        i <= is@.len(),
                        out@ == head + infos_text(infos_view(is@).take(i as int)),
                    decreases is@.len() - i,
                {
                    push_info(&mut out, &is[i]);
                    let ghost t = infos_view(is@).take(i + 1);
                    assert(t.drop_last() =~= infos_view(is@).take(i as int));
                    i = i + 1;
                }
                assert(infos_view(is@).take(i as int) =~= infos_view(is@));
            },
            Msg::Option(o) => {
                push_str(&mut out, "option name ");
                push_str(&mut out, o.name.as_str());
                push_option_type(&mut out, &o.kind);
            },
        }
        assert(out@ =~= msg_text(self@));
        string_of(&out)
    }
}

} // verus!
