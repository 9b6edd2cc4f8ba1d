use vstd::prelude::*;
use super::moves::{UciMove, move_text, moves_spaced, push_moves_spaced, uci_move_at};
use super::parse::{
    Step, agrees, bounded, rest_of_line, rest_of_line_exec, skip_blanks, skip_blanks_exec, slice_chars,
    space1, space1_exec, tag_at, tag_exec, unsigned_at, unsigned_exec, word_end, word_end_exec,
};
use super::req::{
    error_text, keyword_number, keyword_signed, keyword_unsigned, more_moves, more_moves_exec, moves_view,
    opt_int, opt_text, push_cut, push_opt, push_opt_unsigned,
};
use crate::chess_core::mov::Promotion;
use crate::text::{chars_of, push_decimal, push_signed, push_str, signed_decimal, string_of};

verus! {

/// A response from the engine to the GUI.
#[derive(Clone, Debug)]
pub enum Response {
    UciOk,
    ReadyOk,
    Id(ResponseId),
    BestMove { mov: UciMove, ponder: Option<UciMove> },
    Info(Vec<ResponseInfo>),
    Option(ResponseOption),
}

/// A response line that could not be read, with the part of the line where reading failed.
#[derive(Debug, Clone)]
pub struct UciResponseError {
    at: String,
}

/// What an engine says about itself.
#[derive(Clone, Debug)]
pub enum ResponseId {
    Name(String),
    Author(String),
}

/// One item of search information.
#[derive(Clone, Debug)]
pub enum ResponseInfo {
    Depth(u32),
    SelectiveDepth(u32),
    Time(u64),
    Nodes(u64),
    Pv(Vec<UciMove>),
    MultiPv(u32),
    Score(ResponseScore),
    CurrMove(UciMove),
    CurrMoveNumber(u32),
    Hashfull(u16),
    Nps(u64),
    TbHits(u64),
    SbHits(u64),
    CpuLoad(u16),
    String(String),
    Refutation(Vec<UciMove>),
    CurrLine { cpu: Option<u32>, moves: Vec<UciMove> },
}

/// A score: mate in some moves, centipawns, and whether it is a bound.
#[derive(Clone, Copy, Debug)]
pub struct ResponseScore {
    pub mate: Option<u32>,
    pub cp: Option<i64>,
    pub bound: ResponseBound,
}

/// Whether a score is exact or a bound.
#[derive(Clone, Copy, Eq, PartialEq, Debug, Structural)]
pub enum ResponseBound {
    Exact,
    Upperbound,
    Lowerbound,
}

/// An option an engine offers.
#[derive(Clone, Debug)]
pub struct ResponseOption {
    pub name: String,
    pub kind: OptionKind,
}

/// The type of an engine option, with what the engine gives of its default and range.
#[derive(Clone, Debug)]
#[allow(inconsistent_fields)]
pub enum OptionKind {
    String { default: Option<String> },
    Spin { default: Option<i64>, min: Option<i64>, max: Option<i64> },
    Button,
    Check { default: Option<bool> },
    Combo { options: Vec<String>, default: Option<String> },
}

/// The content of a score.
pub struct ScoreView {
    pub mate: Option<int>,
    pub cp: Option<int>,
    pub bound: ResponseBound,
}

/// The content of an engine's statement about itself.
pub enum IdView {
    Name(Seq<char>),
    Author(Seq<char>),
}

/// The content of an item of search information.
pub enum InfoView {
    Depth(int),
    SelectiveDepth(int),
    Time(int),
    Nodes(int),
    Pv(Seq<(int, int, Option<Promotion>)>),
    MultiPv(int),
    Score(ScoreView),
    CurrMove((int, int, Option<Promotion>)),
    CurrMoveNumber(int),
    Hashfull(int),
    Nps(int),
    TbHits(int),
    SbHits(int),
    CpuLoad(int),
    String(Seq<char>),
    Refutation(Seq<(int, int, Option<Promotion>)>),
    CurrLine { cpu: Option<int>, moves: Seq<(int, int, Option<Promotion>)> },
}

/// The content of an option type.
#[allow(inconsistent_fields)]
pub enum KindView {
    String { default: Option<Seq<char>> },
    Spin { default: Option<int>, min: Option<int>, max: Option<int> },
    Button,
    Check { default: Option<bool> },
    Combo { options: Seq<Seq<char>>, default: Option<Seq<char>> },
}

/// The content of a response.
pub enum ResponseView {
    UciOk,
    ReadyOk,
    Id(IdView),
    BestMove { m: (int, int, Option<Promotion>), ponder: Option<(int, int, Option<Promotion>)> },
    Info(Seq<InfoView>),
    Option { name: Seq<char>, kind: KindView },
}

impl View for ResponseScore {
    type V = ScoreView;

    open spec fn view(&self) -> ScoreView {
        ScoreView { mate: opt_int(self.mate), cp: opt_int(self.cp), bound: self.bound }
    }
}

impl View for ResponseId {
    type V = IdView;

    open spec fn view(&self) -> IdView {
        match self {
            ResponseId::Name(x) => IdView::Name(x@),
            ResponseId::Author(x) => IdView::Author(x@),
        }
    }
}

impl View for ResponseInfo {
    type V = InfoView;

    open spec fn view(&self) -> InfoView {
        match self {
            ResponseInfo::Depth(x) => InfoView::Depth(*x as int),
            ResponseInfo::SelectiveDepth(x) => InfoView::SelectiveDepth(*x as int),
            ResponseInfo::Time(x) => InfoView::Time(*x as int),
            ResponseInfo::Nodes(x) => InfoView::Nodes(*x as int),
            ResponseInfo::Pv(m) => InfoView::Pv(moves_view(m@)),
            ResponseInfo::MultiPv(x) => InfoView::MultiPv(*x as int),
            ResponseInfo::Score(x) => InfoView::Score(x@),
            ResponseInfo::CurrMove(m) => InfoView::CurrMove(m@),
            ResponseInfo::CurrMoveNumber(x) => InfoView::CurrMoveNumber(*x as int),
            ResponseInfo::Hashfull(x) => InfoView::Hashfull(*x as int),
            ResponseInfo::Nps(x) => InfoView::Nps(*x as int),
            ResponseInfo::TbHits(x) => InfoView::TbHits(*x as int),
            ResponseInfo::SbHits(x) => InfoView::SbHits(*x as int),
            ResponseInfo::CpuLoad(x) => InfoView::CpuLoad(*x as int),
            ResponseInfo::String(x) => InfoView::String(x@),
            ResponseInfo::Refutation(m) => InfoView::Refutation(moves_view(m@)),
            ResponseInfo::CurrLine { cpu, moves } => InfoView::CurrLine { cpu: opt_int(*cpu), moves: moves_view(moves@) },
        }
    }
}

/// The contents of a list of strings.
pub open spec fn strings_view(s: Seq<String>) -> Seq<Seq<char>> {
    s.map_values(|x: String| x@)
}

/// The content of an optional string.
pub open spec fn opt_string(s: Option<String>) -> Option<Seq<char>> {
    match s {
        Some(x) => Some(x@),
        None => None,
    }
}

impl View for OptionKind {
    type V = KindView;

    open spec fn view(&self) -> KindView {
        match self {
            OptionKind::String { default } => KindView::String { default: opt_string(*default) },
            OptionKind::Spin { default, min, max } => KindView::Spin {
                default: opt_int(*default),
                min: opt_int(*min),
                max: opt_int(*max),
            },
            OptionKind::Button => KindView::Button,
            OptionKind::Check { default } => KindView::Check { default: *default },
            OptionKind::Combo { options, default } => KindView::Combo {
                options: strings_view(options@),
                default: opt_string(*default),
            },
        }
    }
}

/// The contents of a list of information items.
pub open spec fn infos_view(s: Seq<ResponseInfo>) -> Seq<InfoView> {
    s.map_values(|x: ResponseInfo| x@)
}

impl View for Response {
    type V = ResponseView;

    open spec fn view(&self) -> ResponseView {
        match self {
            Response::UciOk => ResponseView::UciOk,
            Response::ReadyOk => ResponseView::ReadyOk,
            Response::Id(x) => ResponseView::Id(x@),
            Response::BestMove { mov, ponder } => ResponseView::BestMove {
                m: mov@,
                ponder: match ponder {
                    Some(p) => Some(p@),
                    None => None,
                },
            },
            Response::Info(x) => ResponseView::Info(infos_view(x@)),
            Response::Option(o) => ResponseView::Option { name: o.name@, kind: o.kind@ },
        }
    }
}

/// Reading `id`, then `author` or `name` and the rest of the line, at `i`.
pub open spec fn id_at(s: Seq<char>, i: int) -> Step<IdView> {
    if !tag_at(s, i, "id"@) {
        Step::Error(i as usize)
    } else {
        match space1(s, i + 2) {
            Step::Done(j, _) => {
                let j = j as int;
                let author = if tag_at(s, j, "author"@) {
                    match space1(s, j + 6) {
                        Step::Done(k, _) => match rest_of_line(s, k as int) {
                            Step::Done(e, t) => Some((e, t)),
                            _ => None,
                        },
                        _ => None,
                    }
                } else {
                    None
                };
                match author {
                    Some((e, t)) => Step::Done(e, IdView::Author(t)),
                    None => if !tag_at(s, j, "name"@) {
                        Step::Error(j as usize)
                    } else {
                        match space1(s, j + 4) {
                            Step::Done(k, _) => match rest_of_line(s, k as int) {
                                Step::Done(e, t) => Step::Done(e, IdView::Name(t)),
                                Step::Error(x) => Step::Error(x),
                                Step::Failure(x) => Step::Failure(x),
                            },
                            _ => Step::Error((j + 4) as usize),
                        }
                    },
                }
            },
            _ => Step::Error((i + 2) as usize),
        }
    }
}

/// Reading `bestmove`, a move, and optionally `ponder` and a move, at `i`.
pub open spec fn bestmove_at(s: Seq<char>, i: int) -> Step<ResponseView> {
    if !tag_at(s, i, "bestmove"@) {
        Step::Error(i as usize)
    } else {
        match space1(s, i + 8) {
            Step::Done(j, _) => match uci_move_at(s, j as int) {
                Step::Done(g, m) => {
                    let ponder = match space1(s, g as int) {
                        Step::Done(a, _) => if tag_at(s, a as int, "ponder"@) {
                            match space1(s, a + 6) {
                                Step::Done(b, _) => Some(b),
                                _ => None,
                            }
                        } else {
                            None
                        },
                        _ => None,
                    };
                    match ponder {
                        Some(b) => match uci_move_at(s, b as int) {
                            Step::Done(h, p) => Step::Done(h, ResponseView::BestMove { m, ponder: Some(p) }),
                            Step::Error(x) => Step::Failure(x),
                            Step::Failure(x) => Step::Failure(x),
                        },
                        None => Step::Done(g, ResponseView::BestMove { m, ponder: None }),
                    }
                },
                Step::Error(x) => Step::Failure(x),
                Step::Failure(x) => Step::Failure(x),
            },
            _ => Step::Error((i + 8) as usize),
        }
    }
}

/// One part of a score.
pub enum ScorePart {
    Mate(int),
    Cp(int),
    Bound(ResponseBound),
}

/// Reading one part of a score at `q`.
pub open spec fn score_part_at(s: Seq<char>, q: int) -> Option<(int, ScorePart)> {
    if keyword_number(s, q, "mate"@, false, 0, 0xffff_ffff) is Some {
        let (e, v) = keyword_number(s, q, "mate"@, false, 0, 0xffff_ffff)->0;
        Some((e, ScorePart::Mate(v)))
    } else if keyword_number(s, q, "cp"@, true, -0x8000_0000_0000_0000, 0x7fff_ffff_ffff_ffff) is Some {
        let (e, v) = keyword_number(s, q, "cp"@, true, -0x8000_0000_0000_0000, 0x7fff_ffff_ffff_ffff)->0;
        Some((e, ScorePart::Cp(v)))
    } else if tag_at(s, q, "lowerbound"@) {
        Some((q + 10, ScorePart::Bound(ResponseBound::Lowerbound)))
    } else if tag_at(s, q, "upperbound"@) {
        Some((q + 10, ScorePart::Bound(ResponseBound::Upperbound)))
    } else {
        None
    }
}

/// The score after one more part is applied; a later part of the same kind wins.
pub open spec fn apply_score_part(sc: ScoreView, o: ScorePart) -> ScoreView {
    match o {
        ScorePart::Mate(v) => ScoreView { mate: Some(v), ..sc },
        ScorePart::Cp(v) => ScoreView { cp: Some(v), ..sc },
        ScorePart::Bound(b) => ScoreView { bound: b, ..sc },
    }
}

/// Reading more score parts after one ending at `e`, each after spaces.
pub open spec fn more_score_parts(s: Seq<char>, e: int, acc: ScoreView) -> (int, ScoreView)
    decreases s.len() - e,
{
    if e < 0 || e >= s.len() {
        (e, acc)
    } else {
        match space1(s, e) {
            Step::Done(f, _) => match score_part_at(s, f as int) {
                Some((g, o)) => if e < g <= s.len() {
                    more_score_parts(s, g, apply_score_part(acc, o))
                } else {
                    (e, acc)
                },
                None => (e, acc),
            },
            _ => (e, acc),
        }
    }
}

/// A score with nothing given.
pub open spec fn no_score() -> ScoreView {
    ScoreView { mate: None, cp: None, bound: ResponseBound::Exact }
}

/// Reading `score` and its parts at `p`.
pub open spec fn score_at(s: Seq<char>, p: int) -> Option<(int, ScoreView)> {
    if !tag_at(s, p, "score"@) {
        None
    } else {
        match space1(s, p + 5) {
            Step::Done(k, _) => match score_part_at(s, k as int) {
                Some((e, o)) => Some(more_score_parts(s, e, apply_score_part(no_score(), o))),
                None => None,
            },
            _ => None,
        }
    }
}

/// Reading a keyword, spaces and a list of moves at `p`.
pub open spec fn keyword_moves(s: Seq<char>, p: int, w: Seq<char>) -> Option<(int, Seq<(int, int, Option<Promotion>)>)> {
    if !tag_at(s, p, w) {
        None
    } else {
        match space1(s, p + w.len()) {
            Step::Done(k, _) => match uci_move_at(s, k as int) {
                Step::Done(g, m) => Some(more_moves(s, g as int, seq![m])),
                _ => None,
            },
            _ => None,
        }
    }
}

/// An item with a keyword and a number, as a step.
pub open spec fn number_info(s: Seq<char>, p: int, w: Seq<char>, max: int) -> Option<(int, int)> {
    keyword_number(s, p, w, false, 0, max)
}

/// Reading an information item other than `currline` at `p`, the first way that works.
pub open spec fn plain_info_at(s: Seq<char>, p: int) -> Option<(int, InfoView)> {
    let u16_max = 0xffff;
    let u32_max = 0xffff_ffff;
    let u64_max = 0xffff_ffff_ffff_ffff;
    if number_info(s, p, "depth"@, u32_max) is Some {
        let (e, v) = number_info(s, p, "depth"@, u32_max)->0;
        Some((e, InfoView::Depth(v)))
    } else if number_info(s, p, "seldepth"@, u32_max) is Some {
        let (e, v) = number_info(s, p, "seldepth"@, u32_max)->0;
        Some((e, InfoView::SelectiveDepth(v)))
    } else if number_info(s, p, "time"@, u64_max) is Some {
        let (e, v) = number_info(s, p, "time"@, u64_max)->0;
        Some((e, InfoView::Time(v)))
    } else if number_info(s, p, "nodes"@, u64_max) is Some {
        let (e, v) = number_info(s, p, "nodes"@, u64_max)->0;
        Some((e, InfoView::Nodes(v)))
    } else if number_info(s, p, "nps"@, u64_max) is Some {
        let (e, v) = number_info(s, p, "nps"@, u64_max)->0;
        Some((e, InfoView::Nps(v)))
    } else if keyword_moves(s, p, "pv"@) is Some {
        let (e, ms) = keyword_moves(s, p, "pv"@)->0;
        Some((e, InfoView::Pv(ms)))
    } else if number_info(s, p, "multipv"@, u32_max) is Some {
        let (e, v) = number_info(s, p, "multipv"@, u32_max)->0;
        Some((e, InfoView::MultiPv(v)))
    } else if score_at(s, p) is Some {
        let (e, sc) = score_at(s, p)->0;
        Some((e, InfoView::Score(sc)))
    } else if current_move_at(s, p) is Some {
        let (e, m) = current_move_at(s, p)->0;
        Some((e, InfoView::CurrMove(m)))
    } else if number_info(s, p, "currmovenumber"@, u32_max) is Some {
        let (e, v) = number_info(s, p, "currmovenumber"@, u32_max)->0;
        Some((e, InfoView::CurrMoveNumber(v)))
    } else if number_info(s, p, "hashfull"@, u16_max) is Some {
        let (e, v) = number_info(s, p, "hashfull"@, u16_max)->0;
        Some((e, InfoView::Hashfull(v)))
    } else if number_info(s, p, "tbhits"@, u64_max) is Some {
        let (e, v) = number_info(s, p, "tbhits"@, u64_max)->0;
        Some((e, InfoView::TbHits(v)))
    } else if number_info(s, p, "sbhits"@, u64_max) is Some {
        let (e, v) = number_info(s, p, "sbhits"@, u64_max)->0;
        Some((e, InfoView::SbHits(v)))
    } else if number_info(s, p, "cpuload"@, u16_max) is Some {
        let (e, v) = number_info(s, p, "cpuload"@, u16_max)->0;
        Some((e, InfoView::CpuLoad(v)))
    } else if string_info_at(s, p) is Some {
        let (e, t) = string_info_at(s, p)->0;
        Some((e, InfoView::String(t)))
    } else if keyword_moves(s, p, "refutation"@) is Some {
        let (e, ms) = keyword_moves(s, p, "refutation"@)->0;
        Some((e, InfoView::Refutation(ms)))
    } else {
        None
    }
}

/// Reading `currmove`, spaces and a move at `p`.
pub open spec fn current_move_at(s: Seq<char>, p: int) -> Option<(int, (int, int, Option<Promotion>))> {
    if !tag_at(s, p, "currmove"@) {
        None
    } else {
        match space1(s, p + 8) {
            Step::Done(k, _) => match uci_move_at(s, k as int) {
                Step::Done(e, m) => Some((e as int, m)),
                _ => None,
            },
            _ => None,
        }
    }
}

/// Reading `string`, spaces and the rest of the line at `p`.
pub open spec fn string_info_at(s: Seq<char>, p: int) -> Option<(int, Seq<char>)> {
    if !tag_at(s, p, "string"@) {
        None
    } else {
        match space1(s, p + 6) {
            Step::Done(k, _) => match rest_of_line(s, k as int) {
                Step::Done(e, t) => Some((e as int, t)),
                _ => None,
            },
            _ => None,
        }
    }
}

/// Reading `currline`, spaces, an optional number of a CPU with spaces, and a list of
/// moves at `p`; this way of reading an item decides where a failed reading fails.
pub open spec fn currline_at(s: Seq<char>, p: int) -> Step<InfoView> {
    if !tag_at(s, p, "currline"@) {
        Step::Error(p as usize)
    } else {
        match space1(s, p + 8) {
            Step::Done(k, _) => {
                let (cpu, m) = match unsigned_at(s, k as int, 0xffff_ffff) {
                    Step::Done(c, v) => match space1(s, c as int) {
                        Step::Done(m, _) => (Some(v), m as int),
                        _ => (None, k as int),
                    },
                    _ => (None, k as int),
                };
                match uci_move_at(s, m) {
                    Step::Done(g, mv) => {
                        let (e, ms) = more_moves(s, g as int, seq![mv]);
                        Step::Done(e as usize, InfoView::CurrLine { cpu, moves: ms })
                    },
                    Step::Error(x) => Step::Error(x),
                    Step::Failure(x) => Step::Failure(x),
                }
            },
            _ => Step::Error((p + 8) as usize),
        }
    }
}

/// Reading an information item at `p`.
pub open spec fn info_item_at(s: Seq<char>, p: int) -> Step<InfoView> {
    match plain_info_at(s, p) {
        Some((e, v)) => Step::Done(e as usize, v),
        None => currline_at(s, p),
    }
}

/// Reading more information items after one ending at `e`, each after spaces.
pub open spec fn more_infos(s: Seq<char>, e: int, acc: Seq<InfoView>) -> (int, Seq<InfoView>)
    decreases s.len() - e,
{
    if e < 0 || e >= s.len() {
        (e, acc)
    } else {
        match space1(s, e) {
            Step::Done(f, _) => match info_item_at(s, f as int) {
                Step::Done(g, x) => if e < g <= s.len() {
                    more_infos(s, g as int, acc.push(x))
                } else {
                    (e, acc)
                },
                _ => (e, acc),
            },
            _ => (e, acc),
        }
    }
}

/// Reading `info` and its items at `i`; the first item must be there.
pub open spec fn info_at(s: Seq<char>, i: int) -> Step<ResponseView> {
    if !tag_at(s, i, "info"@) {
        Step::Error(i as usize)
    } else {
        match space1(s, i + 4) {
            Step::Done(j, _) => match info_item_at(s, j as int) {
                Step::Done(e, x) => {
                    let (e2, xs) = more_infos(s, e as int, seq![x]);
                    Step::Done(e2 as usize, ResponseView::Info(xs))
                },
                Step::Error(x) => Step::Failure(x),
                Step::Failure(x) => Step::Failure(x),
            },
            _ => Step::Error((i + 4) as usize),
        }
    }
}

/// One setting of a spin option.
pub enum SpinPart {
    Default(int),
    Min(int),
    Max(int),
}

/// Reading one setting of a spin option at `q`.
pub open spec fn spin_part_at(s: Seq<char>, q: int) -> Option<(int, SpinPart)> {
    let lo = -0x8000_0000_0000_0000;
    let hi = 0x7fff_ffff_ffff_ffff;
    if keyword_number(s, q, "default"@, true, lo, hi) is Some {
        let (e, v) = keyword_number(s, q, "default"@, true, lo, hi)->0;
        Some((e, SpinPart::Default(v)))
    } else if keyword_number(s, q, "min"@, true, lo, hi) is Some {
        let (e, v) = keyword_number(s, q, "min"@, true, lo, hi)->0;
        Some((e, SpinPart::Min(v)))
    } else if keyword_number(s, q, "max"@, true, lo, hi) is Some {
        let (e, v) = keyword_number(s, q, "max"@, true, lo, hi)->0;
        Some((e, SpinPart::Max(v)))
    } else {
        None
    }
}

/// A spin option after one more setting is applied; a later setting of the same kind wins.
pub open spec fn apply_spin_part(k: (Option<int>, Option<int>, Option<int>), o: SpinPart) -> (Option<int>, Option<int>, Option<int>) {
    match o {
        SpinPart::Default(v) => (Some(v), k.1, k.2),
        SpinPart::Min(v) => (k.0, Some(v), k.2),
        SpinPart::Max(v) => (k.0, k.1, Some(v)),
    }
}

/// Reading more spin settings after one ending at `e`, each after spaces.
pub open spec fn more_spin_parts(s: Seq<char>, e: int, acc: (Option<int>, Option<int>, Option<int>)) -> (int, (Option<int>, Option<int>, Option<int>))
    decreases s.len() - e,
{
    if e < 0 || e >= s.len() {
        (e, acc)
    } else {
        match space1(s, e) {
            Step::Done(f, _) => match spin_part_at(s, f as int) {
                Some((g, o)) => if e < g <= s.len() {
                    more_spin_parts(s, g, apply_spin_part(acc, o))
                } else {
                    (e, acc)
                },
                None => (e, acc),
            },
            _ => (e, acc),
        }
    }
}

/// One setting of a combo option: the default or another value.
pub enum ComboPart {
    Default(Seq<char>),
    Var(Seq<char>),
}

/// Reading a keyword, spaces and a word of characters that are not white space at `q`.
pub open spec fn keyword_word(s: Seq<char>, q: int, w: Seq<char>) -> Option<(int, Seq<char>)> {
    if !tag_at(s, q, w) {
        None
    } else {
        match space1(s, q + w.len()) {
            Step::Done(a, _) => if word_end(s, a as int) > a {
                Some((word_end(s, a as int), s.subrange(a as int, word_end(s, a as int))))
            } else {
                None
            },
            _ => None,
        }
    }
}

/// Reading one setting of a combo option at `q`.
pub open spec fn combo_part_at(s: Seq<char>, q: int) -> Option<(int, ComboPart)> {
    if keyword_word(s, q, "default"@) is Some {
        let (e, w) = keyword_word(s, q, "default"@)->0;
        Some((e, ComboPart::Default(w)))
    } else if keyword_word(s, q, "var"@) is Some {
        let (e, w) = keyword_word(s, q, "var"@)->0;
        Some((e, ComboPart::Var(w)))
    } else {
        None
    }
}

/// A combo option after one more setting: a default replaces the default, a value is added.
pub open spec fn apply_combo_part(k: (Seq<Seq<char>>, Option<Seq<char>>), o: ComboPart) -> (Seq<Seq<char>>, Option<Seq<char>>) {
    match o {
        ComboPart::Default(w) => (k.0, Some(w)),
        ComboPart::Var(w) => (k.0.push(w), k.1),
    }
}

/// Reading more combo settings after one ending at `e`, each after spaces.
pub open spec fn more_combo_parts(s: Seq<char>, e: int, acc: (Seq<Seq<char>>, Option<Seq<char>>)) -> (int, (Seq<Seq<char>>, Option<Seq<char>>))
    decreases s.len() - e,
{
    if e < 0 || e >= s.len() {
        (e, acc)
    } else {
        match space1(s, e) {
            Step::Done(f, _) => match combo_part_at(s, f as int) {
                Some((g, o)) => if e < g <= s.len() {
                    more_combo_parts(s, g, apply_combo_part(acc, o))
                } else {
                    (e, acc)
                },
                None => (e, acc),
            },
            _ => (e, acc),
        }
    }
}

/// Reading `default` between spaces after position `u`: the position after them.
pub open spec fn default_after(s: Seq<char>, u: int) -> Option<int> {
    match space1(s, u) {
        Step::Done(a, _) => if tag_at(s, a as int, "default"@) {
            match space1(s, a + 7) {
                Step::Done(b, _) => Some(b as int),
                _ => None,
            }
        } else {
            None
        },
        _ => None,
    }
}

/// Reading the type of an option at `u`: `spin`, `check`, `string`, `button` or `combo`,
/// each with what may follow it.
pub open spec fn option_kind_at(s: Seq<char>, u: int) -> Step<KindView> {
    if tag_at(s, u, "spin"@) {
        match space1(s, u + 4) {
            Step::Done(k, _) => match spin_part_at(s, k as int) {
                Some((e, o)) => {
                    let (e2, t) = more_spin_parts(s, e, apply_spin_part((None, None, None), o));
                    Step::Done(e2 as usize, KindView::Spin { default: t.0, min: t.1, max: t.2 })
                },
                None => Step::Done((u + 4) as usize, KindView::Spin { default: None, min: None, max: None }),
            },
            _ => Step::Done((u + 4) as usize, KindView::Spin { default: None, min: None, max: None }),
        }
    } else if tag_at(s, u, "check"@) {
        match default_after(s, u + 5) {
            Some(b) => if tag_at(s, b, "true"@) {
                Step::Done((b + 4) as usize, KindView::Check { default: Some(true) })
            } else if tag_at(s, b, "false"@) {
                Step::Done((b + 5) as usize, KindView::Check { default: Some(false) })
            } else {
                Step::Done((u + 5) as usize, KindView::Check { default: None })
            },
            None => Step::Done((u + 5) as usize, KindView::Check { default: None }),
        }
    } else if tag_at(s, u, "string"@) {
        match default_after(s, u + 6) {
            Some(b) => match rest_of_line(s, b) {
                Step::Done(e, t) => Step::Done(e, KindView::String { default: Some(t) }),
                _ => Step::Done((u + 6) as usize, KindView::String { default: None }),
            },
            None => Step::Done((u + 6) as usize, KindView::String { default: None }),
        }
    } else if tag_at(s, u, "button"@) {
        Step::Done((u + 6) as usize, KindView::Button)
    } else if tag_at(s, u, "combo"@) {
        match space1(s, u + 5) {
            Step::Done(k, _) => match combo_part_at(s, k as int) {
                Some((e, o)) => {
                    let (e2, t) = more_combo_parts(s, e, apply_combo_part((Seq::empty(), None), o));
                    Step::Done(e2 as usize, KindView::Combo { options: t.0, default: t.1 })
                },
                None => Step::Done((u + 5) as usize, KindView::Combo { options: Seq::empty(), default: None }),
            },
            _ => Step::Done((u + 5) as usize, KindView::Combo { options: Seq::empty(), default: None }),
        }
    } else {
        Step::Error(u as usize)
    }
}

/// Reading `option name <name> type <type>` at `i`; the name is one word.
pub open spec fn option_at(s: Seq<char>, i: int) -> Step<ResponseView> {
    if !tag_at(s, i, "option"@) {
        Step::Error(i as usize)
    } else {
        match space1(s, i + 6) {
            Step::Done(j, _) => if !tag_at(s, j as int, "name"@) {
                Step::Error(j)
            } else {
                match space1(s, j + 4) {
                    Step::Done(k, _) => {
                        let w = word_end(s, k as int);
                        if w == k {
                            Step::Error(k)
                        } else {
                            match space1(s, w) {
                                Step::Done(t, _) => if !tag_at(s, t as int, "type"@) {
                                    Step::Error(t)
                                } else {
                                    match space1(s, t + 4) {
                                        Step::Done(u, _) => match option_kind_at(s, u as int) {
                                            Step::Done(e, kind) => Step::Done(
                                                e,
                                                ResponseView::Option { name: s.subrange(k as int, w), kind },
                                            ),
                                            Step::Error(x) => Step::Error(x),
                                            Step::Failure(x) => Step::Failure(x),
                                        },
                                        _ => Step::Error((t + 4) as usize),
                                    }
                                },
                                _ => Step::Error(w as usize),
                            }
                        }
                    },
                    _ => Step::Error((j + 4) as usize),
                }
            },
            _ => Step::Error((i + 6) as usize),
        }
    }
}

/// A word at `i` that stands for a response by itself.
pub open spec fn word_response(s: Seq<char>, i: int, w: Seq<char>, v: ResponseView) -> Step<ResponseView> {
    if tag_at(s, i, w) {
        Step::Done((i + w.len()) as usize, v)
    } else {
        Step::Error(i as usize)
    }
}

/// The first of the ways of reading a response at `i` that does not fail in a way that
/// allows another to be tried; the failure of the last when all do.
pub open spec fn response_at(s: Seq<char>, i: int) -> Step<ResponseView> {
    super::req::or_else(
        word_response(s, i, "uciok"@, ResponseView::UciOk),
        super::req::or_else(
            word_response(s, i, "readyok"@, ResponseView::ReadyOk),
            super::req::or_else(
                match id_at(s, i) {
                    Step::Done(e, x) => Step::Done(e, ResponseView::Id(x)),
                    Step::Error(x) => Step::Error(x),
                    Step::Failure(x) => Step::Failure(x),
                },
                super::req::or_else(bestmove_at(s, i), super::req::or_else(info_at(s, i), option_at(s, i))),
            ),
        ),
    )
}

/// Reading a whole response line: spaces, a response, spaces, and the end of the line.
pub open spec fn response_line(s: Seq<char>) -> Step<ResponseView> {
    match response_at(s, skip_blanks(s, 0)) {
        Step::Done(e, v) => {
            let j = skip_blanks(s, e as int);
            if j == s.len() {
                Step::Done(j as usize, v)
            } else {
                Step::Error(j as usize)
            }
        },
        Step::Error(p) => Step::Error(p),
        Step::Failure(p) => Step::Failure(p),
    }
}

/// Reading `id` and what follows it at `i`.
fn id_exec(s: &[char], i: usize) -> (r: Step<ResponseId>)
    requires
        i <= s@.len(),
    ensures
        agrees(r, id_at(s@, i as int)),
        bounded(r, s@.len() as int),
{
    proof {
        reveal_strlit("id");
        reveal_strlit("author");
        reveal_strlit("name");
    }
    let n = s.len();
    if !tag_exec(s, i, "id") {
        return Step::Error(i);
    }
    let j = match space1_exec(s, i + 2) {
        Some(j) => j,
        None => return Step::Error(i + 2),
    };
    if tag_exec(s, j, "author") {
        match space1_exec(s, j + 6) {
            Some(k) => match rest_of_line_exec(s, k) {
                Step::Done(e, t) => {
                    return Step::Done(e, ResponseId::Author(string_of(&t)));
                },
                _ => {},
            },
            None => {},
        }
    }
    if !tag_exec(s, j, "name") {
        return Step::Error(j);
    }
    match space1_exec(s, j + 4) {
        Some(k) => match rest_of_line_exec(s, k) {
            Step::Done(e, t) => Step::Done(e, ResponseId::Name(string_of(&t))),
            Step::Error(x) => Step::Error(x),
            Step::Failure(x) => Step::Failure(x),
        },
        None => Step::Error(j + 4),
    }
}

/// Reading `bestmove` and what follows it at `i`.
fn bestmove_exec(s: &[char], i: usize) -> (r: Step<Response>)
    requires
        i <= s@.len(),
    ensures
        agrees(r, bestmove_at(s@, i as int)),
        bounded(r, s@.len() as int),
{
    proof {
        reveal_strlit("bestmove");
        reveal_strlit("ponder");
    }
    let n = s.len();
    if !tag_exec(s, i, "bestmove") {
        return Step::Error(i);
    }
    let j = match space1_exec(s, i + 8) {
        Some(j) => j,
        None => return Step::Error(i + 8),
    };
    let (g, m) = match UciMove::parse_partial(s, j) {
        Step::Done(g, m) => (g, m),
        Step::Error(x) => return Step::Failure(x),
        Step::Failure(x) => return Step::Failure(x),
    };
    let ponder = match space1_exec(s, g) {
        Some(a) => if tag_exec(s, a, "ponder") {
            space1_exec(s, a + 6)
        } else {
            None
        },
        None => None,
    };
    match ponder {
        Some(b) => match UciMove::parse_partial(s, b) {
            Step::Done(h, p) => Step::Done(h, Response::BestMove { mov: m, ponder: Some(p) }),
            Step::Error(x) => Step::Failure(x),
            Step::Failure(x) => Step::Failure(x),
        },
        None => Step::Done(g, Response::BestMove { mov: m, ponder: None }),
    }
}

/// Reading one part of a score at `q` into `sc`: the position after it, or `None` with `sc`
/// kept.
fn score_part_exec(s: &[char], q: usize, sc: &mut ResponseScore) -> (r: Option<usize>)
    requires
        q <= s@.len(),
    ensures
        match score_part_at(s@, q as int) {
            Some((e, o)) => r == Some(e as usize) && q < e <= s@.len() && final(sc)@ == apply_score_part(old(sc)@, o),
            None => r is None && final(sc)@ == old(sc)@,
        },
{
    proof {
        reveal_strlit("lowerbound");
        reveal_strlit("upperbound");
    }
    let n = s.len();
    match keyword_unsigned(s, q, "mate", 0xffff_ffff) {
        Some((e, v)) => {
            sc.mate = Some(v as u32);
            return Some(e);
        },
        None => {},
    }
    match keyword_signed(s, q, "cp", 0x8000_0000_0000_0000, 0x7fff_ffff_ffff_ffff) {
        Some((e, v)) => {
            sc.cp = Some(v);
            return Some(e);
        },
        None => {},
    }
    if tag_exec(s, q, "lowerbound") {
        sc.bound = ResponseBound::Lowerbound;
        return Some(q + 10);
    }
    if tag_exec(s, q, "upperbound") {
        sc.bound = ResponseBound::Upperbound;
        return Some(q + 10);
    }
    None
}

/// Reading more score parts after one ending at `e0` into `sc`.
fn more_score_parts_exec(s: &[char], e0: usize, sc: &mut ResponseScore) -> (r: usize)
    requires
        e0 <= s@.len(),
    ensures
        more_score_parts(s@, e0 as int, old(sc)@) == (r as int, final(sc)@),
        e0 <= r <= s@.len(),
{
    let n = s.len();
    let ghost start = (e0 as int, sc@);
    let mut e = e0;
    loop
        invariant
            start == (e0 as int, old(sc)@),
            e0 <= e <= n,
            n == s@.len(),
            more_score_parts(s@, start.0, start.1) == more_score_parts(s@, e as int, sc@),
        decreases n - e,
    {
        if e >= n {
            return e;
        }
        let f = match space1_exec(s, e) {
            Some(f) => f,
            None => {
                return e;
            },
        };
        let ghost before = sc@;
        match score_part_exec(s, f, sc) {
            Some(e2) => {
                assert(more_score_parts(s@, e as int, before) == more_score_parts(s@, e2 as int, sc@));
                e = e2;
            },
            None => {
                assert(more_score_parts(s@, e as int, before) == (e as int, before));
                return e;
            },
        }
    }
}

/// Reading `score` and its parts at `p`.
fn score_exec(s: &[char], p: usize) -> (r: Option<(usize, ResponseScore)>)
    requires
        p <= s@.len(),
    ensures
        match score_at(s@, p as int) {
            Some((e, v)) => r matches Some((a, x)) && a == e && x@ == v && p < a <= s@.len(),
            None => r is None,
        },
{
    proof {
        reveal_strlit("score");
    }
    let n = s.len();
    if !tag_exec(s, p, "score") {
        return None;
    }
    let k = match space1_exec(s, p + 5) {
        Some(k) => k,
        None => return None,
    };
    let mut sc = ResponseScore { mate: None, cp: None, bound: ResponseBound::Exact };
    let e = match score_part_exec(s, k, &mut sc) {
        Some(e) => e,
        None => return None,
    };
    let e2 = more_score_parts_exec(s, e, &mut sc);
    Some((e2, sc))
}

/// Reading a keyword, spaces and a list of moves at `p`.
fn keyword_moves_exec(s: &[char], p: usize, w: &str) -> (r: Option<(usize, Vec<UciMove>)>)
    requires
        p <= s@.len(),
    ensures
        match keyword_moves(s@, p as int, w@) {
            Some((e, ms)) => r matches Some((a, x)) && a == e && moves_view(x@) == ms && p < a <= s@.len(),
            None => r is None,
        },
{
    let n = s.len();
    if !tag_exec(s, p, w) {
        return None;
    }
    let w_len = chars_of(w).len();
    let k = match space1_exec(s, p + w_len) {
        Some(k) => k,
        None => return None,
    };
    match UciMove::parse_partial(s, k) {
        Step::Done(g, m) => {
            let mut first: Vec<UciMove> = Vec::new();
            first.push(m);
            assert(moves_view(first@) =~= seq![m@]);
            let (e, ms) = more_moves_exec(s, g, first);
            Some((e, ms))
        },
        _ => None,
    }
}

/// Reading `currmove`, spaces and a move at `p`.
fn current_move_exec(s: &[char], p: usize) -> (r: Option<(usize, UciMove)>)
    requires
        p <= s@.len(),
    ensures
        match current_move_at(s@, p as int) {
            Some((e, m)) => r matches Some((a, x)) && a == e && x@ == m && p < a <= s@.len(),
            None => r is None,
        },
{
    proof {
        reveal_strlit("currmove");
    }
    let n = s.len();
    if !tag_exec(s, p, "currmove") {
        return None;
    }
    let k = match space1_exec(s, p + 8) {
        Some(k) => k,
        None => return None,
    };
    match UciMove::parse_partial(s, k) {
        Step::Done(e, m) => Some((e, m)),
        _ => None,
    }
}

/// Reading `string`, spaces and the rest of the line at `p`.
fn string_info_exec(s: &[char], p: usize) -> (r: Option<(usize, Vec<char>)>)
    requires
        p <= s@.len(),
    ensures
        match string_info_at(s@, p as int) {
            Some((e, t)) => r matches Some((a, x)) && a == e && x@ == t && p < a <= s@.len(),
            None => r is None,
        },
{
    proof {
        reveal_strlit("string");
    }
    let n = s.len();
    if !tag_exec(s, p, "string") {
        return None;
    }
    let k = match space1_exec(s, p + 6) {
        Some(k) => k,
        None => return None,
    };
    match rest_of_line_exec(s, k) {
        Step::Done(e, t) => {
            assert(e >= k) by {
                crate::uci::parse::lemma_rest_of_line_ge(s@, k as int);
            }
            Some((e, t))
        },
        _ => None,
    }
}

/// Reading an information item other than `currline` at `p`.
#[verifier::rlimit(40)]
fn plain_info_exec(s: &[char], p: usize) -> (r: Option<(usize, ResponseInfo)>)
    requires
        p <= s@.len(),
    ensures
        match plain_info_at(s@, p as int) {
            Some((e, v)) => r matches Some((a, x)) && a == e && x@ == v && p < a <= s@.len(),
            None => r is None,
        },
{
    if let Some((e, v)) = keyword_unsigned(s, p, "depth", 0xffff_ffff) {
        return Some((e, ResponseInfo::Depth(v as u32)));
    }
    if let Some((e, v)) = keyword_unsigned(s, p, "seldepth", 0xffff_ffff) {
        return Some((e, ResponseInfo::SelectiveDepth(v as u32)));
    }
    if let Some((e, v)) = keyword_unsigned(s, p, "time", 0xffff_ffff_ffff_ffff) {
        return Some((e, ResponseInfo::Time(v)));
    }
    if let Some((e, v)) = keyword_unsigned(s, p, "nodes", 0xffff_ffff_ffff_ffff) {
        return Some((e, ResponseInfo::Nodes(v)));
    }
    if let Some((e, v)) = keyword_unsigned(s, p, "nps", 0xffff_ffff_ffff_ffff) {
        return Some((e, ResponseInfo::Nps(v)));
    }
    if let Some((e, ms)) = keyword_moves_exec(s, p, "pv") {
        return Some((e, ResponseInfo::Pv(ms)));
    }
    if let Some((e, v)) = keyword_unsigned(s, p, "multipv", 0xffff_ffff) {
        return Some((e, ResponseInfo::MultiPv(v as u32)));
    }
    if let Some((e, sc)) = score_exec(s, p) {
        return Some((e, ResponseInfo::Score(sc)));
    }
    if let Some((e, m)) = current_move_exec(s, p) {
        return Some((e, ResponseInfo::CurrMove(m)));
    }
    if let Some((e, v)) = keyword_unsigned(s, p, "currmovenumber", 0xffff_ffff) {
        return Some((e, ResponseInfo::CurrMoveNumber(v as u32)));
    }
    if let Some((e, v)) = keyword_unsigned(s, p, "hashfull", 0xffff) {
        return Some((e, ResponseInfo::Hashfull(v as u16)));
    }
    if let Some((e, v)) = keyword_unsigned(s, p, "tbhits", 0xffff_ffff_ffff_ffff) {
        return Some((e, ResponseInfo::TbHits(v)));
    }
    if let Some((e, v)) = keyword_unsigned(s, p, "sbhits", 0xffff_ffff_ffff_ffff) {
        return Some((e, ResponseInfo::SbHits(v)));
    }
    if let Some((e, v)) = keyword_unsigned(s, p, "cpuload", 0xffff) {
        return Some((e, ResponseInfo::CpuLoad(v as u16)));
    }
    if let Some((e, t)) = string_info_exec(s, p) {
        return Some((e, ResponseInfo::String(string_of(&t))));
    }
    if let Some((e, ms)) = keyword_moves_exec(s, p, "refutation") {
        return Some((e, ResponseInfo::Refutation(ms)));
    }
    None
}

/// Reading `currline` and what follows it at `p`.
fn currline_exec(s: &[char], p: usize) -> (r: Step<ResponseInfo>)
    requires
        p <= s@.len(),
    ensures
        agrees(r, currline_at(s@, p as int)),
        bounded(r, s@.len() as int),
        r matches Step::Done(e, _) ==> p < e,
{
    proof {
        reveal_strlit("currline");
    }
    let n = s.len();
    if !tag_exec(s, p, "currline") {
        return Step::Error(p);
    }
    let k = match space1_exec(s, p + 8) {
        Some(k) => k,
        None => return Step::Error(p + 8),
    };
    let (cpu, m) = match unsigned_exec(s, k, 0xffff_ffff) {
        Step::Done(c, v) => match space1_exec(s, c) {
            Some(m) => (Some(v as u32), m),
            None => (None, k),
        },
        _ => (None, k),
    };
    assert(opt_int(cpu) == (match unsigned_at(s@, k as int, 0xffff_ffff) {
        Step::Done(c, v) => match space1(s@, c as int) {
            Step::Done(m, _) => Some(v),
            _ => None,
        },
        _ => None,
    }));
    match UciMove::parse_partial(s, m) {
        Step::Done(g, mv) => {
            let mut first: Vec<UciMove> = Vec::new();
            first.push(mv);
            assert(moves_view(first@) =~= seq![mv@]);
            let (e, moves) = more_moves_exec(s, g, first);
            Step::Done(e, ResponseInfo::CurrLine { cpu, moves })
        },
        Step::Error(x) => Step::Error(x),
        Step::Failure(x) => Step::Failure(x),
    }
}

/// Reading an information item at `p`.
fn info_item_exec(s: &[char], p: usize) -> (r: Step<ResponseInfo>)
    requires
        p <= s@.len(),
    ensures
        agrees(r, info_item_at(s@, p as int)),
        bounded(r, s@.len() as int),
        r matches Step::Done(e, _) ==> p < e,
{
    match plain_info_exec(s, p) {
        Some((e, v)) => Step::Done(e, v),
        None => currline_exec(s, p),
    }
}

/// Reading more information items after one ending at `e0`, added to `acc0`.
fn more_infos_exec(s: &[char], e0: usize, acc0: Vec<ResponseInfo>) -> (r: (usize, Vec<ResponseInfo>))
    requires
        e0 <= s@.len(),
    ensures
        more_infos(s@, e0 as int, infos_view(acc0@)) == (r.0 as int, infos_view(r.1@)),
        e0 <= r.0 <= s@.len(),
{
    let n = s.len();
    let ghost start = (e0 as int, infos_view(acc0@));
    let mut e = e0;
    let mut acc = acc0;
    loop
        invariant
            start == (e0 as int, infos_view(acc0@)),
            e0 <= e <= n,
            n == s@.len(),
            more_infos(s@, start.0, start.1) == more_infos(s@, e as int, infos_view(acc@)),
        decreases n - e,
    {
        if e >= n {
            return (e, acc);
        }
        let f = match space1_exec(s, e) {
            Some(f) => f,
            None => {
                return (e, acc);
            },
        };
        match info_item_exec(s, f) {
            Step::Done(g, x) => {
                let ghost before = infos_view(acc@);
                acc.push(x);
                assert(infos_view(acc@) =~= before.push(x@));
                e = g;
            },
            _ => {
                return (e, acc);
            },
        }
    }
}

/// Reading `info` and its items at `i`.
fn info_exec(s: &[char], i: usize) -> (r: Step<Response>)
    requires
        i <= s@.len(),
    ensures
        agrees(r, info_at(s@, i as int)),
        bounded(r, s@.len() as int),
{
    proof {
        reveal_strlit("info");
    }
    let n = s.len();
    if !tag_exec(s, i, "info") {
        return Step::Error(i);
    }
    let j = match space1_exec(s, i + 4) {
        Some(j) => j,
        None => return Step::Error(i + 4),
    };
    match info_item_exec(s, j) {
        Step::Done(e, x) => {
            let mut first: Vec<ResponseInfo> = Vec::new();
            first.push(x);
            assert(infos_view(first@) =~= seq![x@]);
            let (e2, xs) = more_infos_exec(s, e, first);
            Step::Done(e2, Response::Info(xs))
        },
        Step::Error(x) => Step::Failure(x),
        Step::Failure(x) => Step::Failure(x),
    }
}

/// The content of the settings of a spin option read so far.
pub open spec fn spin_view(k: (Option<i64>, Option<i64>, Option<i64>)) -> (Option<int>, Option<int>, Option<int>) {
    (opt_int(k.0), opt_int(k.1), opt_int(k.2))
}

/// Reading one setting of a spin option at `q` into `k`: the position after it, or `None`
/// with `k` kept.
fn spin_part_exec(s: &[char], q: usize, k: &mut (Option<i64>, Option<i64>, Option<i64>)) -> (r: Option<usize>)
    requires
        q <= s@.len(),
    ensures
        match spin_part_at(s@, q as int) {
            Some((e, o)) => r == Some(e as usize) && q < e <= s@.len() && spin_view(*final(k)) == apply_spin_part(spin_view(*old(k)), o),
            None => r is None && *final(k) == *old(k),
        },
{
    if let Some((e, v)) = keyword_signed(s, q, "default", 0x8000_0000_0000_0000, 0x7fff_ffff_ffff_ffff) {
        k.0 = Some(v);
        return Some(e);
    }
    if let Some((e, v)) = keyword_signed(s, q, "min", 0x8000_0000_0000_0000, 0x7fff_ffff_ffff_ffff) {
        k.1 = Some(v);
        return Some(e);
    }
    if let Some((e, v)) = keyword_signed(s, q, "max", 0x8000_0000_0000_0000, 0x7fff_ffff_ffff_ffff) {
        k.2 = Some(v);
        return Some(e);
    }
    None
}

/// Reading more spin settings after one ending at `e0` into `k`.
fn more_spin_parts_exec(s: &[char], e0: usize, k: &mut (Option<i64>, Option<i64>, Option<i64>)) -> (r: usize)
    requires
        e0 <= s@.len(),
    ensures
        more_spin_parts(s@, e0 as int, spin_view(*old(k))) == (r as int, spin_view(*final(k))),
        e0 <= r <= s@.len(),
{
    let n = s.len();
    let ghost start = (e0 as int, spin_view(*k));
    let mut e = e0;
    loop
        invariant
            start == (e0 as int, spin_view(*old(k))),
            e0 <= e <= n,
            n == s@.len(),
            more_spin_parts(s@, start.0, start.1) == more_spin_parts(s@, e as int, spin_view(*k)),
        decreases n - e,
    {
        if e >= n {
            return e;
        }
        let f = match space1_exec(s, e) {
            Some(f) => f,
            None => {
                return e;
            },
        };
        let ghost before = spin_view(*k);
        match spin_part_exec(s, f, k) {
            Some(e2) => {
                assert(more_spin_parts(s@, e as int, before) == more_spin_parts(s@, e2 as int, spin_view(*k)));
                e = e2;
            },
            None => {
                assert(more_spin_parts(s@, e as int, before) == (e as int, before));
                return e;
            },
        }
    }
}

/// Reading a keyword, spaces and a word of characters that are not white space at `q`.
fn keyword_word_exec(s: &[char], q: usize, w: &str) -> (r: Option<(usize, Vec<char>)>)
    requires
        q <= s@.len(),
    ensures
        match keyword_word(s@, q as int, w@) {
            Some((e, t)) => r matches Some((a, x)) && a == e && x@ == t && q < a <= s@.len(),
            None => r is None,
        },
{
    let n = s.len();
    if !tag_exec(s, q, w) {
        return None;
    }
    let w_len = chars_of(w).len();
    let a = match space1_exec(s, q + w_len) {
        Some(a) => a,
        None => return None,
    };
    let e = word_end_exec(s, a);
    if e > a {
        Some((e, slice_chars(s, a, e)))
    } else {
        None
    }
}

/// The content of the settings of a combo option read so far.
pub open spec fn combo_view(options: Seq<String>, default: Option<String>) -> (Seq<Seq<char>>, Option<Seq<char>>) {
    (strings_view(options), opt_string(default))
}

/// Reading one setting of a combo option at `q` into `options` and `default`: the position
/// after it, or `None` with both kept.
fn combo_part_exec(s: &[char], q: usize, options: &mut Vec<String>, default: &mut Option<String>) -> (r: Option<usize>)
    requires
        q <= s@.len(),
    ensures
        match combo_part_at(s@, q as int) {
            Some((e, o)) => r == Some(e as usize) && q < e <= s@.len()
                && combo_view(final(options)@, *final(default)) == apply_combo_part(combo_view(old(options)@, *old(default)), o),
            None => r is None && final(options)@ == old(options)@ && *final(default) == *old(default),
        },
{
    if let Some((e, t)) = keyword_word_exec(s, q, "default") {
        *default = Some(string_of(&t));
        return Some(e);
    }
    if let Some((e, t)) = keyword_word_exec(s, q, "var") {
        let ghost before = options@;
        options.push(string_of(&t));
        assert(strings_view(options@) =~= strings_view(before).push(t@));
        return Some(e);
    }
    None
}

/// Reading more combo settings after one ending at `e0` into `options` and `default`.
fn more_combo_parts_exec(s: &[char], e0: usize, options: &mut Vec<String>, default: &mut Option<String>) -> (r: usize)
    requires
        e0 <= s@.len(),
    ensures
        more_combo_parts(s@, e0 as int, combo_view(old(options)@, *old(default))) == (r as int, combo_view(final(options)@, *final(default))),
        e0 <= r <= s@.len(),
{
    let n = s.len();
    let ghost start = (e0 as int, combo_view(options@, *default));
    let mut e = e0;
    loop
        invariant
            start == (e0 as int, combo_view(old(options)@, *old(default))),
            e0 <= e <= n,
            n == s@.len(),
            more_combo_parts(s@, start.0, start.1) == more_combo_parts(s@, e as int, combo_view(options@, *default)),
        decreases n - e,
    {
        if e >= n {
            return e;
        }
        let f = match space1_exec(s, e) {
            Some(f) => f,
            None => {
                return e;
            },
        };
        let ghost before = combo_view(options@, *default);
        match combo_part_exec(s, f, options, default) {
            Some(e2) => {
                assert(more_combo_parts(s@, e as int, before) == more_combo_parts(s@, e2 as int, combo_view(options@, *default)));
                e = e2;
            },
            None => {
                assert(more_combo_parts(s@, e as int, before) == (e as int, before));
                return e;
            },
        }
    }
}

/// Reading `default` between spaces after position `u`.
fn default_after_exec(s: &[char], u: usize) -> (r: Option<usize>)
    requires
        u <= s@.len(),
    ensures
        match default_after(s@, u as int) {
            Some(b) => r == Some(b as usize) && u < b <= s@.len(),
            None => r is None,
        },
{
    proof {
        reveal_strlit("default");
    }
    let n = s.len();
    let a = match space1_exec(s, u) {
        Some(a) => a,
        None => return None,
    };
    if !tag_exec(s, a, "default") {
        return None;
    }
    space1_exec(s, a + 7)
}

/// Reading the type of an option at `u`.
#[verifier::rlimit(40)]
fn option_kind_exec(s: &[char], u: usize) -> (r: Step<OptionKind>)
    requires
        u <= s@.len(),
    ensures
        agrees(r, option_kind_at(s@, u as int)),
        bounded(r, s@.len() as int),
{
    proof {
        reveal_strlit("spin");
        reveal_strlit("check");
        reveal_strlit("true");
        reveal_strlit("false");
        reveal_strlit("string");
        reveal_strlit("button");
        reveal_strlit("combo");
    }
    let n = s.len();
    if tag_exec(s, u, "spin") {
        let k = match space1_exec(s, u + 4) {
            Some(k) => k,
            None => return Step::Done(u + 4, OptionKind::Spin { default: None, min: None, max: None }),
        };
        let mut t: (Option<i64>, Option<i64>, Option<i64>) = (None, None, None);
        let e = match spin_part_exec(s, k, &mut t) {
            Some(e) => e,
            None => return Step::Done(u + 4, OptionKind::Spin { default: None, min: None, max: None }),
        };
        let e2 = more_spin_parts_exec(s, e, &mut t);
        return Step::Done(e2, OptionKind::Spin { default: t.0, min: t.1, max: t.2 });
    }
    if tag_exec(s, u, "check") {
        if let Some(b) = default_after_exec(s, u + 5) {
            if tag_exec(s, b, "true") {
                return Step::Done(b + 4, OptionKind::Check { default: Some(true) });
            }
            if tag_exec(s, b, "false") {
                return Step::Done(b + 5, OptionKind::Check { default: Some(false) });
            }
        }
        return Step::Done(u + 5, OptionKind::Check { default: None });
    }
    if tag_exec(s, u, "string") {
        if let Some(b) = default_after_exec(s, u + 6) {
            if let Step::Done(e, t) = rest_of_line_exec(s, b) {
                return Step::Done(e, OptionKind::String { default: Some(string_of(&t)) });
            }
        }
        return Step::Done(u + 6, OptionKind::String { default: None });
    }
    if tag_exec(s, u, "button") {
        return Step::Done(u + 6, OptionKind::Button);
    }
    if tag_exec(s, u, "combo") {
        let mut options: Vec<String> = Vec::new();
        let mut default: Option<String> = None;
        assert(strings_view(options@) =~= Seq::<Seq<char>>::empty());
        let k = match space1_exec(s, u + 5) {
            Some(k) => k,
            None => return Step::Done(u + 5, OptionKind::Combo { options, default }),
        };
        let e = match combo_part_exec(s, k, &mut options, &mut default) {
            Some(e) => e,
            None => {
                return Step::Done(u + 5, OptionKind::Combo { options: Vec::new(), default: None });
            },
        };
        let e2 = more_combo_parts_exec(s, e, &mut options, &mut default);
        return Step::Done(e2, OptionKind::Combo { options, default });
    }
    Step::Error(u)
}

/// Reading `option name <name> type <type>` at `i`.
fn option_exec(s: &[char], i: usize) -> (r: Step<Response>)
    requires
        i <= s@.len(),
    ensures
        agrees(r, option_at(s@, i as int)),
        bounded(r, s@.len() as int),
{
    proof {
        reveal_strlit("option");
        reveal_strlit("name");
        reveal_strlit("type");
    }
    let n = s.len();
    if !tag_exec(s, i, "option") {
        return Step::Error(i);
    }
    let j = match space1_exec(s, i + 6) {
        Some(j) => j,
        None => return Step::Error(i + 6),
    };
    if !tag_exec(s, j, "name") {
        return Step::Error(j);
    }
    let k = match space1_exec(s, j + 4) {
        Some(k) => k,
        None => return Step::Error(j + 4),
    };
    let w = word_end_exec(s, k);
    if w == k {
        return Step::Error(k);
    }
    let t = match space1_exec(s, w) {
        Some(t) => t,
        None => return Step::Error(w),
    };
    if !tag_exec(s, t, "type") {
        return Step::Error(t);
    }
    let u = match space1_exec(s, t + 4) {
        Some(u) => u,
        None => return Step::Error(t + 4),
    };
    match option_kind_exec(s, u) {
        Step::Done(e, kind) => {
            let name = string_of(&slice_chars(s, k, w));
            Step::Done(e, Response::Option(ResponseOption { name, kind }))
        },
        Step::Error(x) => Step::Error(x),
        Step::Failure(x) => Step::Failure(x),
    }
}

/// Reading a response at `i`.
fn response_exec(s: &[char], i: usize) -> (r: Step<Response>)
    requires
        i <= s@.len(),
    ensures
        agrees(r, response_at(s@, i as int)),
        bounded(r, s@.len() as int),
{
    proof {
        reveal_strlit("uciok");
        reveal_strlit("readyok");
    }
    let n = s.len();
    if tag_exec(s, i, "uciok") {
        return Step::Done(i + 5, Response::UciOk);
    }
    if tag_exec(s, i, "readyok") {
        return Step::Done(i + 7, Response::ReadyOk);
    }
    match id_exec(s, i) {
        Step::Done(e, x) => {
            return Step::Done(e, Response::Id(x));
        },
        Step::Failure(x) => {
            return Step::Failure(x);
        },
        Step::Error(_) => {},
    }
    let r = bestmove_exec(s, i);
    if !r.is_error() {
        return r;
    }
    let r = info_exec(s, i);
    if !r.is_error() {
        return r;
    }
    option_exec(s, i)
}

impl Response {
    /// Reads a response line.
    pub fn from_line(l: &str) -> (r: Result<Response, UciResponseError>)
        ensures
            match response_line(l@) {
                Step::Done(_, v) => r matches Ok(x) && x@ == v,
                Step::Error(p) => r matches Err(e) && e.at_view() == l@.subrange(p as int, l@.len() as int),
                Step::Failure(p) => r matches Err(e) && e.at_view() == l@.subrange(p as int, l@.len() as int),
            },
    {
        let s = chars_of(l);
        let n = s.len();
        let i0 = skip_blanks_exec(&s, 0);
        let at = match response_exec(&s, i0) {
            Step::Done(e, v) => {
                let j = skip_blanks_exec(&s, e);
                if j == n {
                    return Ok(v);
                }
                j
            },
            Step::Error(p) => p,
            Step::Failure(p) => p,
        };
        Err(UciResponseError { at: string_of(&slice_chars(&s, at, n)) })
    }
}

impl UciResponseError {
    /// The part of the line where reading failed.
    pub closed spec fn at_view(&self) -> Seq<char> {
        self.at@
    }

    /// The message of the error.
    pub fn to_string(&self) -> (r: String)
        ensures
            r@ == error_text("failed to parse UCI response at: "@, self.at_view()),
    {
        let mut out: Vec<char> = Vec::new();
        push_str(&mut out, "failed to parse UCI response at: ");
        push_cut(&mut out, self.at.as_str());
        assert(out@ =~= error_text("failed to parse UCI response at: "@, self.at_view()));
        string_of(&out)
    }
}

/// The text of a score: its parts that are given, with spaces between them.
pub open spec fn score_text(sc: ScoreView) -> Seq<char> {
    let cp = match sc.cp {
        Some(c) => if sc.mate is Some {
            " cp "@ + signed_decimal(c)
        } else {
            "cp "@ + signed_decimal(c)
        },
        None => Seq::empty(),
    };
    let sep = if sc.mate is Some || sc.cp is Some {
        " "@
    } else {
        Seq::empty()
    };
    let bound = match sc.bound {
        ResponseBound::Exact => Seq::empty(),
        ResponseBound::Upperbound => sep + "upperbound"@,
        ResponseBound::Lowerbound => sep + "lowerbound"@,
    };
    opt_text("mate "@, sc.mate) + cp + bound
}

/// The text of an item of search information.
pub open spec fn info_text(x: InfoView) -> Seq<char> {
    match x {
        InfoView::Depth(v) => "depth "@ + signed_decimal(v),
        InfoView::SelectiveDepth(v) => "seldepth "@ + signed_decimal(v),
        InfoView::Time(v) => "time "@ + signed_decimal(v),
        InfoView::Nodes(v) => "nodes "@ + signed_decimal(v),
        InfoView::Pv(ms) => "pv"@ + moves_spaced(ms),
        InfoView::MultiPv(v) => "multipv "@ + signed_decimal(v),
        InfoView::Score(sc) => "score "@ + score_text(sc),
        InfoView::CurrMove(m) => "currmove "@ + move_text(m),
        InfoView::CurrMoveNumber(v) => "currmovenumber "@ + signed_decimal(v),
        InfoView::Hashfull(v) => "hashfull "@ + signed_decimal(v),
        InfoView::Nps(v) => "nps "@ + signed_decimal(v),
        InfoView::TbHits(v) => "tbhits "@ + signed_decimal(v),
        InfoView::SbHits(v) => "sbhits "@ + signed_decimal(v),
        InfoView::CpuLoad(v) => "cpuload "@ + signed_decimal(v),
        InfoView::String(t) => "string "@ + t,
        InfoView::Refutation(ms) => "refutation"@ + moves_spaced(ms),
        InfoView::CurrLine { cpu, moves } => "currline"@ + opt_text(" "@, cpu) + moves_spaced(moves),
    }
}

/// The texts of information items, each after a space.
pub open spec fn infos_spaced(xs: Seq<InfoView>) -> Seq<char>
    decreases xs.len(),
{
    if xs.len() == 0 {
        Seq::empty()
    } else {
        infos_spaced(xs.drop_last()) + " "@ + info_text(xs.last())
    }
}

/// The text of a truth value.
pub open spec fn bool_text(b: bool) -> Seq<char> {
    if b {
        "true"@
    } else {
        "false"@
    }
}

/// An optional string after a keyword, when it is there.
pub open spec fn opt_string_text(w: Seq<char>, d: Option<Seq<char>>) -> Seq<char> {
    match d {
        Some(t) => w + t,
        None => Seq::empty(),
    }
}

/// The values of a combo option, each after ` var `.
pub open spec fn vars_text(vs: Seq<Seq<char>>) -> Seq<char>
    decreases vs.len(),
{
    if vs.len() == 0 {
        Seq::empty()
    } else {
        vars_text(vs.drop_last()) + " var "@ + vs.last()
    }
}

/// The text of the type of an option, after a space.
pub open spec fn kind_text(k: KindView) -> Seq<char> {
    match k {
        KindView::String { default } => " type string"@ + opt_string_text(" default "@, default),
        KindView::Spin { default, min, max } => " type spin"@ + opt_text(" default "@, default) + opt_text(" min "@, min)
            + opt_text(" max "@, max),
        KindView::Button => " type button"@,
        KindView::Check { default } => " type check"@ + match default {
            Some(b) => " default "@ + bool_text(b),
            None => Seq::empty(),
        },
        KindView::Combo { options, default } => " type combo"@ + opt_string_text(" default "@, default) + vars_text(options),
    }
}

/// The text of an engine's statement about itself.
pub open spec fn id_text(x: IdView) -> Seq<char> {
    match x {
        IdView::Name(t) => "name "@ + t,
        IdView::Author(t) => "author "@ + t,
    }
}

/// The text of a response.
pub open spec fn response_text(r: ResponseView) -> Seq<char> {
    match r {
        ResponseView::UciOk => "uciok"@,
        ResponseView::ReadyOk => "readyok"@,
        ResponseView::Id(x) => "id "@ + id_text(x),
        ResponseView::BestMove { m, ponder } => "bestmove "@ + move_text(m) + match ponder {
            Some(p) => " ponder "@ + move_text(p),
            None => Seq::empty(),
        },
        ResponseView::Info(xs) => "info"@ + infos_spaced(xs),
        ResponseView::Option { name, kind } => "option name "@ + name + kind_text(kind),
    }
}

impl ResponseScore {
    /// Appends the text of the score.
    pub fn push_text(&self, out: &mut Vec<char>)
        ensures
            final(out)@ == old(out)@ + score_text(self@),
    {
        let ghost o = out@;
        push_opt_unsigned(out, "mate ", widen_u32(self.mate));
        let ghost a = out@;
        match self.cp {
            Some(c) => {
                if self.mate.is_some() {
                    push_str(out, " cp ");
                } else {
                    push_str(out, "cp ");
                }
                push_signed(out, c);
            },
            None => {},
        }
        let ghost b = out@;
        let wrote = self.mate.is_some() || self.cp.is_some();
        match self.bound {
            ResponseBound::Exact => {},
            ResponseBound::Upperbound => {
                if wrote {
                    push_str(out, " ");
                }
                push_str(out, "upperbound");
            },
            ResponseBound::Lowerbound => {
                if wrote {
                    push_str(out, " ");
                }
                push_str(out, "lowerbound");
            },
        }
        assert(out@ =~= o + score_text(self@));
    }

    /// The text of the score.
    pub fn to_string(&self) -> (r: String)
        ensures
            r@ == score_text(self@),
    {
        let mut out: Vec<char> = Vec::new();
        self.push_text(&mut out);
        assert(out@ =~= score_text(self@));
        string_of(&out)
    }
}

/// A small unsigned number as a wider one.
fn widen_u32(v: Option<u32>) -> (r: Option<u64>)
    ensures
        opt_int(r) == opt_int(v),
{
    match v {
        Some(x) => Some(x as u64),
        None => None,
    }
}

/// Appends a keyword and an unsigned number.
fn push_number(out: &mut Vec<char>, w: &str, v: u64)
    ensures
        final(out)@ == old(out)@ + w@ + signed_decimal(v as int),
{
    push_str(out, w);
    push_decimal(out, v);
}

impl ResponseInfo {
    /// Appends the text of the item.
    #[verifier::rlimit(40)]
    pub fn push_text(&self, out: &mut Vec<char>)
        ensures
            final(out)@ == old(out)@ + info_text(self@),
    {
        let ghost o = out@;
        match self {
            ResponseInfo::Depth(x) => push_number(out, "depth ", *x as u64),
            ResponseInfo::SelectiveDepth(x) => push_number(out, "seldepth ", *x as u64),
            ResponseInfo::Time(x) => push_number(out, "time ", *x),
            ResponseInfo::Nodes(x) => push_number(out, "nodes ", *x),
            ResponseInfo::Pv(ms) => {
                push_str(out, "pv");
                push_moves_spaced(out, ms);
            },
            ResponseInfo::MultiPv(x) => push_number(out, "multipv ", *x as u64),
            ResponseInfo::Score(sc) => {
                push_str(out, "score ");
                sc.push_text(out);
            },
            ResponseInfo::CurrMove(m) => {
                push_str(out, "currmove ");
                m.push_text(out);
            },
            ResponseInfo::CurrMoveNumber(x) => push_number(out, "currmovenumber ", *x as u64),
            ResponseInfo::Hashfull(x) => push_number(out, "hashfull ", *x as u64),
            ResponseInfo::Nps(x) => push_number(out, "nps ", *x),
            ResponseInfo::TbHits(x) => push_number(out, "tbhits ", *x),
            ResponseInfo::SbHits(x) => push_number(out, "sbhits ", *x),
            ResponseInfo::CpuLoad(x) => push_number(out, "cpuload ", *x as u64),
            ResponseInfo::String(t) => {
                push_str(out, "string ");
                push_str(out, t.as_str());
            },
            ResponseInfo::Refutation(ms) => {
                push_str(out, "refutation");
                push_moves_spaced(out, ms);
            },
            ResponseInfo::CurrLine { cpu, moves } => {
                push_str(out, "currline");
                push_opt_unsigned(out, " ", widen_u32(*cpu));
                push_moves_spaced(out, moves);
            },
        }
        assert(out@ =~= o + info_text(self@));
    }

    /// The text of the item.
    pub fn to_string(&self) -> (r: String)
        ensures
            r@ == info_text(self@),
    {
        let mut out: Vec<char> = Vec::new();
        self.push_text(&mut out);
        assert(out@ =~= info_text(self@));
        string_of(&out)
    }
}

/// Appends the texts of information items, each after a space.
fn push_infos_spaced(out: &mut Vec<char>, xs: &Vec<ResponseInfo>)
    ensures
        final(out)@ == old(out)@ + infos_spaced(infos_view(xs@)),
{
    let ghost all = infos_view(xs@);
    let mut i: usize = 0;
    while i < xs.len()
        invariant
            i <= xs@.len(),
            all == infos_view(xs@),
            out@ == old(out)@ + infos_spaced(all.take(i as int)),
        decreases xs@.len() - i,
    {
        let ghost before = out@;
        push_str(out, " ");
        xs[i].push_text(out);
        let ghost t = all.take(i + 1);
        assert(t.drop_last() =~= all.take(i as int));
        assert(t.last() == xs@[i as int]@);
        assert(out@ =~= before + " "@ + info_text(xs@[i as int]@));
        i = i + 1;
    }
    assert(all.take(i as int) =~= all);
}

/// Appends the values of a combo option, each after ` var `.
fn push_vars(out: &mut Vec<char>, vs: &Vec<String>)
    ensures
        final(out)@ == old(out)@ + vars_text(strings_view(vs@)),
{
    let ghost all = strings_view(vs@);
    let mut i: usize = 0;
    while i < vs.len()
        invariant
            i <= vs@.len(),
            all == strings_view(vs@),
            out@ == old(out)@ + vars_text(all.take(i as int)),
        decreases vs@.len() - i,
    {
        let ghost before = out@;
        push_str(out, " var ");
        push_str(out, vs[i].as_str());
        let ghost t = all.take(i + 1);
        assert(t.drop_last() =~= all.take(i as int));
        assert(t.last() == vs@[i as int]@);
        assert(out@ =~= before + " var "@ + vs@[i as int]@);
        i = i + 1;
    }
    assert(all.take(i as int) =~= all);
}

/// Appends an optional string after a keyword, when it is there.
fn push_opt_string(out: &mut Vec<char>, w: &str, d: &Option<String>)
    ensures
        final(out)@ == old(out)@ + opt_string_text(w@, opt_string(*d)),
{
    match d {
        Some(t) => {
            push_str(out, w);
            push_str(out, t.as_str());
        },
        None => {},
    }
    assert(out@ =~= old(out)@ + opt_string_text(w@, opt_string(*d)));
}

impl OptionKind {
    /// Appends the text of the type, after a space.
    pub fn push_text(&self, out: &mut Vec<char>)
        ensures
            final(out)@ == old(out)@ + kind_text(self@),
    {
        let ghost o = out@;
        match self {
            OptionKind::String { default } => {
                push_str(out, " type string");
                push_opt_string(out, " default ", default);
            },
            OptionKind::Spin { default, min, max } => {
                push_str(out, " type spin");
                push_opt(out, " default ", *default);
                push_opt(out, " min ", *min);
                push_opt(out, " max ", *max);
            },
            OptionKind::Button => push_str(out, " type button"),
            OptionKind::Check { default } => {
                push_str(out, " type check");
                match default {
                    Some(b) => {
                        push_str(out, " default ");
                        if *b {
                            push_str(out, "true");
                        } else {
                            push_str(out, "false");
                        }
                    },
                    None => {},
                }
            },
            OptionKind::Combo { options, default } => {
                push_str(out, " type combo");
                push_opt_string(out, " default ", default);
                push_vars(out, options);
            },
        }
        assert(out@ =~= o + kind_text(self@));
    }
}

impl ResponseOption {
    /// Appends the name and the type of the option.
    pub fn push_text(&self, out: &mut Vec<char>)
        ensures
            final(out)@ == old(out)@ + "name "@ + self.name@ + kind_text(self.kind@),
    {
        push_str(out, "name ");
        push_str(out, self.name.as_str());
        self.kind.push_text(out);
    }

    /// The name and the type of the option.
    pub fn to_string(&self) -> (r: String)
        ensures
            r@ == "name "@ + self.name@ + kind_text(self.kind@),
    {
        let mut out: Vec<char> = Vec::new();
        self.push_text(&mut out);
        assert(out@ =~= "name "@ + self.name@ + kind_text(self.kind@));
        string_of(&out)
    }
}

impl ResponseId {
    /// Appends what the engine says of itself.
    pub fn push_text(&self, out: &mut Vec<char>)
        ensures
            final(out)@ == old(out)@ + id_text(self@),
    {
        match self {
            ResponseId::Name(t) => {
                push_str(out, "name ");
                push_str(out, t.as_str());
            },
            ResponseId::Author(t) => {
                push_str(out, "author ");
                push_str(out, t.as_str());
            },
        }
    }

    /// What the engine says of itself.
    pub fn to_string(&self) -> (r: String)
        ensures
            r@ == id_text(self@),
    {
        let mut out: Vec<char> = Vec::new();
        self.push_text(&mut out);
        assert(out@ =~= id_text(self@));
        string_of(&out)
    }
}

impl Response {
    /// The text of the response.
    pub fn to_string(&self) -> (r: String)
        ensures
            r@ == response_text(self@),
    {
        let mut out: Vec<char> = Vec::new();
        match self {
            Response::UciOk => push_str(&mut out, "uciok"),
            Response::ReadyOk => push_str(&mut out, "readyok"),
            Response::Id(x) => {
                push_str(&mut out, "id ");
                x.push_text(&mut out);
            },
            Response::BestMove { mov, ponder } => {
                push_str(&mut out, "bestmove ");
                mov.push_text(&mut out);
                match ponder {
                    Some(p) => {
                        push_str(&mut out, " ponder ");
                        p.push_text(&mut out);
                    },
                    None => {},
                }
            },
            Response::Info(xs) => {
                push_str(&mut out, "info");
                push_infos_spaced(&mut out, xs);
            },
            Response::Option(o) => {
                push_str(&mut out, "option ");
                o.push_text(&mut out);
            },
        }
        proof {
            reveal_strlit("option ");
            reveal_strlit("option name ");
            reveal_strlit("name ");
        }
        assert(out@ =~= response_text(self@));
        string_of(&out)
    }
}

} // verus!
