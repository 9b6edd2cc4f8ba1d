use vstd::prelude::*;
use super::moves::{UciMove, moves_spaced, push_moves_spaced, uci_move_at};
use super::parse::{
    Step, agrees, bounded, alnum_end, alnum_end_exec, is_alnum, lemma_alnum_end_bounds,
    lemma_skip_blanks_bounds, rest_of_line, rest_of_line_exec, signed_at,
    signed_exec, skip_blanks, skip_blanks_exec, slice_chars, space1, space1_exec, tag_at, tag_exec,
    unsigned_at, unsigned_exec,
};
use crate::chess_core::mov::Promotion;
use crate::common::board::{Board, consistent};
use crate::common::hash::{hash_draws, placed};
use crate::common::extra_state::ExtraState;
use crate::common::fen::{FenOutcome, fen_parse, fen_text};
use crate::common::piece::SquareContent;
use crate::text::{chars_of, push_decimal, push_signed, push_str, signed_decimal, string_of};

verus! {

/// A request from the GUI to the engine.
#[derive(Clone, Debug)]
pub enum Request {
    Uci,
    Debug(bool),
    IsReady,
    UciNewGame,
    SetOption { name: String, value: Option<OptionValue> },
    Position { fen: Option<Box<Board>>, moves: Vec<UciMove> },
    Go(GoRequest),
    Stop,
    PonderHit,
    Quit,
}

/// The settings of a `go` request.
#[derive(Clone, Debug)]
pub struct GoRequest {
    pub searchmoves: Option<Vec<UciMove>>,
    pub ponder: bool,
    pub wtime: Option<i64>,
    pub btime: Option<i64>,
    pub winc: Option<i32>,
    pub binc: Option<i32>,
    pub moves_to_go: Option<u32>,
    pub depth: Option<u32>,
    pub nodes: Option<u64>,
    pub mate: Option<u32>,
    pub movetime: Option<u64>,
    pub infinite: bool,
}

/// The value given to an option.
#[derive(Clone, Debug)]
pub enum OptionValue {
    String(String),
    Spin(i64),
    Check(bool),
}

/// A request line that could not be read, with the part of the line where reading failed.
#[derive(Debug, Clone)]
pub struct UciRequestError {
    at: String,
}

/// The content of an option value.
pub enum OptionValueView {
    String(Seq<char>),
    Spin(int),
    Check(bool),
}

/// The content of the settings of a `go` request.
pub struct GoRequestView {
    pub searchmoves: Option<Seq<(int, int, Option<Promotion>)>>,
    pub ponder: bool,
    pub wtime: Option<int>,
    pub btime: Option<int>,
    pub winc: Option<int>,
    pub binc: Option<int>,
    pub moves_to_go: Option<int>,
    pub depth: Option<int>,
    pub nodes: Option<int>,
    pub mate: Option<int>,
    pub movetime: Option<int>,
    pub infinite: bool,
}

/// The content of a request; a position is given by its squares and extra state.
pub enum RequestView {
    Uci,
    Debug(bool),
    IsReady,
    UciNewGame,
    SetOption { name: Seq<char>, value: Option<OptionValueView> },
    Position { fen: Option<(Seq<SquareContent>, ExtraState)>, moves: Seq<(int, int, Option<Promotion>)> },
    Go(GoRequestView),
    Stop,
    PonderHit,
    Quit,
}

/// The contents of a list of moves.
pub open spec fn moves_view(ms: Seq<UciMove>) -> Seq<(int, int, Option<Promotion>)> {
    ms.map_values(|m: UciMove| m@)
}

/// The content of an optional number.
pub open spec fn opt_int<T: Integer>(x: Option<T>) -> Option<int> {
    match x {
        Some(v) => Some(v as int),
        None => None,
    }
}

impl View for OptionValue {
    type V = OptionValueView;

    open spec fn view(&self) -> OptionValueView {
        match self {
            OptionValue::String(s) => OptionValueView::String(s@),
            OptionValue::Spin(v) => OptionValueView::Spin(*v as int),
            OptionValue::Check(b) => OptionValueView::Check(*b),
        }
    }
}

impl View for GoRequest {
    type V = GoRequestView;

    open spec fn view(&self) -> GoRequestView {
        GoRequestView {
            searchmoves: match &self.searchmoves {
                Some(m) => Some(moves_view(m@)),
                None => None,
            },
            ponder: self.ponder,
            wtime: opt_int(self.wtime),
            btime: opt_int(self.btime),
            winc: opt_int(self.winc),
            binc: opt_int(self.binc),
            moves_to_go: opt_int(self.moves_to_go),
            depth: opt_int(self.depth),
            nodes: opt_int(self.nodes),
            mate: opt_int(self.mate),
            movetime: opt_int(self.movetime),
            infinite: self.infinite,
        }
    }
}

impl View for Request {
    type V = RequestView;

    open spec fn view(&self) -> RequestView {
        match self {
            Request::Uci => RequestView::Uci,
            Request::Debug(b) => RequestView::Debug(*b),
            Request::IsReady => RequestView::IsReady,
            Request::UciNewGame => RequestView::UciNewGame,
            Request::SetOption { name, value } => RequestView::SetOption {
                name: name@,
                value: match value {
                    Some(v) => Some(v@),
                    None => None,
                },
            },
            Request::Position { fen, moves } => RequestView::Position {
                fen: match fen {
                    Some(b) => Some((b.squares.0@, b.state)),
                    None => None,
                },
                moves: moves_view(moves@),
            },
            Request::Go(g) => RequestView::Go(g@),
            Request::Stop => RequestView::Stop,
            Request::PonderHit => RequestView::PonderHit,
            Request::Quit => RequestView::Quit,
        }
    }
}

/// The settings of a `go` request with nothing set.
pub open spec fn no_settings() -> GoRequestView {
    GoRequestView {
        searchmoves: None,
        ponder: false,
        wtime: None,
        btime: None,
        winc: None,
        binc: None,
        moves_to_go: None,
        depth: None,
        nodes: None,
        mate: None,
        movetime: None,
        infinite: false,
    }
}

impl GoRequest {
    /// The settings with nothing set.
    pub fn default() -> (r: Self)
        ensures
            r@ == no_settings(),
    {
        GoRequest {
            searchmoves: None,
            ponder: false,
            wtime: None,
            btime: None,
            winc: None,
            binc: None,
            moves_to_go: None,
            depth: None,
            nodes: None,
            mate: None,
            movetime: None,
            infinite: false,
        }
    }
}

/// A word at `i` that stands for a request by itself.
pub open spec fn word_request(s: Seq<char>, i: int, w: Seq<char>, v: RequestView) -> Step<RequestView> {
    if tag_at(s, i, w) {
        Step::Done((i + w.len()) as usize, v)
    } else {
        Step::Error(i as usize)
    }
}

/// Reading `debug on` or `debug off` at `i`.
pub open spec fn debug_at(s: Seq<char>, i: int) -> Step<RequestView> {
    if !tag_at(s, i, "debug"@) {
        Step::Error(i as usize)
    } else {
        match space1(s, i + 5) {
            Step::Done(j, _) => if tag_at(s, j as int, "on"@) {
                Step::Done((j + 2) as usize, RequestView::Debug(true))
            } else if tag_at(s, j as int, "off"@) {
                Step::Done((j + 3) as usize, RequestView::Debug(false))
            } else {
                Step::Failure(j)
            },
            _ => Step::Error((i + 5) as usize),
        }
    }
}

/// The end of an option name whose first word has been read, the next word starting at `p`:
/// words of ASCII letters and digits, each with the spaces after it, up to a word that starts
/// with `value` or a character that starts no word.
pub open spec fn name_end(s: Seq<char>, p: int) -> int
    decreases s.len() - p,
{
    if p < 0 || p >= s.len() || tag_at(s, p, "value"@) || !is_alnum(s[p]) {
        p
    } else {
        proof {
            lemma_alnum_end_bounds(s, p);
            lemma_skip_blanks_bounds(s, alnum_end(s, p));
        }
        name_end(s, skip_blanks(s, alnum_end(s, p)))
    }
}

/// Reading an option value at `i`: a signed number, `true`, `false` or the rest of the line.
pub open spec fn option_value_at(s: Seq<char>, m: int) -> Step<OptionValueView> {
    match signed_at(s, m, -0x8000_0000_0000_0000, 0x7fff_ffff_ffff_ffff) {
        Step::Done(e, v) => Step::Done(e, OptionValueView::Spin(v)),
        _ => if tag_at(s, m, "true"@) {
            Step::Done((m + 4) as usize, OptionValueView::Check(true))
        } else if tag_at(s, m, "false"@) {
            Step::Done((m + 5) as usize, OptionValueView::Check(false))
        } else {
            match rest_of_line(s, m) {
                Step::Done(e, t) => Step::Done(e, OptionValueView::String(t)),
                _ => Step::Failure(m as usize),
            }
        },
    }
}

/// Reading `setoption name <name>` with an optional `value <value>` at `i`.
pub open spec fn option_at(s: Seq<char>, i: int) -> Step<RequestView> {
    if !tag_at(s, i, "setoption"@) {
        Step::Error(i as usize)
    } else {
        match space1(s, i + 9) {
            Step::Done(j, _) => if !tag_at(s, j as int, "name"@) {
                Step::Failure(j)
            } else {
                match space1(s, j + 4) {
                    Step::Done(k, _) => {
                        let k = k as int;
                        if tag_at(s, k, "value"@) || !(k < s.len() && is_alnum(s[k])) {
                            Step::Error(k as usize)
                        } else {
                            let q = name_end(s, skip_blanks(s, alnum_end(s, k)));
                            let name = s.subrange(k, q);
                            let m = skip_blanks(s, q + 5);
                            if tag_at(s, q, "value"@) && m > q + 5 {
                                match option_value_at(s, m) {
                                    Step::Done(e, v) => Step::Done(e, RequestView::SetOption { name, value: Some(v) }),
                                    _ => Step::Failure(m as usize),
                                }
                            } else {
                                Step::Done(q as usize, RequestView::SetOption { name, value: None })
                            }
                        }
                    },
                    _ => Step::Failure((j + 4) as usize),
                }
            },
            _ => Step::Error((i + 9) as usize),
        }
    }
}

/// Reading more moves after one ending at `e`: each after spaces; the reading stops, before
/// the spaces, where no move follows them.
pub open spec fn more_moves(s: Seq<char>, e: int, acc: Seq<(int, int, Option<Promotion>)>) -> (int, Seq<(int, int, Option<Promotion>)>)
    decreases s.len() - e,
{
    if e < 0 || e >= s.len() {
        (e, acc)
    } else {
        match space1(s, e) {
            Step::Done(f, _) => match uci_move_at(s, f as int) {
                Step::Done(g, m) => if e < g <= s.len() {
                    more_moves(s, g as int, acc.push(m))
                } else {
                    (e, acc)
                },
                _ => (e, acc),
            },
            _ => (e, acc),
        }
    }
}

/// Reading the start of a `position` request at `j`: `startposition`, or `fen` and a FEN
/// string; the position after it and the position read.
pub open spec fn position_start_at(s: Seq<char>, j: int) -> Step<Option<(Seq<SquareContent>, ExtraState)>> {
    if tag_at(s, j, "startposition"@) {
        Step::Done((j + 13) as usize, None)
    } else if !tag_at(s, j, "fen"@) {
        Step::Failure(j as usize)
    } else {
        match space1(s, j + 3) {
            Step::Done(k, _) => match fen_parse(s.subrange(k as int, s.len() as int)) {
                FenOutcome::Parsed { squares, state, rest } => Step::Done((k + rest) as usize, Some((squares, state))),
                _ => Step::Failure(k),
            },
            _ => Step::Failure((j + 3) as usize),
        }
    }
}

/// Reading `position`, its start, and optionally `moves` and a list of moves, at `i`.
pub open spec fn position_at(s: Seq<char>, i: int) -> Step<RequestView> {
    if !tag_at(s, i, "position"@) {
        Step::Error(i as usize)
    } else {
        match space1(s, i + 8) {
            Step::Done(j, _) => match position_start_at(s, j as int) {
                Step::Done(p, fen) => match space1(s, p as int) {
                    Step::Done(m1, _) => if tag_at(s, m1 as int, "moves"@) {
                        match space1(s, m1 + 5) {
                            Step::Done(m2, _) => match uci_move_at(s, m2 as int) {
                                Step::Done(g, m) => {
                                    let (e, ms) = more_moves(s, g as int, seq![m]);
                                    Step::Done(e as usize, RequestView::Position { fen, moves: ms })
                                },
                                Step::Error(x) => Step::Failure(x),
                                Step::Failure(x) => Step::Failure(x),
                            },
                            _ => Step::Done(p, RequestView::Position { fen, moves: Seq::empty() }),
                        }
                    } else {
                        Step::Done(p, RequestView::Position { fen, moves: Seq::empty() })
                    },
                    _ => Step::Done(p, RequestView::Position { fen, moves: Seq::empty() }),
                },
                Step::Error(x) => Step::Failure(x),
                Step::Failure(x) => Step::Failure(x),
            },
            _ => Step::Error((i + 8) as usize),
        }
    }
}

/// One setting of a `go` request.
pub enum GoSetting {
    SearchMoves(Seq<(int, int, Option<Promotion>)>),
    Ponder,
    WTime(int),
    BTime(int),
    WInc(int),
    BInc(int),
    MovesToGo(int),
    Depth(int),
    Nodes(int),
    Mate(int),
    Movetime(int),
    Infinite,
}

/// A keyword at `p`, spaces, and a number in the given range: the position after the number
/// and the number.
pub open spec fn keyword_number(s: Seq<char>, p: int, w: Seq<char>, signed: bool, min: int, max: int) -> Option<(int, int)> {
    if !tag_at(s, p, w) {
        None
    } else {
        match space1(s, p + w.len()) {
            Step::Done(k, _) => match if signed {
                signed_at(s, k as int, min, max)
            } else {
                unsigned_at(s, k as int, max)
            } {
                Step::Done(e, v) => Some((e as int, v)),
                _ => None,
            },
            _ => None,
        }
    }
}

/// Reading one `go` setting at `p`: the position after it and the setting, or `None`.
pub open spec fn go_setting_at(s: Seq<char>, p: int) -> Option<(int, GoSetting)> {
    let searchmoves = if tag_at(s, p, "searchmoves"@) {
        match space1(s, p + 11) {
            Step::Done(k, _) => match uci_move_at(s, k as int) {
                Step::Done(g, m) => {
                    let (e, ms) = more_moves(s, g as int, seq![m]);
                    Some((e, GoSetting::SearchMoves(ms)))
                },
                _ => None,
            },
            _ => None,
        }
    } else {
        None
    };
    let u32_max = 0xffff_ffff;
    let u64_max = 0xffff_ffff_ffff_ffff;
    let i64_min = -0x8000_0000_0000_0000;
    let i64_max = 0x7fff_ffff_ffff_ffff;
    if searchmoves is Some {
        searchmoves
    } else if tag_at(s, p, "ponder"@) {
        Some((p + 6, GoSetting::Ponder))
    } else if keyword_number(s, p, "wtime"@, true, i64_min, i64_max) is Some {
        let (e, v) = keyword_number(s, p, "wtime"@, true, i64_min, i64_max)->0;
        Some((e, GoSetting::WTime(v)))
    } else if keyword_number(s, p, "btime"@, true, i64_min, i64_max) is Some {
        let (e, v) = keyword_number(s, p, "btime"@, true, i64_min, i64_max)->0;
        Some((e, GoSetting::BTime(v)))
    } else if keyword_number(s, p, "winc"@, true, -0x8000_0000, 0x7fff_ffff) is Some {
        let (e, v) = keyword_number(s, p, "winc"@, true, -0x8000_0000, 0x7fff_ffff)->0;
        Some((e, GoSetting::WInc(v)))
    } else if keyword_number(s, p, "binc"@, true, -0x8000_0000, 0x7fff_ffff) is Some {
        let (e, v) = keyword_number(s, p, "binc"@, true, -0x8000_0000, 0x7fff_ffff)->0;
        Some((e, GoSetting::BInc(v)))
    } else if keyword_number(s, p, "movestogo"@, false, 0, u32_max) is Some {
        let (e, v) = keyword_number(s, p, "movestogo"@, false, 0, u32_max)->0;
        Some((e, GoSetting::MovesToGo(v)))
    } else if keyword_number(s, p, "depth"@, false, 0, u32_max) is Some {
        let (e, v) = keyword_number(s, p, "depth"@, false, 0, u32_max)->0;
        Some((e, GoSetting::Depth(v)))
    } else if keyword_number(s, p, "nodes"@, false, 0, u64_max) is Some {
        let (e, v) = keyword_number(s, p, "nodes"@, false, 0, u64_max)->0;
        Some((e, GoSetting::Nodes(v)))
    } else if keyword_number(s, p, "mate"@, false, 0, u32_max) is Some {
        let (e, v) = keyword_number(s, p, "mate"@, false, 0, u32_max)->0;
        Some((e, GoSetting::Mate(v)))
    } else if keyword_number(s, p, "movetime"@, false, 0, u64_max) is Some {
        let (e, v) = keyword_number(s, p, "movetime"@, false, 0, u64_max)->0;
        Some((e, GoSetting::Movetime(v)))
    } else if tag_at(s, p, "infinite"@) {
        Some((p + 8, GoSetting::Infinite))
    } else {
        None
    }
}

/// The settings after one more setting is applied; a later setting of the same kind wins.
pub open spec fn apply_setting(g: GoRequestView, o: GoSetting) -> GoRequestView {
    match o {
        GoSetting::SearchMoves(ms) => GoRequestView { searchmoves: Some(ms), ..g },
        GoSetting::Ponder => GoRequestView { ponder: true, ..g },
        GoSetting::WTime(v) => GoRequestView { wtime: Some(v), ..g },
        GoSetting::BTime(v) => GoRequestView { btime: Some(v), ..g },
        GoSetting::WInc(v) => GoRequestView { winc: Some(v), ..g },
        GoSetting::BInc(v) => GoRequestView { binc: Some(v), ..g },
        GoSetting::MovesToGo(v) => GoRequestView { moves_to_go: Some(v), ..g },
        GoSetting::Depth(v) => GoRequestView { depth: Some(v), ..g },
        GoSetting::Nodes(v) => GoRequestView { nodes: Some(v), ..g },
        GoSetting::Mate(v) => GoRequestView { mate: Some(v), ..g },
        GoSetting::Movetime(v) => GoRequestView { movetime: Some(v), ..g },
        GoSetting::Infinite => GoRequestView { infinite: true, ..g },
    }
}

/// Reading more `go` settings after one ending at `e`, each after spaces.
pub open spec fn more_settings(s: Seq<char>, e: int, acc: GoRequestView) -> (int, GoRequestView)
    decreases s.len() - e,
{
    if e < 0 || e >= s.len() {
        (e, acc)
    } else {
        match space1(s, e) {
            Step::Done(f, _) => match go_setting_at(s, f as int) {
                Some((g, o)) => if e < g <= s.len() {
                    more_settings(s, g, apply_setting(acc, o))
                } else {
                    (e, acc)
                },
                None => (e, acc),
            },
            _ => (e, acc),
        }
    }
}

/// Reading `go` and its settings at `i`.
pub open spec fn go_at(s: Seq<char>, i: int) -> Step<RequestView> {
    if !tag_at(s, i, "go"@) {
        Step::Error(i as usize)
    } else {
        let j = i + 2;
        match space1(s, j) {
            Step::Done(k, _) => match go_setting_at(s, k as int) {
                Some((e, o)) => {
                    let (e2, g) = more_settings(s, e, apply_setting(no_settings(), o));
                    Step::Done(e2 as usize, RequestView::Go(g))
                },
                None => Step::Done(j as usize, RequestView::Go(no_settings())),
            },
            _ => Step::Done(j as usize, RequestView::Go(no_settings())),
        }
    }
}

/// The first outcome unless it is an error that allows another try.
pub open spec fn or_else<V>(a: Step<V>, b: Step<V>) -> Step<V> {
    if a is Error {
        b
    } else {
        a
    }
}

/// The first of the ways of reading a request at `i` that does not fail in a way that
/// allows another to be tried; the failure of the last when all do.
pub open spec fn request_at(s: Seq<char>, i: int) -> Step<RequestView> {
    or_else(
        debug_at(s, i),
        or_else(
            word_request(s, i, "isready"@, RequestView::IsReady),
            or_else(
                word_request(s, i, "ucinewgame"@, RequestView::UciNewGame),
                or_else(
                    word_request(s, i, "uci"@, RequestView::Uci),
                    or_else(
                        option_at(s, i),
                        or_else(
                            position_at(s, i),
                            or_else(
                                go_at(s, i),
                                or_else(
                                    word_request(s, i, "stop"@, RequestView::Stop),
                                    or_else(
                                        word_request(s, i, "ponderhit"@, RequestView::PonderHit),
                                        word_request(s, i, "quit"@, RequestView::Quit),
                                    ),
                                ),
                            ),
                        ),
                    ),
                ),
            ),
        ),
    )
}

/// Reading a whole request line: spaces, a request, spaces, and the end of the line.
pub open spec fn request_line(s: Seq<char>) -> Step<RequestView> {
    match request_at(s, skip_blanks(s, 0)) {
        Step::Done(e, v) => {
            let j = skip_blanks(s, e as int);
            if j == s.len() {
                Step::Done(j as usize, v)
            } else {
                Step::Error(j as usize)
            }
        },
        Step::Error(p) => Step::Error(p),
        Step::Failure(p) => Step::Failure(p),
    }
}

/// Whether reading a `position` request at `i` would read a FEN string that makes a
/// counter overflow.
pub open spec fn fen_overflows_at(s: Seq<char>, i: int) -> bool {
    &&& tag_at(s, i, "position"@)
    &&& space1(s, i + 8) is Done
    &&& {
        let j = space1(s, i + 8)->Done_0 as int;
        &&& !tag_at(s, j, "startposition"@)
        &&& tag_at(s, j, "fen"@)
        &&& space1(s, j + 3) is Done
        &&& fen_parse(s.subrange(space1(s, j + 3)->Done_0 as int, s.len() as int)) is Panics
    }
}

/// Whether reading a request line would read a FEN string that makes a counter overflow.
pub open spec fn request_fen_overflows(s: Seq<char>) -> bool {
    fen_overflows_at(s, skip_blanks(s, 0))
}

fn debug_exec(s: &[char], i: usize) -> (r: Step<Request>)
    requires
        i <= s@.len(),
    ensures
        agrees(r, debug_at(s@, i as int)),
        bounded(r, s@.len() as int),
{
    proof {
        reveal_strlit("debug");
        reveal_strlit("on");
        reveal_strlit("off");
    }
    let n = s.len();
    if !tag_exec(s, i, "debug") {
        return Step::Error(i);
    }
    match space1_exec(s, i + 5) {
        None => Step::Error(i + 5),
        Some(j) => {
            if tag_exec(s, j, "on") {
                Step::Done(j + 2, Request::Debug(true))
            } else if tag_exec(s, j, "off") {
                Step::Done(j + 3, Request::Debug(false))
            } else {
                Step::Failure(j)
            }
        },
    }
}

/// Reading an option value at `m`.
fn option_value_exec(s: &[char], m: usize) -> (r: Step<OptionValue>)
    requires
        m <= s@.len(),
    ensures
        agrees(r, option_value_at(s@, m as int)),
        bounded(r, s@.len() as int),
{
    proof {
        reveal_strlit("true");
        reveal_strlit("false");
    }
    let n = s.len();
    match signed_exec(s, m, 0x8000_0000_0000_0000, 0x7fff_ffff_ffff_ffff) {
        Step::Done(e, v) => {
            return Step::Done(e, OptionValue::Spin(v));
        },
        _ => {},
    }
    if tag_exec(s, m, "true") {
        return Step::Done(m + 4, OptionValue::Check(true));
    }
    if tag_exec(s, m, "false") {
        return Step::Done(m + 5, OptionValue::Check(false));
    }
    match rest_of_line_exec(s, m) {
        Step::Done(e, t) => Step::Done(e, OptionValue::String(string_of(&t))),
        _ => Step::Failure(m),
    }
}

/// Reading a `setoption` request at `i`.
fn option_exec(s: &[char], i: usize) -> (r: Step<Request>)
    requires
        i <= s@.len(),
    ensures
        agrees(r, option_at(s@, i as int)),
        bounded(r, s@.len() as int),
{
    proof {
        reveal_strlit("setoption");
        reveal_strlit("name");
        reveal_strlit("value");
    }
    let n = s.len();
    if !tag_exec(s, i, "setoption") {
        return Step::Error(i);
    }
    let j = match space1_exec(s, i + 9) {
        Some(j) => j,
        None => return Step::Error(i + 9),
    };
    if !tag_exec(s, j, "name") {
        return Step::Failure(j);
    }
    let k = match space1_exec(s, j + 4) {
        Some(k) => k,
        None => return Step::Failure(j + 4),
    };
    if tag_exec(s, k, "value") || !(k < n && is_alnum_exec(s[k])) {
        return Step::Error(k);
    }
    proof {
        lemma_alnum_end_bounds(s@, k as int);
    }
    let mut q = skip_blanks_exec(s, alnum_end_exec(s, k));
    while q < n && !tag_exec(s, q, "value") && is_alnum_exec(s[q])
        invariant
            k < q <= n,
            n == s@.len(),
            name_end(s@, skip_blanks(s@, alnum_end(s@, k as int))) == name_end(s@, q as int),
        decreases n - q,
    {
        let a = alnum_end_exec(s, q);
        proof {
            lemma_alnum_end_bounds(s@, q as int);
        }
        q = skip_blanks_exec(s, a);
    }
    let name = string_of(&slice_chars(s, k, q));
    if tag_exec(s, q, "value") {
        let m = skip_blanks_exec(s, q + 5);
        if m > q + 5 {
            return match option_value_exec(s, m) {
                Step::Done(e, v) => Step::Done(e, Request::SetOption { name, value: Some(v) }),
                _ => Step::Failure(m),
            };
        }
    }
    Step::Done(q, Request::SetOption { name, value: None })
}

/// Whether a character is an ASCII letter or digit.
fn is_alnum_exec(c: char) -> (r: bool)
    ensures
        r == is_alnum(c),
{
    ('a' <= c && c <= 'z') || ('A' <= c && c <= 'Z') || ('0' <= c && c <= '9')
}

/// Reading more moves after one ending at `e`.
pub fn more_moves_exec(s: &[char], e0: usize, acc0: Vec<UciMove>) -> (r: (usize, Vec<UciMove>))
    requires
        e0 <= s@.len(),
    ensures
        more_moves(s@, e0 as int, moves_view(acc0@)) == (r.0 as int, moves_view(r.1@)),
        e0 <= r.0 <= s@.len(),
{
    let n = s.len();
    let ghost start = (e0 as int, moves_view(acc0@));
    let mut e = e0;
    let mut acc = acc0;
    loop
        invariant
            start == (e0 as int, moves_view(acc0@)),
            start.0 <= e <= n,
            n == s@.len(),
            more_moves(s@, start.0, start.1) == more_moves(s@, e as int, moves_view(acc@)),
        decreases n - e,
    {
        if e >= n {
            return (e, acc);
        }
        let f = match space1_exec(s, e) {
            Some(f) => f,
            None => {
                assert(more_moves(s@, e as int, moves_view(acc@)) == (e as int, moves_view(acc@)));
                return (e, acc);
            },
        };
        match UciMove::parse_partial(s, f) {
            Step::Done(g, m) => {
                let ghost before = moves_view(acc@);
                acc.push(m);
                assert(moves_view(acc@) =~= before.push(m@));
                e = g;
            },
            _ => {
                assert(more_moves(s@, e as int, moves_view(acc@)) == (e as int, moves_view(acc@)));
                return (e, acc);
            },
        }
    }
}

/// Reading the start of a `position` request at `j`.
fn position_start_exec(s: &[char], j: usize) -> (r: Step<Option<Box<Board>>>)
    requires
        j <= s@.len(),
        !(!tag_at(s@, j as int, "startposition"@) && tag_at(s@, j as int, "fen"@) && space1(s@, j + 3) is Done
            && fen_parse(s@.subrange(space1(s@, j + 3)->Done_0 as int, s@.len() as int)) is Panics),
    ensures
        match (r, position_start_at(s@, j as int)) {
            (Step::Done(a, x), Step::Done(b, y)) => a == b && y == match x {
                Some(bd) => Some((bd.squares.0@, bd.state)),
                None => None,
            },
            (Step::Error(a), Step::Error(b)) => a == b,
            (Step::Failure(a), Step::Failure(b)) => a == b,
            _ => false,
        },
        bounded(r, s@.len() as int),
        r matches Step::Done(_, Some(bd)) ==> fen_board(*bd),
{
    proof {
        reveal_strlit("startposition");
        reveal_strlit("fen");
    }
    let n = s.len();
    if tag_exec(s, j, "startposition") {
        return Step::Done(j + 13, None);
    }
    if !tag_exec(s, j, "fen") {
        return Step::Failure(j);
    }
    let k = match space1_exec(s, j + 3) {
        Some(k) => k,
        None => return Step::Failure(j + 3),
    };
    let suffix = string_of(&slice_chars(s, k, n));
    match Board::from_fen_partial(suffix.as_str()) {
        Ok((b, tail)) => {
            let t = chars_of(tail);
            Step::Done(n - t.len(), Some(Box::new(b)))
        },
        Err(_) => Step::Failure(k),
    }
}

/// Reading a `position` request at `i`.
fn position_exec(s: &[char], i: usize) -> (r: Step<Request>)
    requires
        i <= s@.len(),
        !fen_overflows_at(s@, i as int),
    ensures
        agrees(r, position_at(s@, i as int)),
        bounded(r, s@.len() as int),
        r matches Step::Done(_, x) ==> fen_board_kept(x),
{
    proof {
        reveal_strlit("position");
        reveal_strlit("moves");
    }
    let n = s.len();
    if !tag_exec(s, i, "position") {
        return Step::Error(i);
    }
    let j = match space1_exec(s, i + 8) {
        Some(j) => j,
        None => return Step::Error(i + 8),
    };
    let (p, fen) = match position_start_exec(s, j) {
        Step::Done(p, fen) => (p, fen),
        Step::Error(x) => return Step::Failure(x),
        Step::Failure(x) => return Step::Failure(x),
    };
    let empty: Vec<UciMove> = Vec::new();
    assert(moves_view(empty@) =~= Seq::empty());
    let m1 = match space1_exec(s, p) {
        Some(m1) => m1,
        None => return Step::Done(p, Request::Position { fen, moves: empty }),
    };
    if !tag_exec(s, m1, "moves") {
        return Step::Done(p, Request::Position { fen, moves: empty });
    }
    let m2 = match space1_exec(s, m1 + 5) {
        Some(m2) => m2,
        None => return Step::Done(p, Request::Position { fen, moves: empty }),
    };
    match UciMove::parse_partial(s, m2) {
        Step::Done(g, m) => {
            let mut first: Vec<UciMove> = Vec::new();
            first.push(m);
            assert(moves_view(first@) =~= seq![m@]);
            let (e, moves) = more_moves_exec(s, g, first);
            Step::Done(e, Request::Position { fen, moves })
        },
        Step::Error(x) => Step::Failure(x),
        Step::Failure(x) => Step::Failure(x),
    }
}

/// A keyword at `p`, spaces, and an unsigned number of at most `max`.
pub fn keyword_unsigned(s: &[char], p: usize, w: &str, max: u64) -> (r: Option<(usize, u64)>)
    requires
        p <= s@.len(),
    ensures
        match keyword_number(s@, p as int, w@, false, 0, max as int) {
            Some((e, v)) => r == Some((e as usize, v as u64)) && p < e <= s@.len(),
            None => r is None,
        },
{
    let n = s.len();
    if !tag_exec(s, p, w) {
        return None;
    }
    let w_len = chars_of(w).len();
    let k = match space1_exec(s, p + w_len) {
        Some(k) => k,
        None => return None,
    };
    match unsigned_exec(s, k, max) {
        Step::Done(e, v) => Some((e, v)),
        _ => None,
    }
}

/// A keyword at `p`, spaces, and a signed number between `-min_magnitude` and `max`.
pub fn keyword_signed(s: &[char], p: usize, w: &str, min_magnitude: u64, max: u64) -> (r: Option<(usize, i64)>)
    requires
        p <= s@.len(),
        min_magnitude <= 0x8000_0000_0000_0000,
        max < 0x8000_0000_0000_0000,
    ensures
        match keyword_number(s@, p as int, w@, true, -(min_magnitude as int), max as int) {
            Some((e, v)) => r == Some((e as usize, v as i64)) && p < e <= s@.len(),
            None => r is None,
        },
{
    let n = s.len();
    if !tag_exec(s, p, w) {
        return None;
    }
    let w_len = chars_of(w).len();
    let k = match space1_exec(s, p + w_len) {
        Some(k) => k,
        None => return None,
    };
    match signed_exec(s, k, min_magnitude, max) {
        Step::Done(e, v) => Some((e, v)),
        _ => None,
    }
}

/// Reading one `go` setting at `p` into `g`: the position after it, or `None` with `g` kept.
fn go_setting_exec(s: &[char], p: usize, g: &mut GoRequest) -> (r: Option<usize>)
    requires
        p <= s@.len(),
    ensures
        match go_setting_at(s@, p as int) {
            Some((e, o)) => r == Some(e as usize) && p < e <= s@.len() && final(g)@ == apply_setting(old(g)@, o),
            None => r is None && final(g)@ == old(g)@,
        },
{
    proof {
        reveal_strlit("searchmoves");
        reveal_strlit("ponder");
        reveal_strlit("infinite");
    }
    let n = s.len();
    if tag_exec(s, p, "searchmoves") {
        match space1_exec(s, p + 11) {
            Some(k) => match UciMove::parse_partial(s, k) {
                Step::Done(e1, m) => {
                    let mut first: Vec<UciMove> = Vec::new();
                    first.push(m);
                    assert(moves_view(first@) =~= seq![m@]);
                    let (e, moves) = more_moves_exec(s, e1, first);
                    g.searchmoves = Some(moves);
                    return Some(e);
                },
                _ => {},
            },
            None => {},
        }
    }
    if tag_exec(s, p, "ponder") {
        g.ponder = true;
        return Some(p + 6);
    }
    match keyword_signed(s, p, "wtime", 0x8000_0000_0000_0000, 0x7fff_ffff_ffff_ffff) {
        Some((e, v)) => {
            g.wtime = Some(v);
            return Some(e);
        },
        None => {},
    }
    match keyword_signed(s, p, "btime", 0x8000_0000_0000_0000, 0x7fff_ffff_ffff_ffff) {
        Some((e, v)) => {
            g.btime = Some(v);
            return Some(e);
        },
        None => {},
    }
    match keyword_signed(s, p, "winc", 0x8000_0000, 0x7fff_ffff) {
        Some((e, v)) => {
            g.winc = Some(v as i32);
            return Some(e);
        },
        None => {},
    }
    match keyword_signed(s, p, "binc", 0x8000_0000, 0x7fff_ffff) {
        Some((e, v)) => {
            g.binc = Some(v as i32);
            return Some(e);
        },
        None => {},
    }
    match keyword_unsigned(s, p, "movestogo", 0xffff_ffff) {
        Some((e, v)) => {
            g.moves_to_go = Some(v as u32);
            return Some(e);
        },
        None => {},
    }
    match keyword_unsigned(s, p, "depth", 0xffff_ffff) {
        Some((e, v)) => {
            g.depth = Some(v as u32);
            return Some(e);
        },
        None => {},
    }
    match keyword_unsigned(s, p, "nodes", 0xffff_ffff_ffff_ffff) {
        Some((e, v)) => {
            g.nodes = Some(v);
            return Some(e);
        },
        None => {},
    }
    match keyword_unsigned(s, p, "mate", 0xffff_ffff) {
        Some((e, v)) => {
            g.mate = Some(v as u32);
            return Some(e);
        },
        None => {},
    }
    match keyword_unsigned(s, p, "movetime", 0xffff_ffff_ffff_ffff) {
        Some((e, v)) => {
            g.movetime = Some(v);
            return Some(e);
        },
        None => {},
    }
    if tag_exec(s, p, "infinite") {
        g.infinite = true;
        return Some(p + 8);
    }
    None
}

/// Reading a `go` request at `i`.
fn go_exec(s: &[char], i: usize) -> (r: Step<Request>)
    requires
        i <= s@.len(),
    ensures
        agrees(r, go_at(s@, i as int)),
        bounded(r, s@.len() as int),
{
    proof {
        reveal_strlit("go");
    }
    let n = s.len();
    if !tag_exec(s, i, "go") {
        return Step::Error(i);
    }
    let j = i + 2;
    let mut g = GoRequest::default();
    let k = match space1_exec(s, j) {
        Some(k) => k,
        None => return Step::Done(j, Request::Go(g)),
    };
    let mut e = match go_setting_exec(s, k, &mut g) {
        Some(e) => e,
        None => return Step::Done(j, Request::Go(g)),
    };
    let e2 = more_settings_exec(s, e, &mut g);
    Step::Done(e2, Request::Go(g))
}

/// Reading more `go` settings after one ending at `e` into `g`: the position after them.
fn more_settings_exec(s: &[char], e0: usize, g: &mut GoRequest) -> (r: usize)
    requires
        e0 <= s@.len(),
    ensures
        more_settings(s@, e0 as int, old(g)@) == (r as int, final(g)@),
        r <= s@.len(),
{
    let n = s.len();
    let ghost start = (e0 as int, g@);
    let mut e = e0;
    loop
        invariant
            start == (e0 as int, old(g)@),
            e <= n,
            n == s@.len(),
            more_settings(s@, start.0, start.1) == more_settings(s@, e as int, g@),
        decreases n - e,
    {
        if e >= n {
            return e;
        }
        let f = match space1_exec(s, e) {
            Some(f) => f,
            None => {
                return e;
            },
        };
        let ghost before = g@;
        match go_setting_exec(s, f, g) {
            Some(e2) => {
                assert(more_settings(s@, e as int, before) == more_settings(s@, e2 as int, g@));
                e = e2;
            },
            None => {
                assert(more_settings(s@, e as int, before) == (e as int, before));
                return e;
            },
        }
    }
}

/// Whether a board is as the FEN reader leaves it: its bitboards agree with its squares,
/// its tables hold the seeded draws, and its hash is still the initial key.
pub open spec fn fen_board(b: Board) -> bool {
    &&& consistent(b@)
    &&& placed(hash_draws(), b.hash_tables)
    &&& b.hash == b.hash_tables.initial_key
}

/// Whether the board of a `position fen` request, if there is one, is as the FEN reader
/// leaves it.
pub open spec fn fen_board_kept(r: Request) -> bool {
    match r {
        Request::Position { fen: Some(b), .. } => fen_board(*b),
        _ => true,
    }
}

/// Reading a request at `i`.
fn request_exec(s: &[char], i: usize) -> (r: Step<Request>)
    requires
        i <= s@.len(),
        !fen_overflows_at(s@, i as int),
    ensures
        agrees(r, request_at(s@, i as int)),
        bounded(r, s@.len() as int),
        r matches Step::Done(_, x) ==> fen_board_kept(x),
{
    proof {
        reveal_strlit("isready");
        reveal_strlit("ucinewgame");
        reveal_strlit("uci");
        reveal_strlit("stop");
        reveal_strlit("ponderhit");
        reveal_strlit("quit");
    }
    let n = s.len();
    let r = debug_exec(s, i);
    if !r.is_error() {
        return r;
    }
    if tag_exec(s, i, "isready") {
        return Step::Done(i + 7, Request::IsReady);
    }
    if tag_exec(s, i, "ucinewgame") {
        return Step::Done(i + 10, Request::UciNewGame);
    }
    if tag_exec(s, i, "uci") {
        return Step::Done(i + 3, Request::Uci);
    }
    let r = option_exec(s, i);
    if !r.is_error() {
        return r;
    }
    let r = position_exec(s, i);
    if !r.is_error() {
        return r;
    }
    let r = go_exec(s, i);
    if !r.is_error() {
        return r;
    }
    if tag_exec(s, i, "stop") {
        return Step::Done(i + 4, Request::Stop);
    }
    if tag_exec(s, i, "ponderhit") {
        return Step::Done(i + 9, Request::PonderHit);
    }
    if tag_exec(s, i, "quit") {
        return Step::Done(i + 4, Request::Quit);
    }
    Step::Error(i)
}

impl Request {
    /// Reads a request line.
    pub fn from_line(l: &str) -> (r: Result<Request, UciRequestError>)
        requires
            !request_fen_overflows(l@),
        ensures
            match request_line(l@) {
                Step::Done(_, v) => r matches Ok(x) && x@ == v,
                Step::Error(p) => r matches Err(e) && e.at_view() == l@.subrange(p as int, l@.len() as int),
                Step::Failure(p) => r matches Err(e) && e.at_view() == l@.subrange(p as int, l@.len() as int),
            },
            r matches Ok(x) ==> fen_board_kept(x),
    {
        let s = chars_of(l);
        let n = s.len();
        let i0 = skip_blanks_exec(&s, 0);
        let at = match request_exec(&s, i0) {
            Step::Done(e, v) => {
                let j = skip_blanks_exec(&s, e);
                if j == n {
                    return Ok(v);
                }
                j
            },
            Step::Error(p) => p,
            Step::Failure(p) => p,
        };
        Err(UciRequestError { at: string_of(&slice_chars(&s, at, n)) })
    }
}

impl Request {
    /// Whether reading the request line would read a FEN string that makes a counter
    /// overflow; `from_line` accepts only lines for which this is false.
    pub fn fen_overflows(l: &str) -> (r: bool)
        ensures
            r == request_fen_overflows(l@),
    {
        proof {
            reveal_strlit("position");
            reveal_strlit("startposition");
            reveal_strlit("fen");
        }
        let s = chars_of(l);
        let n = s.len();
        let i = skip_blanks_exec(&s, 0);
        if !tag_exec(&s, i, "position") {
            return false;
        }
        let j = match space1_exec(&s, i + 8) {
            Some(j) => j,
            None => return false,
        };
        if tag_exec(&s, j, "startposition") || !tag_exec(&s, j, "fen") {
            return false;
        }
        let k = match space1_exec(&s, j + 3) {
            Some(k) => k,
            None => return false,
        };
        let rest = string_of(&slice_chars(&s, k, n));
        Board::fen_overflows(rest.as_str())
    }
}

/// The number of bytes of a character in UTF-8.
pub open spec fn utf8_len(c: char) -> int {
    if (c as int) < 0x80 {
        1
    } else if (c as int) < 0x800 {
        2
    } else if (c as int) < 0x10000 {
        3
    } else {
        4
    }
}

/// The number of characters from `i` on that fit, with the `used` bytes before them, in
/// forty bytes of UTF-8.
pub open spec fn fitting_chars(s: Seq<char>, i: int, used: int) -> int
    decreases s.len() - i,
{
    if 0 <= i < s.len() && used + utf8_len(s[i]) <= 40 {
        fitting_chars(s, i + 1, used + utf8_len(s[i]))
    } else {
        i
    }
}

/// The message of a failed reading: the part of the line where it failed, cut to its
/// first forty bytes of UTF-8 at a character boundary, with `...` after a cut.
pub open spec fn error_text(prefix: Seq<char>, at: Seq<char>) -> Seq<char> {
    let k = fitting_chars(at, 0, 0);
    prefix + at.subrange(0, k) + if k < at.len() {
        "..."@
    } else {
        Seq::empty()
    }
}

/// Appends the part of `at` that fits in forty bytes, and `...` when that is not all of it.
pub fn push_cut(out: &mut Vec<char>, at: &str)
    ensures
        final(out)@ == old(out)@ + error_text(Seq::empty(), at@),
{
    let a = chars_of(at);
    let mut i: usize = 0;
    let mut used: u32 = 0;
    while i < a.len() && used + utf8_len_exec(a[i]) <= 40
        invariant
            i <= a@.len(),
            a@ == at@,
            used <= 40,
            fitting_chars(at@, 0, 0) == fitting_chars(at@, i as int, used as int),
            out@ == old(out)@ + at@.subrange(0, i as int),
        decreases a@.len() - i,
    {
        used = used + utf8_len_exec(a[i]);
        out.push(a[i]);
        assert(at@.subrange(0, i + 1) =~= at@.subrange(0, i as int).push(at@[i as int]));
        i = i + 1;
    }
    if i < a.len() {
        push_str(out, "...");
    }
    assert(out@ =~= old(out)@ + error_text(Seq::empty(), at@));
}

/// The number of bytes of a character in UTF-8.
fn utf8_len_exec(c: char) -> (r: u32)
    ensures
        r == utf8_len(c),
{
    let v = c as u32;
    if v < 0x80 {
        1
    } else if v < 0x800 {
        2
    } else if v < 0x10000 {
        3
    } else {
        4
    }
}

impl UciRequestError {
    /// The part of the line where reading failed.
    pub closed spec fn at_view(&self) -> Seq<char> {
        self.at@
    }

    /// The message of the error.
    pub fn to_string(&self) -> (r: String)
        ensures
            r@ == error_text("failed to parse UCI request at: "@, self.at_view()),
    {
        let mut out: Vec<char> = Vec::new();
        push_str(&mut out, "failed to parse UCI request at: ");
        push_cut(&mut out, self.at.as_str());
        assert(out@ =~= error_text("failed to parse UCI request at: "@, self.at_view()));
        string_of(&out)
    }
}

/// The text of the settings of a `go` request, each after a space.
pub open spec fn go_text(g: GoRequestView) -> Seq<char> {
    go_head_text(g) + go_numbers_text(g) + if g.infinite {
        " infinite"@
    } else {
        Seq::empty()
    }
}

/// The moves to search and the ponder flag of a `go` request, as text.
pub open spec fn go_head_text(g: GoRequestView) -> Seq<char> {
    (match g.searchmoves {
        Some(ms) => " searchmoves"@ + moves_spaced(ms),
        None => Seq::empty(),
    }) + if g.ponder {
        " ponder"@
    } else {
        Seq::empty()
    }
}

/// The numbers of a `go` request, as text.
pub open spec fn go_numbers_text(g: GoRequestView) -> Seq<char> {
    opt_text(" wtime "@, g.wtime) + opt_text(" btime "@, g.btime) + opt_text(" winc "@, g.winc) + opt_text(
        " binc "@,
        g.binc,
    ) + opt_text(" movestogo "@, g.moves_to_go) + opt_text(" depth "@, g.depth) + opt_text(" nodes "@, g.nodes)
        + opt_text(" mate "@, g.mate) + opt_text(" movetime "@, g.movetime)
}

/// A keyword and a number, when there is a number.
pub open spec fn opt_text(w: Seq<char>, v: Option<int>) -> Seq<char> {
    match v {
        Some(x) => w + signed_decimal(x),
        None => Seq::empty(),
    }
}

/// The text of a request.
pub open spec fn request_text(r: RequestView) -> Seq<char> {
    match r {
        RequestView::Uci => "uci"@,
        RequestView::Debug(x) => "debug "@ + if x {
            "on"@
        } else {
            "off"@
        },
        RequestView::IsReady => "isready"@,
        RequestView::UciNewGame => "ucinewgame"@,
        RequestView::SetOption { name, value } => "setoption name "@ + name + match value {
            Some(OptionValueView::Spin(x)) => " value "@ + signed_decimal(x),
            Some(OptionValueView::String(x)) => " value "@ + x,
            Some(OptionValueView::Check(x)) => " value "@ + if x {
                "true"@
            } else {
                "false"@
            },
            None => Seq::empty(),
        },
        RequestView::Position { fen, moves } => "position "@ + match fen {
            Some((sq, st)) => "fen "@ + fen_text(sq, st),
            None => "startposition"@,
        } + if moves.len() == 0 {
            Seq::empty()
        } else {
            " moves"@ + moves_spaced(moves)
        },
        RequestView::Go(g) => "go "@ + go_text(g),
        RequestView::Stop => "stop"@,
        RequestView::PonderHit => "ponderhit"@,
        RequestView::Quit => "quit"@,
    }
}

/// Appends a keyword and a number, when there is a number.
pub fn push_opt(out: &mut Vec<char>, w: &str, v: Option<i64>)
    ensures
        final(out)@ == old(out)@ + opt_text(w@, opt_int(v)),
{
    match v {
        Some(x) => {
            push_str(out, w);
            push_signed(out, x);
        },
        None => {},
    }
    assert(out@ =~= old(out)@ + opt_text(w@, opt_int(v)));
}

/// A small signed number as a wider one.
fn widen_i32(v: Option<i32>) -> (r: Option<i64>)
    ensures
        opt_int(r) == opt_int(v),
{
    match v {
        Some(x) => Some(x as i64),
        None => None,
    }
}

/// A small unsigned number as a wider one.
fn widen_u32(v: Option<u32>) -> (r: Option<u64>)
    ensures
        opt_int(r) == opt_int(v),
{
    match v {
        Some(x) => Some(x as u64),
        None => None,
    }
}

/// Appends a keyword and an unsigned number, when there is a number.
pub fn push_opt_unsigned(out: &mut Vec<char>, w: &str, v: Option<u64>)
    ensures
        final(out)@ == old(out)@ + opt_text(w@, opt_int(v)),
{
    match v {
        Some(x) => {
            push_str(out, w);
            push_decimal(out, x);
        },
        None => {},
    }
    assert(out@ =~= old(out)@ + opt_text(w@, opt_int(v)));
}

impl GoRequest {
    /// Appends the moves to search and the ponder flag.
    fn push_head(&self, out: &mut Vec<char>)
        ensures
            final(out)@ == old(out)@ + go_head_text(self@),
    {
        let ghost o = old(out)@;
        match &self.searchmoves {
            Some(ms) => {
                push_str(out, " searchmoves");
                push_moves_spaced(out, ms);
            },
            None => {},
        }
        if self.ponder {
            push_str(out, " ponder");
        }
        assert(out@ =~= o + go_head_text(self@));
    }

    /// Appends the times and increments.
    fn push_times(&self, out: &mut Vec<char>)
        ensures
            final(out)@ == old(out)@ + (opt_text(" wtime "@, self@.wtime) + opt_text(" btime "@, self@.btime)
                + opt_text(" winc "@, self@.winc) + opt_text(" binc "@, self@.binc)),
    {
        let ghost o = old(out)@;
        push_opt(out, " wtime ", self.wtime);
        let ghost o1 = out@;
        push_opt(out, " btime ", self.btime);
        let ghost o2 = out@;
        push_opt(out, " winc ", widen_i32(self.winc));
        let ghost o3 = out@;
        push_opt(out, " binc ", widen_i32(self.binc));
        assert(out@ =~= o + (opt_text(" wtime "@, self@.wtime) + opt_text(" btime "@, self@.btime)
            + opt_text(" winc "@, self@.winc) + opt_text(" binc "@, self@.binc)));
    }

    /// Appends the limits of the search.
    fn push_limits(&self, out: &mut Vec<char>)
        ensures
            final(out)@ == old(out)@ + (opt_text(" movestogo "@, self@.moves_to_go) + opt_text(" depth "@, self@.depth)
                + opt_text(" nodes "@, self@.nodes) + opt_text(" mate "@, self@.mate) + opt_text(" movetime "@, self@.movetime)),
    {
        let ghost o = old(out)@;
        push_opt_unsigned(out, " movestogo ", widen_u32(self.moves_to_go));
        push_opt_unsigned(out, " depth ", widen_u32(self.depth));
        push_opt_unsigned(out, " nodes ", self.nodes);
        push_opt_unsigned(out, " mate ", widen_u32(self.mate));
        push_opt_unsigned(out, " movetime ", self.movetime);
        assert(out@ =~= o + (opt_text(" movestogo "@, self@.moves_to_go) + opt_text(" depth "@, self@.depth)
            + opt_text(" nodes "@, self@.nodes) + opt_text(" mate "@, self@.mate) + opt_text(" movetime "@, self@.movetime)));
    }

    /// Appends the numbers.
    fn push_numbers(&self, out: &mut Vec<char>)
        ensures
            final(out)@ == old(out)@ + go_numbers_text(self@),
    {
        let ghost o = old(out)@;
        self.push_times(out);
        self.push_limits(out);
        assert(out@ =~= o + go_numbers_text(self@));
    }

    /// Appends the text of the settings.
    fn push_text(&self, out: &mut Vec<char>)
        ensures
            final(out)@ == old(out)@ + go_text(self@),
    {
        let ghost o = old(out)@;
        self.push_head(out);
        self.push_numbers(out);
        if self.infinite {
            push_str(out, " infinite");
        }
        assert(out@ =~= o + go_text(self@));
    }

    /// The text of the settings, each after a space.
    pub fn to_string(&self) -> (r: String)
        ensures
            r@ == go_text(self@),
    {
        let mut out: Vec<char> = Vec::new();
        self.push_text(&mut out);
        assert(out@ =~= go_text(self@));
        string_of(&out)
    }
}

impl Request {
    /// The text of the request, as sent to an engine.
    pub fn to_string(&self) -> (r: String)
        requires
            self@ matches RequestView::Position { fen: Some((_, st)), .. } ==> st.en_passant < 159,
        ensures
            r@ == request_text(self@),
    {
        let mut out: Vec<char> = Vec::new();
        match self {
            Request::Uci => push_str(&mut out, "uci"),
            Request::Debug(x) => {
                push_str(&mut out, "debug ");
                if *x {
                    push_str(&mut out, "on");
                } else {
                    push_str(&mut out, "off");
                }
            },
            Request::IsReady => push_str(&mut out, "isready"),
            Request::UciNewGame => push_str(&mut out, "ucinewgame"),
            Request::SetOption { name, value } => {
                push_str(&mut out, "setoption name ");
                push_str(&mut out, name.as_str());
                match value {
                    Some(OptionValue::Spin(x)) => {
                        push_str(&mut out, " value ");
                        push_signed(&mut out, *x);
                    },
                    Some(OptionValue::String(x)) => {
                        push_str(&mut out, " value ");
                        push_str(&mut out, x.as_str());
                    },
                    Some(OptionValue::Check(x)) => {
                        push_str(&mut out, " value ");
                        if *x {
                            push_str(&mut out, "true");
                        } else {
                            push_str(&mut out, "false");
                        }
                    },
                    None => {},
                }
            },
            Request::Position { fen, moves } => {
                push_str(&mut out, "position ");
                match fen {
                    Some(b) => {
                        push_str(&mut out, "fen ");
                        let f = b.to_fen();
                        push_str(&mut out, f.as_str());
                    },
                    None => push_str(&mut out, "startposition"),
                }
                if moves.len() != 0 {
                    push_str(&mut out, " moves");
                    push_moves_spaced(&mut out, moves);
                }
            },
            Request::Go(g) => {
                push_str(&mut out, "go ");
                g.push_text(&mut out);
            },
            Request::Stop => push_str(&mut out, "stop"),
            Request::PonderHit => push_str(&mut out, "ponderhit"),
            Request::Quit => push_str(&mut out, "quit"),
        }
        assert(out@ =~= request_text(self@));
        string_of(&out)
    }
}

} // verus!
