use vstd::prelude::*;
use crate::chess_core::mov::{Move, Promotion, move_from, move_to, promotion_letter, promotion_option};
use crate::common::square::{Square, square_name, square_of_name};
use crate::text::{
    chars_of, decimal, is_ascii, join_words, parse_signed, parse_unsigned, push_decimal, push_joined,
    push_str, signed_between, split_words, string_of, unsigned_at_most, views, word_is, words,
};

verus! {

/// The ways a UCI line can fail to parse.
#[derive(Debug)]
pub enum UciParseError {
    /// The line was empty.
    EmptyLine,
    /// The line started with an unknown command.
    InvalidCommand(String),
    /// One of the expected words was missing.
    Unexpected { expected: Vec<String>, found: String },
}

/// A move as UCI writes it: origin square, target square and promotion piece.
#[derive(Clone, Copy, Debug)]
pub struct UciMove {
    pub from: Square,
    pub to: Square,
    pub promotion: Option<Promotion>,
}

impl View for UciMove {
    type V = (int, int, Option<Promotion>);

    /// The origin index, the target index and the promotion piece.
    open spec fn view(&self) -> (int, int, Option<Promotion>) {
        (self.from@, self.to@, self.promotion)
    }
}

/// The error of a text that is no UCI move.
#[derive(Debug)]
pub struct InvalidMove;

impl InvalidMove {
    /// The message of the error.
    pub fn to_string(&self) -> (r: String)
        ensures
            r@ == "invalid move"@,
    {
        "invalid move".to_owned()
    }
}

/// The promotion piece a lower-case letter stands for.
pub open spec fn promotion_of_letter(c: char) -> Option<Promotion> {
    if c == 'q' {
        Some(Promotion::Queen)
    } else if c == 'r' {
        Some(Promotion::Rook)
    } else if c == 'k' {
        Some(Promotion::Knight)
    } else if c == 'b' {
        Some(Promotion::Bishop)
    } else {
        None
    }
}

/// The move a word such as `e2e4` or `e7e8q` stands for. The first four characters must be
/// ASCII and name two squares. A fifth ASCII character must be a promotion letter; a fifth
/// character that is not ASCII, and everything after the fifth, is ignored.
pub open spec fn uci_move_of_word(w: Seq<char>) -> Option<(int, int, Option<Promotion>)> {
    if w.len() >= 4 && (w[0] as int) < 0x80 && (w[1] as int) < 0x80 && (w[2] as int) < 0x80
        && (w[3] as int) < 0x80 {
        match (square_of_name(w.subrange(0, 2)), square_of_name(w.subrange(2, 4))) {
            (Some(f), Some(t)) => if w.len() > 4 && (w[4] as int) < 0x80 {
                match promotion_of_letter(w[4]) {
                    Some(p) => Some((f, t, Some(p))),
                    None => None,
                }
            } else {
                Some((f, t, None))
            },
            _ => None,
        }
    } else {
        None
    }
}

/// The text of a UCI move: both square names, then the lower-case promotion letter.
pub open spec fn uci_move_text(m: (int, int, Option<Promotion>)) -> Seq<char> {
    square_name(m.0) + square_name(m.1) + match m.2 {
        Some(p) => seq![promotion_letter(p)],
        None => Seq::empty(),
    }
}

/// Reading the text of a move gives the move back.
pub proof fn lemma_uci_move_text_roundtrip(m: (int, int, Option<Promotion>))
    requires
        0 <= m.0 < 64,
        0 <= m.1 < 64,
    ensures
        uci_move_of_word(uci_move_text(m)) == Some(m),
{
    let w = uci_move_text(m);
    assert(w.subrange(0, 2) =~= square_name(m.0));
    assert(w.subrange(2, 4) =~= square_name(m.1));
    match m.2 {
        Some(p) => {
            assert(w[4] == promotion_letter(p));
        },
        None => {
            assert(w.len() == 4);
        },
    }
}

impl UciMove {
    /// Reads a move such as `e2e4` or `e7e8q`.
    pub fn from_chars(w: &[char]) -> (r: Result<UciMove, InvalidMove>)
        ensures
            match r {
                Ok(m) => uci_move_of_word(w@) == Some(m@),
                Err(_) => uci_move_of_word(w@) is None,
            },
    {
        if w.len() < 4 || !(is_ascii(w[0]) && is_ascii(w[1]) && is_ascii(w[2]) && is_ascii(w[3])) {
            return Err(InvalidMove);
        }
        proof {
            assert(seq![w@[0], w@[1]] =~= w@.subrange(0, 2));
            assert(seq![w@[2], w@[3]] =~= w@.subrange(2, 4));
        }
        let from = match Square::from_chars(w[0], w[1]) {
            Some(s) => s,
            None => return Err(InvalidMove),
        };
        let to = match Square::from_chars(w[2], w[3]) {
            Some(s) => s,
            None => return Err(InvalidMove),
        };
        let promotion = if w.len() > 4 && is_ascii(w[4]) {
            let c = w[4];
            if c == 'q' {
                Some(Promotion::Queen)
            } else if c == 'r' {
                Some(Promotion::Rook)
            } else if c == 'k' {
                Some(Promotion::Knight)
            } else if c == 'b' {
                Some(Promotion::Bishop)
            } else {
                return Err(InvalidMove);
            }
        } else {
            None
        };
        Ok(UciMove { from, to, promotion })
    }

    /// Reads a move such as `e2e4` or `e7e8q`.
    pub fn from_str(s: &str) -> (r: Result<UciMove, InvalidMove>)
        ensures
            match r {
                Ok(m) => uci_move_of_word(s@) == Some(m@),
                Err(_) => uci_move_of_word(s@) is None,
            },
    {
        let w = chars_of(s);
        Self::from_chars(&w)
    }

    /// Appends the text of the move.
    pub fn push_text(&self, out: &mut Vec<char>)
        ensures
            final(out)@ == old(out)@ + uci_move_text(self@),
    {
        self.from.push_name(out);
        self.to.push_name(out);
        let ghost names = out@;
        match self.promotion {
            Some(p) => {
                out.push(
                    match p {
                        Promotion::Queen => 'q',
                        Promotion::Knight => 'k',
                        Promotion::Rook => 'r',
                        Promotion::Bishop => 'b',
                    },
                );
            },
            None => {},
        }
        assert(out@ =~= old(out)@ + uci_move_text(self@));
    }

    /// The text of the move, such as `e7e8q`.
    pub fn to_string(&self) -> (r: String)
        ensures
            r@ == uci_move_text(self@),
    {
        let mut out: Vec<char> = Vec::new();
        self.push_text(&mut out);
        assert(out@ =~= uci_move_text(self@));
        string_of(&out)
    }
}

impl From<Move> for UciMove {
    fn from(value: Move) -> (r: UciMove) {
        let r = UciMove { from: value.from(), to: value.to(), promotion: value.get_promotion() };
        proof {
            let f = choose|s: Square| s@ == move_from(value@);
            let t = choose|s: Square| s@ == move_to(value@);
            assert(r.from@ == move_from(value@));
            assert(r.to@ == move_to(value@));
            Square::lemma_view_injective(r.from, f);
            Square::lemma_view_injective(r.to, t);
        }
        r
    }
}

impl vstd::std_specs::convert::FromSpecImpl<Move> for UciMove {
    open spec fn obeys_from_spec() -> bool {
        true
    }

    open spec fn from_spec(v: Move) -> UciMove {
        UciMove {
            from: choose|s: Square| s@ == move_from(v@),
            to: choose|s: Square| s@ == move_to(v@),
            promotion: promotion_option(v@),
        }
    }
}

/// Registration data sent by the GUI.
#[derive(Debug)]
pub enum RegisterCmd {
    Name(String),
    Code(String),
}

/// The position a `position` command starts from.
#[derive(Debug)]
pub enum StartOrFen {
    StartPosition,
    Fen(String),
}

/// A `position` command: a start position and the moves played from it.
#[derive(Debug)]
pub struct PositionCmd {
    pub position: StartOrFen,
    pub moves: Vec<UciMove>,
}

/// One setting of a `go` command. Times are in milliseconds.
#[derive(Debug)]
pub enum GoCmd {
    SearchMoves(Vec<UciMove>),
    Ponder,
    WhiteTime(u64),
    BlackTime(u64),
    WhiteInc(u64),
    BlackInc(u64),
    MovesToGo(u32),
    Depth(u32),
    Nodes(u64),
    Mate(u32),
    MoveTime(u32),
    Infinite,
}

/// A command received from the GUI.
#[derive(Debug)]
pub enum Cmd {
    Uci,
    Debug(bool),
    IsReady,
    SetOption { name: String, value: Option<String> },
    NewGame,
    Position(PositionCmd),
    Go(Vec<GoCmd>),
    Stop,
    PonderHit,
    Quit,
}

/// The content of a `go` setting.
pub enum GoCmdView {
    SearchMoves(Seq<(int, int, Option<Promotion>)>),
    Ponder,
    WhiteTime(int),
    BlackTime(int),
    WhiteInc(int),
    BlackInc(int),
    MovesToGo(int),
    Depth(int),
    Nodes(int),
    Mate(int),
    MoveTime(int),
    Infinite,
}

/// The content of a command; a `position` command's start is `None` for the start position
/// and the FEN text otherwise.
pub enum CmdView {
    Uci,
    Debug(bool),
    IsReady,
    SetOption { name: Seq<char>, value: Option<Seq<char>> },
    NewGame,
    Position { fen: Option<Seq<char>>, moves: Seq<(int, int, Option<Promotion>)> },
    Go(Seq<GoCmdView>),
    Stop,
    PonderHit,
    Quit,
}

/// The contents of a list of moves.
pub open spec fn moves_view(ms: Seq<UciMove>) -> Seq<(int, int, Option<Promotion>)> {
    ms.map_values(|m: UciMove| m@)
}

impl View for GoCmd {
    type V = GoCmdView;

    open spec fn view(&self) -> GoCmdView {
        match self {
            GoCmd::SearchMoves(m) => GoCmdView::SearchMoves(moves_view(m@)),
            GoCmd::Ponder => GoCmdView::Ponder,
            GoCmd::WhiteTime(t) => GoCmdView::WhiteTime(*t as int),
            GoCmd::BlackTime(t) => GoCmdView::BlackTime(*t as int),
            GoCmd::WhiteInc(t) => GoCmdView::WhiteInc(*t as int),
            GoCmd::BlackInc(t) => GoCmdView::BlackInc(*t as int),
            GoCmd::MovesToGo(x) => GoCmdView::MovesToGo(*x as int),
            GoCmd::Depth(x) => GoCmdView::Depth(*x as int),
            GoCmd::Nodes(x) => GoCmdView::Nodes(*x as int),
            GoCmd::Mate(x) => GoCmdView::Mate(*x as int),
            GoCmd::MoveTime(x) => GoCmdView::MoveTime(*x as int),
            GoCmd::Infinite => GoCmdView::Infinite,
        }
    }
}

/// The contents of a list of `go` settings.
pub open spec fn go_view(cs: Seq<GoCmd>) -> Seq<GoCmdView> {
    cs.map_values(|c: GoCmd| c@)
}

impl View for Cmd {
    type V = CmdView;

    open spec fn view(&self) -> CmdView {
        match self {
            Cmd::Uci => CmdView::Uci,
            Cmd::Debug(b) => CmdView::Debug(*b),
            Cmd::IsReady => CmdView::IsReady,
            Cmd::SetOption { name, value } => CmdView::SetOption {
                name: name@,
                value: match value {
                    Some(v) => Some(v@),
                    None => None,
                },
            },
            Cmd::NewGame => CmdView::NewGame,
            Cmd::Position(p) => CmdView::Position {
                fen: match &p.position {
                    StartOrFen::StartPosition => None,
                    StartOrFen::Fen(f) => Some(f@),
                },
                moves: moves_view(p.moves@),
            },
            Cmd::Go(g) => CmdView::Go(go_view(g@)),
            Cmd::Stop => CmdView::Stop,
            Cmd::PonderHit => CmdView::PonderHit,
            Cmd::Quit => CmdView::Quit,
        }
    }
}

/// The moves of a list of words, when every word is a move.
pub open spec fn moves_of_words(ts: Seq<Seq<char>>) -> Option<Seq<(int, int, Option<Promotion>)>> {
    if forall|j: int| 0 <= j < ts.len() ==> (#[trigger] uci_move_of_word(ts[j])) is Some {
        Some(Seq::new(ts.len(), |j: int| uci_move_of_word(ts[j])->0))
    } else {
        None
    }
}

/// The number of words from `j` on that are moves, before the first that is not.
pub open spec fn move_run(ws: Seq<Seq<char>>, j: int) -> nat
    decreases ws.len() - j,
{
    if j < 0 || j >= ws.len() || uci_move_of_word(ws[j]) is None {
        0
    } else {
        1 + move_run(ws, j + 1)
    }
}

/// A run of moves never reaches past the last word.
pub proof fn lemma_move_run_bound(ws: Seq<Seq<char>>, j: int)
    requires
        0 <= j,
    ensures
        j <= ws.len() ==> j + move_run(ws, j) <= ws.len(),
    decreases ws.len() - j,
{
    if j < ws.len() && uci_move_of_word(ws[j]) is Some {
        lemma_move_run_bound(ws, j + 1);
    }
}

/// The run of moves from `a` on ends at `j` when the words from `a` to `j` are moves and
/// the word at `j` is not, or there is none.
pub proof fn lemma_move_run_end(ws: Seq<Seq<char>>, a: int, j: int)
    requires
        0 <= a <= j <= ws.len(),
        forall|k: int| a <= k < j ==> (#[trigger] uci_move_of_word(ws[k])) is Some,
        j == ws.len() || uci_move_of_word(ws[j]) is None,
    ensures
        move_run(ws, a) == j - a,
    decreases j - a,
{
    if a < j {
        lemma_move_run_end(ws, a + 1, j);
    }
}

/// The `go` settings read from the words from `i` on, or `None` when one is malformed.
pub open spec fn go_of_words(ws: Seq<Seq<char>>, i: int) -> Option<Seq<GoCmdView>>
    decreases ws.len() - i,
{
    if i < 0 || i >= ws.len() {
        Some(Seq::empty())
    } else {
        let x = ws[i];
        if x == "searchmoves"@ {
            let n = move_run(ws, i + 1);
            proof {
                lemma_move_run_bound(ws, i + 1);
            }
            let ms = Seq::new(n, |k: int| uci_move_of_word(ws[i + 1 + k])->0);
            prepend(GoCmdView::SearchMoves(ms), go_of_words(ws, i + 1 + n))
        } else if x == "ponder"@ {
            prepend(GoCmdView::Ponder, go_of_words(ws, i + 1))
        } else if x == "infinite"@ {
            prepend(GoCmdView::Infinite, go_of_words(ws, i + 1))
        } else if i + 1 >= ws.len() {
            None
        } else {
            let v = ws[i + 1];
            let u32_max = 0xffff_ffff;
            if x == "wtime"@ || x == "btime"@ || x == "movestogo"@ || x == "depth"@ || x == "mate"@
                || x == "movetime"@ || x == "nodes"@ {
                let max = if x == "wtime"@ || x == "btime"@ || x == "movestogo"@ || x == "depth"@ || x == "mate"@
                    || x == "movetime"@ {
                    u32_max
                } else {
                    0xffff_ffff_ffff_ffff
                };
                match unsigned_at_most(v, max) {
                    Some(t) => {
                        let c = if x == "wtime"@ {
                            GoCmdView::WhiteTime(t)
                        } else if x == "btime"@ {
                            GoCmdView::BlackTime(t)
                        } else if x == "movestogo"@ {
                            GoCmdView::MovesToGo(t)
                        } else if x == "depth"@ {
                            GoCmdView::Depth(t)
                        } else if x == "mate"@ {
                            GoCmdView::Mate(t)
                        } else if x == "movetime"@ {
                            GoCmdView::MoveTime(t)
                        } else {
                            GoCmdView::Nodes(t)
                        };
                        prepend(c, go_of_words(ws, i + 2))
                    },
                    None => None,
                }
            } else if x == "winc"@ || x == "binc"@ {
                match signed_between(v, -0x8000_0000, 0x7fff_ffff) {
                    Some(t) => if t > 0 {
                        prepend(
                            if x == "winc"@ {
                                GoCmdView::WhiteInc(t)
                            } else {
                                GoCmdView::BlackInc(t)
                            },
                            go_of_words(ws, i + 2),
                        )
                    } else {
                        go_of_words(ws, i + 2)
                    },
                    None => None,
                }
            } else {
                None
            }
        }
    }
}

/// A setting in front of the settings that follow it, unless those are malformed.
pub open spec fn prepend(c: GoCmdView, rest: Option<Seq<GoCmdView>>) -> Option<Seq<GoCmdView>> {
    match rest {
        Some(r) => Some(seq![c] + r),
        None => None,
    }
}

/// Settings already read in front of the settings that follow them.
pub open spec fn prepend_all(cs: Seq<GoCmdView>, rest: Option<Seq<GoCmdView>>) -> Option<Seq<GoCmdView>> {
    match rest {
        Some(r) => Some(cs + r),
        None => None,
    }
}

/// The `position` command of the words, which start with `position`.
pub open spec fn position_of_words(ws: Seq<Seq<char>>) -> Option<CmdView> {
    if ws.len() < 2 {
        None
    } else if ws[1] == "startpos"@ {
        position_moves(ws, 2, None)
    } else if ws[1] == "fen"@ {
        if ws.len() < 8 {
            None
        } else {
            position_moves(ws, 8, Some(join_words(ws.subrange(2, 8))))
        }
    } else {
        None
    }
}

/// The `position` command with the given start, whose moves follow a `moves` word at `k`.
/// Words after the start that do not begin with `moves` are ignored.
pub open spec fn position_moves(ws: Seq<Seq<char>>, k: int, fen: Option<Seq<char>>) -> Option<CmdView> {
    if ws.len() > k && ws[k] == "moves"@ {
        match moves_of_words(ws.subrange(k + 1, ws.len() as int)) {
            Some(ms) => Some(CmdView::Position { fen, moves: ms }),
            None => None,
        }
    } else {
        Some(CmdView::Position { fen, moves: Seq::empty() })
    }
}

/// The command that a line's words stand for, or `None` when they stand for none.
pub open spec fn cmd_of_words(ws: Seq<Seq<char>>) -> Option<CmdView> {
    if ws.len() == 0 {
        None
    } else {
        let first = ws[0];
        if first == "uci"@ {
            Some(CmdView::Uci)
        } else if first == "debug"@ {
            Some(CmdView::Debug(!(ws.len() > 1 && ws[1] == "off"@)))
        } else if first == "isready"@ {
            Some(CmdView::IsReady)
        } else if first == "setoption"@ {
            if ws.len() > 2 && ws[1] == "name"@ {
                Some(
                    CmdView::SetOption {
                        name: ws[2],
                        value: if ws.len() > 4 && ws[3] == "value"@ {
                            Some(ws[4])
                        } else {
                            None
                        },
                    },
                )
            } else {
                None
            }
        } else if first == "ucinewgame"@ {
            Some(CmdView::NewGame)
        } else if first == "position"@ {
            position_of_words(ws)
        } else if first == "go"@ {
            match go_of_words(ws, 1) {
                Some(g) => Some(CmdView::Go(g)),
                None => None,
            }
        } else if first == "stop"@ {
            Some(CmdView::Stop)
        } else if first == "ponderhit"@ {
            Some(CmdView::PonderHit)
        } else if first == "quit"@ {
            Some(CmdView::Quit)
        } else {
            None
        }
    }
}

/// Reads the moves in the words from `start` on; fails unless all of them are moves.
fn moves_from(ws: &Vec<Vec<char>>, start: usize) -> (r: Option<Vec<UciMove>>)
    requires
        start <= ws@.len(),
    ensures
        match r {
            Some(ms) => moves_of_words(views(ws@).subrange(start as int, ws@.len() as int)) == Some(moves_view(ms@)),
            None => moves_of_words(views(ws@).subrange(start as int, ws@.len() as int)) is None,
        },
{
    let ghost ts = views(ws@).subrange(start as int, ws@.len() as int);
    let mut moves: Vec<UciMove> = Vec::new();
    let mut j: usize = start;
    while j < ws.len()
        invariant
            start <= j <= ws@.len(),
            ts == views(ws@).subrange(start as int, ws@.len() as int),
            moves@.len() == j - start,
            forall|k: int| 0 <= k < j - start ==> (#[trigger] uci_move_of_word(ts[k])) == Some(moves@[k]@),
        decreases ws@.len() - j,
    {
        match UciMove::from_chars(&ws[j]) {
            Ok(m) => {
                moves.push(m);
                assert(ts[j - start] == ws@[j as int]@);
            },
            Err(_) => {
                assert(ts[j - start] == ws@[j as int]@);
                assert(uci_move_of_word(ts[j - start]) is None);
                return None;
            },
        }
        j = j + 1;
    }
    assert(moves_view(moves@) =~= Seq::new(ts.len(), |k: int| uci_move_of_word(ts[k])->0));
    Some(moves)
}

impl Cmd {
    /// Parses a line of UCI commands, returns none if the command was invalid.
    pub fn from_line(line: &str) -> (r: Option<Cmd>)
        ensures
            match r {
                Some(c) => cmd_of_words(words(line@)) == Some(c@),
                None => cmd_of_words(words(line@)) is None,
            },
    {
        let ws = split_words(line);
        let ghost w = views(ws@);
        assert(w == words(line@));
        if ws.len() == 0 {
            return None;
        }
        let first = &ws[0];
        assert(w[0] == first@);
        if word_is(first, "uci") {
            return Some(Cmd::Uci);
        }
        if word_is(first, "debug") {
            let mut enabled = true;
            if ws.len() > 1 {
                assert(w[1] == ws@[1]@);
                if word_is(&ws[1], "off") {
                    enabled = false;
                }
            }
            return Some(Cmd::Debug(enabled));
        }
        if word_is(first, "isready") {
            return Some(Cmd::IsReady);
        }
        if word_is(first, "setoption") {
            if ws.len() > 2 && word_is(&ws[1], "name") {
                assert(w[1] == ws@[1]@ && w[2] == ws@[2]@);
                let name = string_of(&ws[2]);
                let mut value: Option<String> = None;
                if ws.len() > 4 && word_is(&ws[3], "value") {
                    assert(w[3] == ws@[3]@ && w[4] == ws@[4]@);
                    value = Some(string_of(&ws[4]));
                }
                return Some(Cmd::SetOption { name, value });
            }
            proof {
                if ws.len() > 2 {
                    assert(w[1] == ws@[1]@);
                }
            }
            return None;
        }
        if word_is(first, "ucinewgame") {
            return Some(Cmd::NewGame);
        }
        if word_is(first, "position") {
            return Self::position_from_words(&ws);
        }
        if word_is(first, "go") {
            return match Self::go_from_words(&ws) {
                Some(g) => Some(Cmd::Go(g)),
                None => None,
            };
        }
        if word_is(first, "stop") {
            return Some(Cmd::Stop);
        }
        if word_is(first, "ponderhit") {
            return Some(Cmd::PonderHit);
        }
        if word_is(first, "quit") {
            return Some(Cmd::Quit);
        }
        None
    }

    /// Reads a `position` command from its words.
    fn position_from_words(ws: &Vec<Vec<char>>) -> (r: Option<Cmd>)
        requires
            ws@.len() > 0,
        ensures
            match r {
                Some(c) => position_of_words(views(ws@)) == Some(c@),
                None => position_of_words(views(ws@)) is None,
            },
    {
        let ghost w = views(ws@);
        if ws.len() < 2 {
            return None;
        }
        assert(w[1] == ws@[1]@);
        let (position, k) = if word_is(&ws[1], "startpos") {
            (StartOrFen::StartPosition, 2usize)
        } else if word_is(&ws[1], "fen") {
            if ws.len() < 8 {
                return None;
            }
            let mut fen: Vec<char> = Vec::new();
            push_joined(&mut fen, ws, 2, 8);
            assert(fen@ =~= join_words(w.subrange(2, 8)));
            (StartOrFen::Fen(string_of(&fen)), 8usize)
        } else {
            return None;
        };
        let ghost start = match &position {
            StartOrFen::StartPosition => None::<Seq<char>>,
            StartOrFen::Fen(f) => Some(f@),
        };
        assert(position_of_words(w) == position_moves(w, k as int, start));
        if ws.len() > k && word_is(&ws[k], "moves") {
            assert(w[k as int] == ws@[k as int]@);
            match moves_from(ws, k + 1) {
                Some(moves) => Some(Cmd::Position(PositionCmd { position, moves })),
                None => None,
            }
        } else {
            proof {
                if ws.len() > k {
                    assert(w[k as int] == ws@[k as int]@);
                }
            }
            let moves: Vec<UciMove> = Vec::new();
            let r = Cmd::Position(PositionCmd { position, moves });
            assert(moves_view(moves@) =~= Seq::empty());
            Some(r)
        }
    }

    /// Reads the settings of a `go` command from its words.
    fn go_from_words(ws: &Vec<Vec<char>>) -> (r: Option<Vec<GoCmd>>)
        requires
            ws@.len() > 0,
        ensures
            match r {
                Some(g) => go_of_words(views(ws@), 1) == Some(go_view(g@)),
                None => go_of_words(views(ws@), 1) is None,
            },
    {
        let ghost w = views(ws@);
        let mut cmd: Vec<GoCmd> = Vec::new();
        let mut i: usize = 1;
        while i < ws.len()
            invariant
                1 <= i <= ws@.len(),
                w == views(ws@),
                go_of_words(w, 1) == prepend_all(go_view(cmd@), go_of_words(w, i as int)),
            decreases ws@.len() - i,
        {
            let ghost before = go_view(cmd@);
            match go_setting(ws, i) {
                Some((c, next)) => {
                    match c {
                        Some(c) => {
                            cmd.push(c);
                            proof {
                                assert(go_view(cmd@) =~= before.push(c@));
                                if go_of_words(w, next as int) is Some {
                                    assert(before.push(c@) + go_of_words(w, next as int)->0
                                        =~= before + (seq![c@] + go_of_words(w, next as int)->0));
                                }
                            }
                        },
                        None => {},
                    }
                    i = next;
                },
                None => {
                    return None;
                },
            }
        }
        assert(go_view(cmd@) + Seq::<GoCmdView>::empty() =~= go_view(cmd@));
        Some(cmd)
    }
}

/// Reads the run of moves that starts at word `start`: the moves, and the first word after
/// them.
pub fn read_move_run(ws: &Vec<Vec<char>>, start: usize) -> (r: (Vec<UciMove>, usize))
    requires
        start <= ws@.len(),
    ensures
        r.1 == start + move_run(views(ws@), start as int),
        moves_view(r.0@) == Seq::new(move_run(views(ws@), start as int), |k: int| uci_move_of_word(views(ws@)[start + k])->0),
{
    let ghost w = views(ws@);
    let mut moves: Vec<UciMove> = Vec::new();
    let mut j: usize = start;
    let mut stop = false;
    while j < ws.len() && !stop
        invariant
            start <= j <= ws@.len(),
            w == views(ws@),
            moves@.len() == j - start,
            stop ==> j < ws@.len() && uci_move_of_word(w[j as int]) is None,
            forall|k: int| start <= k < j ==> (#[trigger] uci_move_of_word(w[k])) is Some,
            forall|k: int| 0 <= k < j - start ==> uci_move_of_word(w[start + k]) == Some(#[trigger] moves@[k]@),
        decreases ws@.len() - j, (if stop { 0int } else { 1int }),
    {
        assert(w[j as int] == ws@[j as int]@);
        match UciMove::from_chars(&ws[j]) {
            Ok(m) => {
                moves.push(m);
                j = j + 1;
            },
            Err(_) => {
                stop = true;
            },
        }
    }
    proof {
        lemma_move_run_end(w, start as int, j as int);
        assert(moves_view(moves@) =~= Seq::new(move_run(w, start as int), |k: int| uci_move_of_word(w[start + k])->0));
    }
    (moves, j)
}

/// Reads the `go` setting at word `i`: the setting, if it gives one, and the word after it.
fn go_setting(ws: &Vec<Vec<char>>, i: usize) -> (r: Option<(Option<GoCmd>, usize)>)
    requires
        1 <= i < ws@.len(),
    ensures
        match r {
            Some((c, next)) => i < next <= ws@.len() && go_of_words(views(ws@), i as int) == match c {
                Some(c) => prepend(c@, go_of_words(views(ws@), next as int)),
                None => go_of_words(views(ws@), next as int),
            },
            None => go_of_words(views(ws@), i as int) is None,
        },
{
    let ghost w = views(ws@);
    let n = ws.len();
    let x = &ws[i];
    assert(w[i as int] == x@);
    if word_is(x, "searchmoves") {
        let (moves, j) = read_move_run(ws, i + 1);
        proof {
            lemma_move_run_bound(w, i + 1);
        }
        return Some((Some(GoCmd::SearchMoves(moves)), j));
    }
    if word_is(x, "ponder") {
        return Some((Some(GoCmd::Ponder), i + 1));
    }
    if word_is(x, "infinite") {
        return Some((Some(GoCmd::Infinite), i + 1));
    }
    if i + 1 >= n {
        return None;
    }
    let v = &ws[i + 1];
    assert(w[i + 1] == v@);
    let is_wtime = word_is(x, "wtime");
    let is_btime = word_is(x, "btime");
    let is_movestogo = word_is(x, "movestogo");
    let is_depth = word_is(x, "depth");
    let is_mate = word_is(x, "mate");
    let is_movetime = word_is(x, "movetime");
    let is_nodes = word_is(x, "nodes");
    if is_wtime || is_btime || is_movestogo || is_depth || is_mate || is_movetime || is_nodes {
        let max: u64 = if is_wtime || is_btime || is_movestogo || is_depth || is_mate || is_movetime {
            0xffff_ffff
        } else {
            0xffff_ffff_ffff_ffff
        };
        let t = match parse_unsigned(v, max) {
            Some(t) => t,
            None => return None,
        };
        let c = if is_wtime {
            GoCmd::WhiteTime(t)
        } else if is_btime {
            GoCmd::BlackTime(t)
        } else if is_movestogo {
            GoCmd::MovesToGo(t as u32)
        } else if is_depth {
            GoCmd::Depth(t as u32)
        } else if is_mate {
            GoCmd::Mate(t as u32)
        } else if is_movetime {
            GoCmd::MoveTime(t as u32)
        } else {
            GoCmd::Nodes(t)
        };
        assert(go_of_words(w, i as int) == prepend(c@, go_of_words(w, i + 2)));
        return Some((Some(c), i + 2));
    }
    let is_winc = word_is(x, "winc");
    let is_binc = word_is(x, "binc");
    if is_winc || is_binc {
        let t = match parse_signed(v, 0x8000_0000, 0x7fff_ffff) {
            Some(t) => t,
            None => return None,
        };
        if t > 0 {
            let c = if is_winc { GoCmd::WhiteInc(t as u64) } else { GoCmd::BlackInc(t as u64) };
            return Some((Some(c), i + 2));
        }
        return Some((None, i + 2));
    }
    None
}

/// The texts of moves written one after another with nothing between them.
pub open spec fn moves_concat(ms: Seq<(int, int, Option<Promotion>)>) -> Seq<char>
    decreases ms.len(),
{
    if ms.len() == 0 {
        Seq::empty()
    } else {
        moves_concat(ms.drop_last()) + uci_move_text(ms.last())
    }
}

/// The texts of moves, each after a space.
pub open spec fn moves_spaced(ms: Seq<(int, int, Option<Promotion>)>) -> Seq<char>
    decreases ms.len(),
{
    if ms.len() == 0 {
        Seq::empty()
    } else {
        moves_spaced(ms.drop_last()) + seq![' '] + uci_move_text(ms.last())
    }
}

/// The text of a `go` setting, with the space before it.
pub open spec fn go_cmd_text(g: GoCmdView) -> Seq<char> {
    match g {
        GoCmdView::SearchMoves(ms) => " searchmoves"@ + moves_spaced(ms),
        GoCmdView::Ponder => " ponder"@,
        GoCmdView::WhiteTime(t) => " wtime "@ + decimal(t as nat),
        GoCmdView::BlackTime(t) => " btime "@ + decimal(t as nat),
        GoCmdView::WhiteInc(t) => " winc "@ + decimal(t as nat),
        GoCmdView::BlackInc(t) => " binc "@ + decimal(t as nat),
        GoCmdView::MovesToGo(x) => " movestogo "@ + decimal(x as nat),
        GoCmdView::Depth(x) => " depth "@ + decimal(x as nat),
        GoCmdView::Nodes(x) => " nodes "@ + decimal(x as nat),
        GoCmdView::Mate(x) => " mate "@ + decimal(x as nat),
        GoCmdView::MoveTime(x) => " movetime "@ + decimal(x as nat),
        GoCmdView::Infinite => " infinite"@,
    }
}

/// The texts of `go` settings one after another.
pub open spec fn go_texts(gs: Seq<GoCmdView>) -> Seq<char>
    decreases gs.len(),
{
    if gs.len() == 0 {
        Seq::empty()
    } else {
        go_texts(gs.drop_last()) + go_cmd_text(gs.last())
    }
}

/// Whether a `go` setting can be written: times fit in 32 bits, increments in 31.
pub open spec fn go_cmd_printable(g: GoCmdView) -> bool {
    match g {
        GoCmdView::WhiteTime(t) => t <= 0xffff_ffff,
        GoCmdView::BlackTime(t) => t <= 0xffff_ffff,
        GoCmdView::WhiteInc(t) => t <= 0x7fff_ffff,
        GoCmdView::BlackInc(t) => t <= 0x7fff_ffff,
        _ => true,
    }
}

/// Whether every setting in a list can be written.
pub open spec fn go_printable(gs: Seq<GoCmdView>) -> bool {
    forall|i: int| 0 <= i < gs.len() ==> go_cmd_printable(#[trigger] gs[i])
}

/// Whether a command can be written: every `go` setting can.
pub open spec fn cmd_printable(c: CmdView) -> bool {
    match c {
        CmdView::Go(gs) => go_printable(gs),
        _ => true,
    }
}

/// The text of a command.
pub open spec fn cmd_text(c: CmdView) -> Seq<char> {
    match c {
        CmdView::Uci => "uci"@,
        CmdView::Debug(on) => if on {
            "debug on"@
        } else {
            "debug off"@
        },
        CmdView::IsReady => "isready"@,
        CmdView::SetOption { name, value } => "setoption name "@ + name + match value {
            Some(v) => " value "@ + v,
            None => Seq::empty(),
        },
        CmdView::NewGame => "ucinewgame"@,
        CmdView::Position { fen, moves } => "position"@ + match fen {
            Some(f) => " fen "@ + f,
            None => " startpos"@,
        } + if moves.len() > 0 {
            " moves"@ + moves_concat(moves)
        } else {
            Seq::empty()
        },
        CmdView::Go(gs) => "go"@ + go_texts(gs),
        CmdView::Stop => "stop"@,
        CmdView::PonderHit => "ponderhit"@,
        CmdView::Quit => "quit"@,
    }
}

/// Appends the texts of moves, with nothing between them or, when `spaced`, each after a
/// space.
fn push_moves(out: &mut Vec<char>, ms: &Vec<UciMove>, spaced: bool)
    ensures
        final(out)@ == old(out)@ + if spaced {
            moves_spaced(moves_view(ms@))
        } else {
            moves_concat(moves_view(ms@))
        },
{
    let mut i: usize = 0;
    while i < ms.len()
        invariant
            i <= ms@.len(),
            out@ == old(out)@ + if spaced {
                moves_spaced(moves_view(ms@.take(i as int)))
            } else {
                moves_concat(moves_view(ms@.take(i as int)))
            },
        decreases ms@.len() - i,
    {
        let ghost before = out@;
        if spaced {
            out.push(' ');
        }
        ms[i].push_text(out);
        let ghost t = moves_view(ms@.take(i + 1));
        assert(t.drop_last() =~= moves_view(ms@.take(i as int)));
        assert(t.last() == ms@[i as int]@);
        proof {
            if spaced {
                assert(out@ =~= before + seq![' '] + uci_move_text(ms@[i as int]@));
            }
        }
        i = i + 1;
    }
    assert(ms@.take(i as int) =~= ms@);
}

/// Appends the text of a `go` setting.
fn push_go_cmd(out: &mut Vec<char>, g: &GoCmd)
    requires
        go_cmd_printable(g@),
    ensures
        final(out)@ == old(out)@ + go_cmd_text(g@),
{
    match g {
        GoCmd::SearchMoves(ms) => {
            push_str(out, " searchmoves");
            push_moves(out, ms, true);
        },
        GoCmd::Ponder => push_str(out, " ponder"),
        GoCmd::WhiteTime(t) => {
            push_str(out, " wtime ");
            push_decimal(out, *t);
        },
        GoCmd::BlackTime(t) => {
            push_str(out, " btime ");
            push_decimal(out, *t);
        },
        GoCmd::WhiteInc(t) => {
            push_str(out, " winc ");
            push_decimal(out, *t);
        },
        GoCmd::BlackInc(t) => {
            push_str(out, " binc ");
            push_decimal(out, *t);
        },
        GoCmd::MovesToGo(x) => {
            push_str(out, " movestogo ");
            push_decimal(out, *x as u64);
        },
        GoCmd::Depth(x) => {
            push_str(out, " depth ");
            push_decimal(out, *x as u64);
        },
        GoCmd::Nodes(x) => {
            push_str(out, " nodes ");
            push_decimal(out, *x);
        },
        GoCmd::Mate(x) => {
            push_str(out, " mate ");
            push_decimal(out, *x as u64);
        },
        GoCmd::MoveTime(x) => {
            push_str(out, " movetime ");
            push_decimal(out, *x as u64);
        },
        GoCmd::Infinite => push_str(out, " infinite"),
    }
    assert(out@ =~= old(out)@ + go_cmd_text(g@));
}

impl Cmd {
    /// The text of the command, as sent to an engine.
    pub fn to_string(&self) -> (r: String)
        requires
            cmd_printable(self@),
        ensures
            r@ == cmd_text(self@),
    {
        let mut out: Vec<char> = Vec::new();
        match self {
            Cmd::Uci => push_str(&mut out, "uci"),
            Cmd::Debug(on) => {
                if *on {
                    push_str(&mut out, "debug on");
                } else {
                    push_str(&mut out, "debug off");
                }
            },
            Cmd::IsReady => push_str(&mut out, "isready"),
            Cmd::SetOption { name, value } => {
                push_str(&mut out, "setoption name ");
                push_str(&mut out, name.as_str());
                match value {
                    Some(v) => {
                        push_str(&mut out, " value ");
                        push_str(&mut out, v.as_str());
                    },
                    None => {},
                }
            },
            Cmd::NewGame => push_str(&mut out, "ucinewgame"),
            Cmd::Position(p) => {
                push_str(&mut out, "position");
                match &p.position {
                    StartOrFen::Fen(f) => {
                        push_str(&mut out, " fen ");
                        push_str(&mut out, f.as_str());
                    },
                    StartOrFen::StartPosition => push_str(&mut out, " startpos"),
                }
                if p.moves.len() > 0 {
                    push_str(&mut out, " moves");
                    push_moves(&mut out, &p.moves, false);
                }
            },
            Cmd::Go(gs) => {
                push_str(&mut out, "go");
                let ghost head = out@;
                assert(self@ == CmdView::Go(go_view(gs@)));
                assert(go_view(gs@).len() == gs@.len());
                let mut i: usize = 0;
                while i < gs.len()
                    invariant
                        i <= gs@.len(),
                        head == "go"@,
                        go_printable(go_view(gs@)),
                        out@ == head + go_texts(go_view(gs@).take(i as int)),
                    decreases gs@.len() - i,
                {
                    assert(go_cmd_printable(go_view(gs@)[i as int]));
                    push_go_cmd(&mut out, &gs[i]);
                    let ghost t = go_view(gs@).take(i + 1);
                    assert(t.drop_last() =~= go_view(gs@).take(i as int));
                    i = i + 1;
                }
                assert(go_view(gs@).take(i as int) =~= go_view(gs@));
            },
            Cmd::Stop => push_str(&mut out, "stop"),
            Cmd::PonderHit => push_str(&mut out, "ponderhit"),
            Cmd::Quit => push_str(&mut out, "quit"),
        }
        assert(out@ =~= cmd_text(self@));
        string_of(&out)
    }
}

} // verus!
