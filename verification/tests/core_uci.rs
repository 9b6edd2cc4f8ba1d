use chess::chess_core::uci::cmd::{Cmd, GoCmd, StartOrFen, UciMove};
use chess::chess_core::uci::msg::{Id, InfoMsg, Msg, ScoreKind};

#[test]
fn cmd_simple() {
    assert!(matches!(Cmd::from_line("uci"), Some(Cmd::Uci)));
    assert!(matches!(Cmd::from_line("  isready "), Some(Cmd::IsReady)));
    assert!(matches!(Cmd::from_line("ucinewgame"), Some(Cmd::NewGame)));
    assert!(matches!(Cmd::from_line("debug"), Some(Cmd::Debug(true))));
    assert!(matches!(Cmd::from_line("debug off"), Some(Cmd::Debug(false))));
    assert!(matches!(Cmd::from_line("debug whatever"), Some(Cmd::Debug(true))));
    assert!(Cmd::from_line("").is_none());
    assert!(Cmd::from_line("frobnicate").is_none());
}

#[test]
fn cmd_setoption() {
    match Cmd::from_line("setoption name Hash value 64") {
        Some(Cmd::SetOption { name, value }) => {
            assert_eq!(name, "Hash");
            assert_eq!(value.as_deref(), Some("64"));
        }
        _ => panic!("expected an option"),
    }
    match Cmd::from_line("setoption name Clear") {
        Some(Cmd::SetOption { name, value }) => {
            assert_eq!(name, "Clear");
            assert!(value.is_none());
        }
        _ => panic!("expected an option"),
    }
    assert!(Cmd::from_line("setoption Hash").is_none());
}

#[test]
fn cmd_position() {
    match Cmd::from_line("position startpos moves e2e4 e7e5") {
        Some(Cmd::Position(p)) => {
            assert!(matches!(p.position, StartOrFen::StartPosition));
            let names: Vec<String> = p.moves.iter().map(|m| m.to_string()).collect();
            assert_eq!(names, vec!["e2e4", "e7e5"]);
        }
        _ => panic!("expected a position"),
    }
    match Cmd::from_line("position fen 4k3/8/8/8/8/8/8/4K3 w - - 0 1") {
        Some(Cmd::Position(p)) => match p.position {
            StartOrFen::Fen(f) => assert_eq!(f, "4k3/8/8/8/8/8/8/4K3 w - - 0 1"),
            _ => panic!("expected a fen"),
        },
        _ => panic!("expected a position"),
    }
    assert!(Cmd::from_line("position fen 4k3/8/8/8").is_none());
    assert!(Cmd::from_line("position startpos moves e2e9").is_none());
    assert!(Cmd::from_line("position").is_none());
}

#[test]
fn cmd_go() {
    match Cmd::from_line("go wtime 100 btime 200 winc -5 binc 7 depth 3 infinite") {
        Some(Cmd::Go(g)) => {
            assert_eq!(g.len(), 5);
            assert!(matches!(g[0], GoCmd::WhiteTime(100)));
            assert!(matches!(g[1], GoCmd::BlackTime(200)));
            assert!(matches!(g[2], GoCmd::BlackInc(7)));
            assert!(matches!(g[3], GoCmd::Depth(3)));
            assert!(matches!(g[4], GoCmd::Infinite));
        }
        _ => panic!("expected go"),
    }
    match Cmd::from_line("go searchmoves e2e4 d2d4 ponder") {
        Some(Cmd::Go(g)) => {
            assert_eq!(g.len(), 2);
            match &g[0] {
                GoCmd::SearchMoves(m) => assert_eq!(m.len(), 2),
                _ => panic!("expected moves"),
            }
            assert!(matches!(g[1], GoCmd::Ponder));
        }
        _ => panic!("expected go"),
    }
    assert!(Cmd::from_line("go depth x").is_none());
}

#[test]
fn cmd_text() {
    assert_eq!(Cmd::from_line("uci").unwrap().to_string(), "uci");
    assert_eq!(Cmd::from_line("debug off").unwrap().to_string(), "debug off");
    assert_eq!(
        Cmd::from_line("setoption name Hash value 64").unwrap().to_string(),
        "setoption name Hash value 64"
    );
    assert_eq!(Cmd::from_line("go depth 3 infinite").unwrap().to_string(), "go depth 3 infinite");
}

#[test]
fn uci_move_text() {
    let m = UciMove::from_str("e7e8q").unwrap();
    assert_eq!(m.to_string(), "e7e8q");
    let m = UciMove::from_str("g1f3").unwrap();
    assert_eq!(m.to_string(), "g1f3");
    assert!(UciMove::from_str("e7e8x").is_err());
    assert!(UciMove::from_str("e7").is_err());
    assert_eq!(UciMove::from_str("i1a1").unwrap_err().to_string(), "invalid move");
}

#[test]
fn msg_parse() {
    assert!(matches!(Msg::from_line("uciok"), Some(Msg::UciOk)));
    assert!(matches!(Msg::from_line("readyok"), Some(Msg::ReadyOk)));
    match Msg::from_line("id name Deep   Thought") {
        Some(Msg::Id(Id::Name(n))) => assert_eq!(n, "Deep Thought"),
        _ => panic!("expected a name"),
    }
    match Msg::from_line("id version 1 2 3") {
        Some(Msg::Id(Id::Version(v))) => {
            assert_eq!((v.major, v.minor, v.patch), (1, 2, 3));
        }
        _ => panic!("expected a version"),
    }
    match Msg::from_line("bestmove e2e4 ponder e7e5") {
        Some(Msg::BestMove { mov, ponder }) => {
            assert_eq!(mov.to_string(), "e2e4");
            assert_eq!(ponder.unwrap().to_string(), "e7e5");
        }
        _ => panic!("expected a best move"),
    }
    match Msg::from_line("info depth 3 score cp 20 nodes 100 pv e2e4 e7e5") {
        Some(Msg::Info(items)) => {
            assert_eq!(items.len(), 4);
            assert!(matches!(items[0], InfoMsg::Depth(3)));
            assert!(matches!(items[1], InfoMsg::Score { value: 20, kind: ScoreKind::Cp }));
            assert!(matches!(items[2], InfoMsg::Nodes(100)));
            match &items[3] {
                InfoMsg::Pv(m) => assert_eq!(m.len(), 2),
                _ => panic!("expected a line"),
            }
        }
        _ => panic!("expected info"),
    }
    assert!(Msg::from_line("info depth").is_none());
    assert!(Msg::from_line("bestmove").is_none());
}
