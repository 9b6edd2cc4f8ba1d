use chess::uci::req::{GoRequest, OptionValue, Request};

fn square_name_of(m: &chess::uci::moves::UciMove) -> String {
    m.to_string()
}

#[test]
fn request_simple_words() {
    assert!(matches!(Request::from_line("uci"), Ok(Request::Uci)));
    assert!(matches!(Request::from_line("isready"), Ok(Request::IsReady)));
    assert!(matches!(Request::from_line("ucinewgame"), Ok(Request::UciNewGame)));
    assert!(matches!(Request::from_line("stop"), Ok(Request::Stop)));
    assert!(matches!(Request::from_line("ponderhit"), Ok(Request::PonderHit)));
    assert!(matches!(Request::from_line("quit"), Ok(Request::Quit)));
    assert!(matches!(Request::from_line("  \tuci  "), Ok(Request::Uci)));
}

#[test]
fn request_debug() {
    assert!(matches!(Request::from_line("debug on"), Ok(Request::Debug(true))));
    assert!(matches!(Request::from_line("debug off"), Ok(Request::Debug(false))));
    let e = Request::from_line("debug maybe").unwrap_err();
    assert_eq!(e.to_string(), "failed to parse UCI request at: maybe");
}

#[test]
fn request_setoption() {
    match Request::from_line("setoption name Hash value 128") {
        Ok(Request::SetOption { name, value }) => {
            assert_eq!(name, "Hash ");
            assert!(matches!(value, Some(OptionValue::Spin(128))));
        }
        _ => panic!("expected an option"),
    }
    match Request::from_line("setoption name Use NNUE value true") {
        Ok(Request::SetOption { name, value }) => {
            assert_eq!(name, "Use NNUE ");
            assert!(matches!(value, Some(OptionValue::Check(true))));
        }
        _ => panic!("expected an option"),
    }
    match Request::from_line("setoption name Clear") {
        Ok(Request::SetOption { name, value }) => {
            assert_eq!(name, "Clear");
            assert!(value.is_none());
        }
        _ => panic!("expected an option"),
    }
    match Request::from_line("setoption name Path value /tmp/book") {
        Ok(Request::SetOption { value: Some(OptionValue::String(s)), .. }) => {
            assert_eq!(s, "/tmp/book");
        }
        _ => panic!("expected a string value"),
    }
}

#[test]
fn request_position() {
    match Request::from_line("position startposition moves e2e4 e7e5 a7a8q") {
        Ok(Request::Position { fen, moves }) => {
            assert!(fen.is_none());
            let names: Vec<String> = moves.iter().map(square_name_of).collect();
            assert_eq!(names, vec!["e2e4", "e7e5", "a7a8q"]);
        }
        _ => panic!("expected a position"),
    }
    match Request::from_line("position fen 4k3/8/8/8/8/8/8/4K3 w - - 10 1 moves e1e2") {
        Ok(Request::Position { fen: Some(b), moves }) => {
            assert_eq!(b.to_fen(), "4k3/8/8/8/8/8/8/4K3 w - - 0 1");
            assert_eq!(moves.len(), 1);
        }
        _ => panic!("expected a position with a board"),
    }
    match Request::from_line("position fen 4k3/8/8/8/8/8/8/4K3 b - -") {
        Ok(Request::Position { fen: Some(b), moves }) => {
            assert_eq!(b.to_fen(), "4k3/8/8/8/8/8/8/4K3 b - - 0 1");
            assert!(moves.is_empty());
        }
        _ => panic!("expected a position with a board"),
    }
    // A one-digit clock leaves the move number unread, and the line is refused there.
    let e = Request::from_line("position fen 4k3/8/8/8/8/8/8/4K3 w - - 0 1").unwrap_err();
    assert_eq!(e.to_string(), "failed to parse UCI request at: 1");
    assert!(Request::from_line("position startposition moves").is_err());
    assert!(Request::from_line("position nowhere").is_err());
}

#[test]
fn request_go() {
    match Request::from_line("go wtime 1000 btime -5 winc 10 binc 20 movestogo 3 depth 7 nodes 99 mate 2 movetime 500 ponder infinite") {
        Ok(Request::Go(g)) => {
            assert_eq!(g.wtime, Some(1000));
            assert_eq!(g.btime, Some(-5));
            assert_eq!(g.winc, Some(10));
            assert_eq!(g.binc, Some(20));
            assert_eq!(g.moves_to_go, Some(3));
            assert_eq!(g.depth, Some(7));
            assert_eq!(g.nodes, Some(99));
            assert_eq!(g.mate, Some(2));
            assert_eq!(g.movetime, Some(500));
            assert!(g.ponder);
            assert!(g.infinite);
            assert!(g.searchmoves.is_none());
        }
        _ => panic!("expected go"),
    }
    match Request::from_line("go") {
        Ok(Request::Go(g)) => {
            assert!(!g.ponder && !g.infinite && g.depth.is_none());
        }
        _ => panic!("expected go"),
    }
    match Request::from_line("go searchmoves e2e4 d2d4 depth 3") {
        Ok(Request::Go(g)) => {
            assert_eq!(g.searchmoves.map(|m| m.len()), Some(2));
            assert_eq!(g.depth, Some(3));
        }
        _ => panic!("expected go"),
    }
}

#[test]
fn request_errors() {
    let e = Request::from_line("bogus").unwrap_err();
    assert_eq!(e.to_string(), "failed to parse UCI request at: bogus");
    let e = Request::from_line("uci extra").unwrap_err();
    assert_eq!(e.to_string(), "failed to parse UCI request at: extra");
    let long = format!("xyz {}", "a".repeat(60));
    let e = Request::from_line(&long).unwrap_err();
    assert_eq!(e.to_string(), format!("failed to parse UCI request at: xyz {}...", "a".repeat(36)));
}

#[test]
fn request_text() {
    let r = Request::from_line("go depth 5 infinite").unwrap();
    assert_eq!(r.to_string(), "go  depth 5 infinite");
    let g = GoRequest::default();
    assert_eq!(g.to_string(), "");
    let r = Request::from_line("debug on").unwrap();
    assert_eq!(r.to_string(), "debug on");
    let r = Request::from_line("position startposition moves e2e4").unwrap();
    assert_eq!(r.to_string(), "position startposition moves e2e4");
}

#[test]
fn requests_read_back_from_their_text() {
    let lines = [
        "uci",
        "debug off",
        "isready",
        "ucinewgame",
        "setoption name Clear Hash",
        "position startposition moves e2e4 e7e5 g1f3",
        "go ",
        "go  searchmoves e2e4 b1c3 ponder wtime -300 btime 400 winc 5 binc 6 movestogo 7 depth 8 nodes 9 mate 10 movetime 11 infinite",
        "stop",
        "ponderhit",
        "quit",
    ];
    for line in lines {
        let r = Request::from_line(line).unwrap();
        let text = r.to_string();
        assert_eq!(text, line);
        let again = Request::from_line(text.as_str()).unwrap();
        assert_eq!(again.to_string(), text);
    }
    match Request::from_line("go  searchmoves e2e4 b1c3 depth 8").unwrap() {
        Request::Go(g) => {
            let moves: Vec<String> = g.searchmoves.unwrap().iter().map(square_name_of).collect();
            assert_eq!(moves, vec!["e2e4", "b1c3"]);
            assert_eq!(g.depth, Some(8));
        }
        _ => panic!("expected go"),
    }
}

#[test]
fn requests_that_do_not_read_back() {
    // An option set with a value: the name read keeps the space before `value`.
    let r = Request::SetOption { name: "Hash".to_string(), value: Some(OptionValue::Spin(16)) };
    match Request::from_line(r.to_string().as_str()) {
        Ok(Request::SetOption { name, .. }) => assert_eq!(name, "Hash "),
        _ => panic!("expected an option"),
    }
    // A position in FEN: the full-move number after a one-digit clock is left unread.
    let r = Request::from_line("position startposition").unwrap();
    assert_eq!(r.to_string(), "position startposition");
    assert!(Request::from_line("position fen 4k3/8/8/8/8/8/8/4K3 w - - 0 1").is_err());
}
