use chess::uci::resp::{OptionKind, Response, ResponseBound, ResponseId, ResponseInfo};

#[test]
fn response_words() {
    assert!(matches!(Response::from_line("uciok"), Ok(Response::UciOk)));
    assert!(matches!(Response::from_line(" readyok "), Ok(Response::ReadyOk)));
    assert_eq!(Response::from_line("uciok").unwrap().to_string(), "uciok");
}

#[test]
fn response_id() {
    match Response::from_line("id name Stock Fish 16") {
        Ok(Response::Id(ResponseId::Name(n))) => assert_eq!(n, "Stock Fish 16"),
        _ => panic!("expected a name"),
    }
    match Response::from_line("id author The Authors") {
        Ok(Response::Id(ResponseId::Author(n))) => assert_eq!(n, "The Authors"),
        _ => panic!("expected an author"),
    }
    assert_eq!(Response::from_line("id author Me").unwrap().to_string(), "id author Me");
    assert!(Response::from_line("id nobody").is_err());
}

#[test]
fn response_bestmove() {
    match Response::from_line("bestmove e2e4 ponder e7e5") {
        Ok(Response::BestMove { mov, ponder }) => {
            assert_eq!(mov.to_string(), "e2e4");
            assert_eq!(ponder.unwrap().to_string(), "e7e5");
        }
        _ => panic!("expected a best move"),
    }
    match Response::from_line("bestmove a7a8q") {
        Ok(Response::BestMove { mov, ponder }) => {
            assert_eq!(mov.to_string(), "a7a8q");
            assert!(ponder.is_none());
        }
        _ => panic!("expected a best move"),
    }
    let e = Response::from_line("bestmove zz").unwrap_err();
    assert_eq!(e.to_string(), "failed to parse UCI response at: zz");
    let e = Response::from_line("bestmove e2e4 ponder x").unwrap_err();
    assert_eq!(e.to_string(), "failed to parse UCI response at: x");
    assert_eq!(
        Response::from_line("bestmove e2e4 ponder e7e5").unwrap().to_string(),
        "bestmove e2e4 ponder e7e5"
    );
}

#[test]
fn response_info() {
    let line = "info depth 5 seldepth 7 score cp -30 lowerbound nodes 1234 nps 99 pv e2e4 e7e5";
    match Response::from_line(line) {
        Ok(Response::Info(items)) => {
            assert_eq!(items.len(), 6);
            assert!(matches!(items[0], ResponseInfo::Depth(5)));
            assert!(matches!(items[1], ResponseInfo::SelectiveDepth(7)));
            match &items[2] {
                ResponseInfo::Score(s) => {
                    assert_eq!(s.cp, Some(-30));
                    assert_eq!(s.mate, None);
                    assert_eq!(s.bound, ResponseBound::Lowerbound);
                }
                _ => panic!("expected a score"),
            }
            assert!(matches!(items[3], ResponseInfo::Nodes(1234)));
            assert!(matches!(items[4], ResponseInfo::Nps(99)));
            match &items[5] {
                ResponseInfo::Pv(ms) => assert_eq!(ms.len(), 2),
                _ => panic!("expected a line"),
            }
        }
        _ => panic!("expected info"),
    }
    assert_eq!(Response::from_line(line).unwrap().to_string(), line);
}

#[test]
fn response_info_items() {
    match Response::from_line("info currmove e2e4 currmovenumber 3 hashfull 500 cpuload 12 tbhits 4 sbhits 5 multipv 2 time 77") {
        Ok(Response::Info(items)) => {
            assert_eq!(items.len(), 8);
            assert!(matches!(items[1], ResponseInfo::CurrMoveNumber(3)));
            assert!(matches!(items[2], ResponseInfo::Hashfull(500)));
            assert!(matches!(items[3], ResponseInfo::CpuLoad(12)));
            assert!(matches!(items[6], ResponseInfo::MultiPv(2)));
            assert!(matches!(items[7], ResponseInfo::Time(77)));
        }
        _ => panic!("expected info"),
    }
    match Response::from_line("info currline 1 e2e4 e7e5") {
        Ok(Response::Info(items)) => match &items[0] {
            ResponseInfo::CurrLine { cpu, moves } => {
                assert_eq!(*cpu, Some(1));
                assert_eq!(moves.len(), 2);
            }
            _ => panic!("expected a current line"),
        },
        _ => panic!("expected info"),
    }
    match Response::from_line("info string searching hard now") {
        Ok(Response::Info(items)) => match &items[0] {
            ResponseInfo::String(s) => assert_eq!(s, "searching hard now"),
            _ => panic!("expected a string"),
        },
        _ => panic!("expected info"),
    }
    match Response::from_line("info score mate 3 cp 10 upperbound") {
        Ok(Response::Info(items)) => {
            assert_eq!(items[0].to_string(), "score mate 3 cp 10 upperbound");
        }
        _ => panic!("expected info"),
    }
    let e = Response::from_line("info nothing").unwrap_err();
    assert_eq!(e.to_string(), "failed to parse UCI response at: nothing");
}

#[test]
fn response_option() {
    match Response::from_line("option name Hash type spin default 16 min 1 max 1024") {
        Ok(Response::Option(o)) => {
            assert_eq!(o.name, "Hash");
            match o.kind {
                OptionKind::Spin { default, min, max } => {
                    assert_eq!(default, Some(16));
                    assert_eq!(min, Some(1));
                    assert_eq!(max, Some(1024));
                }
                _ => panic!("expected spin"),
            }
        }
        _ => panic!("expected an option"),
    }
    match Response::from_line("option name Style type combo default Normal var Solid var Normal var Risky") {
        Ok(Response::Option(o)) => match o.kind {
            OptionKind::Combo { options, default } => {
                assert_eq!(options, vec!["Solid", "Normal", "Risky"]);
                assert_eq!(default.as_deref(), Some("Normal"));
            }
            _ => panic!("expected combo"),
        },
        _ => panic!("expected an option"),
    }
    match Response::from_line("option name Ponder type check default true") {
        Ok(Response::Option(o)) => assert!(matches!(o.kind, OptionKind::Check { default: Some(true) })),
        _ => panic!("expected an option"),
    }
    match Response::from_line("option name Book type string default book file.bin") {
        Ok(Response::Option(o)) => match o.kind {
            OptionKind::String { default } => assert_eq!(default.as_deref(), Some("book file.bin")),
            _ => panic!("expected string"),
        },
        _ => panic!("expected an option"),
    }
    match Response::from_line("option name Clear type button") {
        Ok(Response::Option(o)) => assert!(matches!(o.kind, OptionKind::Button)),
        _ => panic!("expected an option"),
    }
    let line = "option name Hash type spin default 16 min 1 max 1024";
    assert_eq!(Response::from_line(line).unwrap().to_string(), line);
    let line = "option name Style type combo default Normal var Solid var Normal";
    assert_eq!(Response::from_line(line).unwrap().to_string(), line);
    assert!(Response::from_line("option name Hash type weird").is_err());
}

#[test]
fn responses_read_back_from_their_text() {
    let lines = [
        "uciok",
        "readyok",
        "id name Engine Two",
        "id author ",
        "bestmove e2e4",
        "bestmove a7a8q ponder b8c6",
        "info depth 5 seldepth 7 time 100 nodes 2000 nps 300 pv e2e4 e7e5 multipv 1 score cp -20 lowerbound currmove e2e4 currmovenumber 1 hashfull 10 tbhits 0 sbhits 0 cpuload 50 refutation d2d4 d7d5 currline 1 e2e4 string hello  world",
        "info score lowerbound cpuload 3",
        "info currline g1f3 b8c6 string ",
        "option name Hash type spin default 16 min 1 max 1024",
        "option name Threads type spin max 8",
        "option name Ponder type check default false",
        "option name Ponder type check",
        "option name Style type combo default Normal var Solid var Normal var Risky",
        "option name Empty type combo",
        "option name Book type string default book file.bin",
        "option name Book type string",
        "option name Clear type button",
    ];
    for line in lines {
        let r = Response::from_line(line).unwrap();
        let text = r.to_string();
        assert_eq!(text, line);
        assert_eq!(Response::from_line(text.as_str()).unwrap().to_string(), text);
    }
}

#[test]
fn responses_that_do_not_read_back() {
    // A string item that is not the last swallows the items after it.
    match Response::from_line("info string thinking depth 3") {
        Ok(Response::Info(items)) => assert_eq!(items.len(), 1),
        _ => panic!("expected info"),
    }
    // A score with nothing given writes `score` alone, which does not read.
    assert!(Response::from_line("info score depth 3").is_err());
}
