use weiawaga::timer::TimeControl;
use weiawaga::uci::{EngineOption, UCICommand};

fn parse(line: &str) -> Result<UCICommand, &'static str> {
    line.parse::<UCICommand>()
}

#[test]
fn keywords_name_commands() {
    assert!(matches!(parse("  uci \n"), Ok(UCICommand::UCI)));
    assert!(matches!(parse("isready"), Ok(UCICommand::IsReady)));
    assert!(matches!(parse("ucinewgame"), Ok(UCICommand::UCINewGame)));
    assert!(matches!(parse("quit"), Ok(UCICommand::Quit)));
    assert!(matches!(parse("stop"), Ok(UCICommand::Stop)));
    assert!(matches!(parse("ponderhit"), Ok(UCICommand::PonderHit)));
    assert!(matches!(parse("eval"), Ok(UCICommand::Eval)));
    assert!(matches!(parse("fen"), Ok(UCICommand::Fen)));
    assert_eq!(parse("xyzzy").err(), Some("Unknown command."));
}

#[test]
fn go_with_ponder() {
    match parse("go ponder wtime 1000 btime 2000") {
        Ok(UCICommand::Go { time_control, ponder }) => {
            assert!(ponder);
            assert_eq!(
                time_control,
                TimeControl::Variable { wtime: 1000, btime: 2000, winc: None, binc: None, moves_to_go: None }
            );
        }
        _ => panic!("go should parse"),
    }
    match parse("go depth 5") {
        Ok(UCICommand::Go { time_control, ponder }) => {
            assert!(!ponder);
            assert_eq!(time_control, TimeControl::FixedDepth(5));
        }
        _ => panic!("go should parse"),
    }
    assert_eq!(parse("go mate 3").err(), Some("Feature is not implemented."));
}

#[test]
fn position_lines() {
    match parse("position startpos moves e2e4 e7e5") {
        Ok(UCICommand::Position { fen, moves }) => {
            assert!(fen.is_none());
            assert_eq!(moves, vec![b"e2e4".to_vec(), b"e7e5".to_vec()]);
        }
        _ => panic!("position should parse"),
    }
    match parse("position fen 8/8/8/8/8/8/8/K6k w - - 0 1") {
        Ok(UCICommand::Position { fen, moves }) => {
            assert_eq!(fen.unwrap(), b"8/8/8/8/8/8/8/K6k w - - 0 1".to_vec());
            assert!(moves.is_empty());
        }
        _ => panic!("position should parse"),
    }
    match parse("position fen 8/8/8/8/8/8/8/K6k w - - 0 1 moves a1a2") {
        Ok(UCICommand::Position { fen, moves }) => {
            assert_eq!(fen.unwrap(), b"8/8/8/8/8/8/8/K6k w - - 0 1".to_vec());
            assert_eq!(moves, vec![b"a1a2".to_vec()]);
        }
        _ => panic!("position should parse"),
    }
    assert!(matches!(parse("position startpos"), Ok(UCICommand::Position { .. })));
    assert_eq!(parse("position startposx").err(), Some("Invalid position format."));
    assert_eq!(parse("position").err(), Some("Invalid position format."));
}

#[test]
fn perft_depths() {
    assert!(matches!(parse("perft 4"), Ok(UCICommand::Perft(4))));
    assert!(matches!(parse("perft -3"), Ok(UCICommand::Perft(-3))));
    assert!(matches!(parse("perft +7"), Ok(UCICommand::Perft(7))));
    assert_eq!(parse("perft 128").err(), Some("Invalid depth."));
    assert_eq!(parse("perft x").err(), Some("Invalid depth."));
    assert_eq!(parse("perft").err(), Some("Invalid perft format."));
}

#[test]
fn options() {
    assert_eq!("setoption name Hash value 64".parse::<EngineOption>(), Ok(EngineOption::Hash(64)));
    assert_eq!("setoption name Threads value 4".parse::<EngineOption>(), Ok(EngineOption::Threads(4)));
    assert_eq!(
        "setoption name Move Overhead value 30".parse::<EngineOption>(),
        Ok(EngineOption::MoveOverhead(30))
    );
    assert_eq!("setoption name Ponder value ON".parse::<EngineOption>(), Ok(EngineOption::Ponder(true)));
    assert_eq!("setoption name UCI_ShowWDL value 0".parse::<EngineOption>(), Ok(EngineOption::ShowWDL(false)));
    assert_eq!("setoption name MultiPV value 3".parse::<EngineOption>(), Ok(EngineOption::MultiPV(3)));
    assert_eq!("setoption name Clear Hash".parse::<EngineOption>(), Ok(EngineOption::ClearHash));
    assert_eq!("setoption name Hash".parse::<EngineOption>(), Err("No option value specified."));
    assert_eq!("setoption name Hash value x".parse::<EngineOption>(), Err("Unable to parse option value."));
    assert_eq!("setoption name Threads value 70000".parse::<EngineOption>(), Err("Unable to parse option value."));
    assert_eq!("setoption name Ponder value maybe".parse::<EngineOption>(), Err("Unrecognized boolean value."));
    assert_eq!("setoption name Nothing value 1".parse::<EngineOption>(), Err("Unable to parse option."));
    assert!(matches!(parse("setoption name Hash value 8"), Ok(UCICommand::Option(EngineOption::Hash(8)))));
}
