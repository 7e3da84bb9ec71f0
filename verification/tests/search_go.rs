use std::sync::atomic::{AtomicBool, AtomicU64};
use std::sync::Arc;

use weiawaga::board::Board;
use weiawaga::evaluation::eval::search_eval;
use weiawaga::search::engine::Search;
use weiawaga::search::{mate_moves, RootMove};
use weiawaga::timer::{TimeControl, Timer};
use weiawaga::tt::TT;

fn board_from(fen: &str) -> Board {
    let mut board = Board::new();
    board.set_fen(fen).unwrap();
    board
}

fn searcher(board: &Board, control: TimeControl, multi_pv: usize) -> Search {
    let timer = Timer::new(
        board,
        control,
        Arc::new(AtomicBool::new(false)),
        Arc::new(AtomicBool::new(false)),
        Arc::new(AtomicU64::new(0)),
        10,
    );
    Search::new(timer, TT::new(1), 0, false, multi_pv, vec![0i8; 4096])
}

fn go(board: &mut Board, depth: i8, multi_pv: usize) -> (Option<String>, Option<String>, Vec<(i8, i32)>) {
    let mut search = searcher(board, TimeControl::FixedDepth(depth), multi_pv);
    let reports = std::cell::RefCell::new(Vec::new());
    let report = |_b: &Board, d: i8, line: &RootMove, _n: Option<usize>, _e: u128, _nodes: u64, _h: usize| {
        reports.borrow_mut().push((d, line.value));
    };
    let scaled = |_e: u64, _t: u128, target: u128| target;
    let (best, ponder) = search.go(board, &search_eval, &scaled, &report);
    let name = |m: weiawaga::moov::Move| String::from_utf8(m.uci_bytes()).unwrap();
    (best.map(name), ponder.map(name), reports.into_inner())
}

#[test]
fn go_finds_mate_in_one() {
    let mut board = board_from("6k1/5ppp/8/8/8/8/8/R5K1 w - - 0 1");
    let fen = board.to_fen();
    let (best, _, reports) = go(&mut board, 3, 1);
    assert_eq!(best.as_deref(), Some("a1a8"));
    let (_, value) = *reports.last().unwrap();
    assert_eq!(mate_moves(value), Some(1));
    assert_eq!(board.to_fen(), fen);
}

#[test]
fn go_reports_each_depth() {
    let mut board = Board::new();
    let (best, _, reports) = go(&mut board, 3, 1);
    assert!(best.is_some());
    let depths: Vec<i8> = reports.iter().map(|(d, _)| *d).collect();
    assert_eq!(depths, vec![1, 2, 3]);
}

#[test]
fn go_reports_every_line_best_first() {
    let mut board = Board::new();
    let (_, _, reports) = go(&mut board, 2, 3);
    assert_eq!(reports.len(), 6);
    for depth in reports.chunks(3) {
        assert!(depth[0].1 >= depth[1].1 && depth[1].1 >= depth[2].1);
    }
}

#[test]
fn go_without_moves_gives_none() {
    let mut board = board_from("7k/5Q2/6K1/8/8/8/8/8 b - - 0 1");
    let (best, ponder, reports) = go(&mut board, 2, 1);
    assert_eq!(best, None);
    assert_eq!(ponder, None);
    assert!(reports.is_empty());
}

#[test]
fn mate_values_count_moves() {
    assert_eq!(mate_moves(32000 - 1), Some(1));
    assert_eq!(mate_moves(32000 - 3), Some(2));
    assert_eq!(mate_moves(-32000 + 2), Some(-1));
    assert_eq!(mate_moves(150), None);
    assert_eq!(mate_moves(16000), Some(8000));
}
