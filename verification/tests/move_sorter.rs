use weiawaga::board::Board;
use weiawaga::color::Color;
use weiawaga::moov::Move;
use weiawaga::move_list::MoveList;
use weiawaga::move_sorter::{MoveSorter, CAPTURE_SCORE, HASH_MOVE_SCORE, HISTORY_MAX, KILLER_MOVE_SCORE};

fn board_from(fen: &str) -> Board {
    let mut board = Board::new();
    board.set_fen(fen).expect("Test FEN should be valid.");
    board
}

fn find(board: &Board, uci: &str) -> Move {
    let moves = MoveList::from::<false>(board);
    for i in 0..moves.len() {
        let m = *moves.get(i).unwrap();
        if String::from_utf8(m.uci_bytes()).unwrap() == uci {
            return m;
        }
    }
    panic!("move {} not legal", uci);
}

#[test]
fn see_undefended_pawn_is_won() {
    let board = board_from("4k3/8/8/3p4/8/8/8/3RK3 w - - 0 1");
    let m = find(&board, "d1d5");
    assert!(MoveSorter::see(&board, m));
}

#[test]
fn see_queen_takes_defended_pawn_loses() {
    let board = board_from("4k3/8/4p3/3p4/8/8/8/3QK3 w - - 0 1");
    let m = find(&board, "d1d5");
    assert!(!MoveSorter::see(&board, m));
}

#[test]
fn see_pawn_takes_defended_knight_wins() {
    let board = board_from("4k3/8/4p3/3n4/4P3/8/8/4K3 w - - 0 1");
    let m = find(&board, "e4d5");
    assert!(MoveSorter::see(&board, m));
}

#[test]
fn see_counts_xray_defenders() {
    // Rook takes a pawn guarded by a rook, with a second white rook behind: RxP RxR RxR.
    let board = board_from("3rk3/8/8/3p4/8/8/3R4/3RK3 w - - 0 1");
    let m = find(&board, "d2d5");
    assert!(MoveSorter::see(&board, m));
    // Without the second white rook the exchange loses a rook for a pawn.
    let board = board_from("3rk3/8/8/3p4/8/8/3R4/4K3 w - - 0 1");
    let m = find(&board, "d2d5");
    assert!(!MoveSorter::see(&board, m));
}

#[test]
fn scores_follow_the_ordering_rules() {
    let board = board_from("4k3/8/8/3p4/8/8/8/3RK3 w - - 0 1");
    let moves = MoveList::from::<false>(&board);
    let capture = find(&board, "d1d5");
    let quiet = find(&board, "d1d2");
    let mut sorter = MoveSorter::new();
    let scores = sorter.score_moves(&moves, &board, 0, Some(quiet));
    assert_eq!(scores.len(), moves.len());
    for i in 0..moves.len() {
        let m = *moves.get(i).unwrap();
        if m == quiet {
            assert_eq!(scores[i], HASH_MOVE_SCORE);
        } else if m == capture {
            // Pawn taken by a rook: 105 - 3, and the exchange is won.
            assert_eq!(scores[i], 102 + CAPTURE_SCORE);
        }
    }
    sorter.add_killer(quiet, 0);
    let scores = sorter.score_moves(&moves, &board, 0, None);
    for i in 0..moves.len() {
        if *moves.get(i).unwrap() == quiet {
            assert_eq!(scores[i], KILLER_MOVE_SCORE);
        }
    }
}

#[test]
fn history_grows_by_depth_squared_and_halves() {
    let board = board_from("4k3/8/8/3p4/8/8/8/3RK3 w - - 0 1");
    let moves = MoveList::from::<false>(&board);
    let quiet = find(&board, "d1d2");
    let other = find(&board, "e1f1");
    let mut sorter = MoveSorter::new();
    sorter.add_history(quiet, Color::White, 10);
    sorter.add_history(other, Color::White, 3);
    let score_of = |sorter: &MoveSorter, m: Move| {
        let scores = sorter.score_moves(&moves, &board, 0, None);
        (0..moves.len()).find(|&i| *moves.get(i).unwrap() == m).map(|i| scores[i]).unwrap()
    };
    assert_eq!(score_of(&sorter, quiet), 100);
    assert_eq!(score_of(&sorter, other), 9);
    // 100 + 127 * 127 = 16229 stays under the bound; the next one passes it and halves all.
    sorter.add_history(quiet, Color::White, 127);
    assert_eq!(score_of(&sorter, quiet), 16229);
    sorter.add_history(quiet, Color::White, 2);
    assert_eq!(score_of(&sorter, quiet), 16233);
    assert!(16233 < HISTORY_MAX);
    sorter.add_history(quiet, Color::White, 127);
    assert_eq!(score_of(&sorter, quiet), (16233 + 16129) / 2);
    assert_eq!(score_of(&sorter, other), 4);
}

#[test]
fn counter_move_answers_the_last_move() {
    let mut board = board_from("4k3/8/8/3p4/8/8/8/3RK3 w - - 0 1");
    let first = find(&board, "d1d2");
    board.push(first);
    let reply = find(&board, "e8e7");
    let mut sorter = MoveSorter::new();
    sorter.add_counter(first, reply);
    let moves = MoveList::from::<false>(&board);
    let scores = sorter.score_moves(&moves, &board, 1, None);
    for i in 0..moves.len() {
        if *moves.get(i).unwrap() == reply {
            assert_eq!(scores[i], weiawaga::move_sorter::COUNTER_MOVE_SCORE);
        }
    }
}
