use weiawaga::board::Board;
use weiawaga::evaluation::eval::eval;

fn board_from(fen: &str) -> Board {
    let mut board = Board::new();
    board.set_fen(fen).unwrap();
    board
}

#[test]
fn start_position_is_worth_the_tempo() {
    assert_eq!(eval(&Board::new()), 19);
    let black = board_from("rnbqkbnr/pppppppp/8/8/8/8/PPPPPPPP/RNBQKBNR b KQkq - 0 1");
    assert_eq!(eval(&black), 19);
}

#[test]
fn lone_queen_is_tapered_by_phase() {
    assert_eq!(eval(&board_from("4k3/8/8/8/8/8/8/3QK3 w - - 0 1")), 1011);
    assert_eq!(eval(&board_from("4k3/8/8/8/8/8/8/3QK3 b - - 0 1")), -974);
}

#[test]
fn mirrored_positions_evaluate_alike() {
    let white = board_from("r1bqkb1r/pppp1ppp/2n2n2/4p3/2B1P3/5N2/PPPP1PPP/RNBQK2R w KQkq - 4 4");
    let black = board_from("rnbqk2r/pppp1ppp/5n2/2b1p3/4P3/2N2N2/PPPP1PPP/R1BQKB1R b KQkq - 4 4");
    assert_eq!(eval(&white), eval(&black));
}

#[test]
fn push_then_pop_keeps_the_evaluation() {
    let mut board = board_from("r3k2r/p1ppqpb1/bn2pnp1/3PN3/1p2P3/2N2Q1p/PPPBBPPP/R3K2R w KQkq - 0 1");
    let before = eval(&board);
    for name in ["e5f7", "e1g1", "d5e6", "a2a4"] {
        assert_eq!(board.push_str(name), Ok(()));
        assert!(board.pop().is_some());
        assert_eq!(eval(&board), before);
    }
}
