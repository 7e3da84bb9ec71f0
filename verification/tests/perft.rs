use weiawaga::board::Board;
use weiawaga::perft::{perft, perft_divide};

fn board_from(fen: &str) -> Board {
    let mut board = Board::new();
    board.set_fen(fen).unwrap();
    board
}

#[test]
fn perft_test_perft() {
    assert_eq!(perft(&mut Board::new(), 5), 4865609);
    assert_eq!(
        perft(
            &mut board_from("r3k2r/p1ppqpb1/bn2pnp1/3PN3/1p2P3/2N2Q1p/PPPBBPPP/R3K2R w KQkq - "),
            4
        ),
        4085603
    );
    assert_eq!(
        perft(&mut board_from("8/2p5/3p4/KP5r/1R3p1k/8/4P1P1/8 w - - "), 5),
        674624
    );
    assert_eq!(
        perft(
            &mut board_from("r3k2r/Pppp1ppp/1b3nbN/nP6/BBP1P3/q4N2/Pp1P2PP/R2Q1RK1 w kq - 0 1"),
            4
        ),
        422333
    );
    assert_eq!(
        perft(
            &mut board_from("rnbq1k1r/pp1Pbppp/2p5/8/2B5/8/PPP1NnPP/RNBQK2R w KQ - 1 8"),
            4
        ),
        2103487
    );
    assert_eq!(
        perft(
            &mut board_from("r4rk1/1pp1qppp/p1np1n2/2b1p1B1/2B1P1b1/P1NP1N2/1PP1QPPP/R4RK1 w - - 0 10"),
            5
        ),
        164075551
    );
}

#[test]
fn perft_leaves_the_board_as_it_was() {
    let mut board = board_from("r3k2r/p1ppqpb1/bn2pnp1/3PN3/1p2P3/2N2Q1p/PPPBBPPP/R3K2R w KQkq - 0 1");
    let fen = board.to_fen();
    let hash = board.hash();
    let material = board.material_hash();
    assert_eq!(perft(&mut board, 3), 97862);
    assert_eq!(board.to_fen(), fen);
    assert_eq!(board.hash(), hash);
    assert_eq!(board.material_hash(), material);
}

#[test]
fn perft_divide_sums_its_lines() {
    let mut board = Board::new();
    let (total, lines) = perft_divide(&mut board, 3);
    assert_eq!(total, 8902);
    assert_eq!(lines.len(), 20);
    assert_eq!(lines.iter().map(|(_, n)| *n).sum::<u128>(), 8902);
    let e2e4 = lines.iter().find(|(m, _)| m.uci_bytes() == b"e2e4".to_vec()).unwrap();
    assert_eq!(e2e4.1, 600);
}

#[test]
fn perft_divide_at_depth_one_only_counts() {
    let mut board = Board::new();
    let (total, lines) = perft_divide(&mut board, 1);
    assert_eq!(total, 20);
    assert!(lines.is_empty());
}

#[test]
fn perft_without_a_king_counts_nothing() {
    let mut board = board_from("8/8/8/8/8/8/8/K7 w - - 0 1");
    assert_eq!(perft(&mut board, 2), 0);
}
