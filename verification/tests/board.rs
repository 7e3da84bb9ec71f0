use weiawaga::board::Board;
use weiawaga::move_list::MoveList;

fn board_from(fen: &str) -> Board {
    let mut board = Board::new();
    board.set_fen(fen).expect("Test FEN should be valid.");
    board
}

fn rights(board: &Board) -> String {
    board.to_fen().split(' ').nth(2).unwrap().to_string()
}

fn perft(board: &mut Board, depth: u32) -> u64 {
    let moves = MoveList::from::<false>(board);
    if depth == 1 {
        return moves.len() as u64;
    }
    let mut nodes = 0;
    for i in 0..moves.len() {
        let m = *moves.get(i).unwrap();
        board.push(m);
        nodes += perft(board, depth - 1);
        board.pop();
    }
    nodes
}

#[test]
fn castling_rights_updates() {
    let mut board = board_from("r3k2r/8/8/8/8/8/8/R3K2R w KQkq - 0 1");
    board.push_str("a1a8").unwrap();
    assert_eq!(rights(&board), "Kk");
    board.pop();
    assert_eq!(rights(&board), "KQkq");

    board.push_str("e1g1").unwrap();
    assert_eq!(rights(&board), "kq");
    board.push_str("e8d8").unwrap();
    assert_eq!(rights(&board), "-");
    board.pop();

    board.push_str("h8h1").unwrap();
    assert_eq!(rights(&board), "q");
}

#[test]
fn repetition_needs_castling_rights() {
    let mut board = board_from("r3k2r/8/8/8/8/8/8/R3K2R w KQkq - 0 1");
    for m in ["e1e2", "e8e7", "e2e1", "e7e8"] {
        board.push_str(m).unwrap();
    }
    assert_eq!(board.is_repetition(), false);

    for m in ["e1e2", "e8e7", "e2e1", "e7e8"] {
        board.push_str(m).unwrap();
    }

    assert_eq!(board.is_repetition(), true);
}

#[test]
fn castling_rights_hashed() {
    let kiwipete = "r3k2r/p1ppqpb1/bn2pnp1/3PN3/1p2P3/2N2Q1p/PPPBBPPP/R3K2R w";
    let boards = ["KQkq", "KQ", "kq", "-"].map(|rights| board_from(&format!("{kiwipete} {rights} - 0 1")));

    for (i, a) in boards.iter().enumerate() {
        for b in &boards[i + 1..] {
            assert_eq!(a.material_hash(), b.material_hash());
            assert_ne!(a.hash(), b.hash());
        }
    }
}

#[test]
fn threefold_repetition() {
    let mut board = Board::new();
    assert_eq!(board.is_repetition(), false);
    board.push_str("e2e4").unwrap();
    assert_eq!(board.is_repetition(), false);
    board.push_str("e7e5").unwrap();
    assert_eq!(board.is_repetition(), false);
    board.push_str("f1c4").unwrap();
    assert_eq!(board.is_repetition(), false);
    board.push_str("f8c5").unwrap();
    assert_eq!(board.is_repetition(), false);
    board.push_str("c4f1").unwrap();
    assert_eq!(board.is_repetition(), false);
    board.push_str("c5f8").unwrap();
    assert_eq!(board.is_repetition(), true);
}

#[test]
fn start_position_matches_its_fen() {
    let start = "rnbqkbnr/pppppppp/8/8/8/8/PPPPPPPP/RNBQKBNR w KQkq - 0 1";
    let board = Board::new();
    assert_eq!(board.to_fen(), start);
    let parsed = board_from(start);
    assert_eq!(parsed.hash(), board.hash());
    assert_eq!(parsed.material_hash(), board.material_hash());
}

#[test]
fn fen_round_trips() {
    for fen in [
        "r3k2r/p1ppqpb1/bn2pnp1/3PN3/1p2P3/2N2Q1p/PPPBBPPP/R3K2R w KQkq - 0 1",
        "8/2p5/3p4/KP5r/1R3p1k/8/4P1P1/8 w - - 0 1",
        "rnbqkbnr/pp1ppppp/8/2p5/4P3/8/PPPP1PPP/RNBQKBNR w KQkq c6 0 2",
        "8/3k4/8/8/8/8/4K3/8 b - - 12 40",
    ] {
        assert_eq!(board_from(fen).to_fen(), fen);
    }
}

#[test]
fn fen_errors() {
    let mut board = Board::new();
    assert!(board.set_fen("").is_err());
    assert!(board.set_fen("rnbqkbnr/pppppppp/8/8/8/8/PPPPPPPP w KQkq - 0 1").is_err());
    assert!(board.set_fen("rnbqkbnr/pppppppp/9/8/8/8/PPPPPPPP/RNBQKBNR w KQkq - 0 1").is_err());
    assert!(board.set_fen("rnbqkbnr/pppppppp/7/8/8/8/PPPPPPPP/RNBQKBNR w KQkq - 0 1").is_err());
    assert!(board.set_fen("rnbqkbnr/pppppppp/8/8/8/8/PPPPPPPP/RNBQKBNR x KQkq - 0 1").is_err());
    assert!(board.set_fen("rnbqkbnr/pppppppp/8/8/8/8/PPPPPPPP/RNBQKBNR w KQkK- - 0 1").is_err());
    assert!(board.set_fen("rnbqkbnr/pppppppp/8/8/8/8/PPPPPPPP/RNBQKBNR w KQkq e9 0 1").is_err());
    assert!(board.set_fen("rnbqkbnr/pppppppp/8/8/8/8/PPPPPPPP/RNBQKBNR w KQkq - 70000 1").is_err());
    assert!(board.set_fen("  rnbqkbnr/pppppppp/8/8/8/8/PPPPPPPP/RNBQKBNR w KQkq -\u{a0}").is_ok());
    assert_eq!(board.to_fen(), "rnbqkbnr/pppppppp/8/8/8/8/PPPPPPPP/RNBQKBNR w KQkq - 0 1");
}

#[test]
fn perft_start_position() {
    let mut board = Board::new();
    assert_eq!(perft(&mut board, 1), 20);
    assert_eq!(perft(&mut board, 2), 400);
    assert_eq!(perft(&mut board, 3), 8902);
}

#[test]
fn perft_kiwipete() {
    let mut board = board_from("r3k2r/p1ppqpb1/bn2pnp1/3PN3/1p2P3/2N2Q1p/PPPBBPPP/R3K2R w KQkq - 0 1");
    assert_eq!(perft(&mut board, 1), 48);
    assert_eq!(perft(&mut board, 2), 2039);
}

#[test]
fn perft_endgame_with_en_passant() {
    let mut board = board_from("8/2p5/3p4/KP5r/1R3p1k/8/4P1P1/8 w - - 0 1");
    assert_eq!(perft(&mut board, 1), 14);
    assert_eq!(perft(&mut board, 2), 191);
    assert_eq!(perft(&mut board, 3), 2812);
}

#[test]
fn push_then_pop_restores_the_position() {
    let mut board = board_from("r3k2r/p1ppqpb1/bn2pnp1/3PN3/1p2P3/2N2Q1p/PPPBBPPP/R3K2R w KQkq - 0 1");
    let before = board.to_fen();
    let hash = board.hash();
    let moves = MoveList::from::<false>(&board);
    for i in 0..moves.len() {
        let m = *moves.get(i).unwrap();
        board.push(m);
        assert_eq!(board.pop(), Some(m));
        assert_eq!(board.to_fen(), before);
        assert_eq!(board.hash(), hash);
    }
    board.push_null();
    board.pop_null();
    assert_eq!(board.to_fen(), before);
}

#[test]
fn quiescence_moves_capture_or_promote() {
    let board = board_from("r3k2r/p1ppqpb1/bn2pnp1/3PN3/1p2P3/2N2Q1p/PPPBBPPP/R3K2R w KQkq - 0 1");
    let moves = MoveList::from::<true>(&board);
    for i in 0..moves.len() {
        let m = moves.get(i).unwrap();
        assert!(m.is_capture() || m.promotion().is_some());
    }
    assert_eq!(moves.len(), 8);
}

#[test]
fn invalid_move_leaves_board_unchanged() {
    let mut board = Board::new();
    let before = board.to_fen();
    assert_eq!(board.push_str("e2e5"), Err("Invalid move."));
    assert_eq!(board.to_fen(), before);
    assert!(board.push_str("g1f3").is_ok());
    assert_eq!(board.peek().map(|m| m.uci_bytes()), Some(b"g1f3".to_vec()));
}

#[test]
fn draw_rules() {
    let board = board_from("8/3k4/8/8/8/8/4K3/8 w - - 0 1");
    assert!(board.is_draw());
    let board = board_from("8/3k4/8/8/8/8/4KN2/8 w - - 0 1");
    assert!(board.is_draw());
    let board = board_from("8/3k4/8/8/8/8/4KR2/8 w - - 0 1");
    assert!(!board.is_draw());
    let board = board_from("8/3k4/8/8/8/8/4KR2/8 w - - 100 80");
    assert!(board.is_draw());
    assert!(board.has_non_pawn_material());
}

#[test]
fn check_detection() {
    let board = board_from("4k3/8/8/8/8/8/8/4K2r w - - 0 1");
    assert!(board.in_check());
    let board = board_from("4k3/8/8/8/8/8/8/4K3 w - - 0 1");
    assert!(!board.in_check());
}

#[test]
fn set_fen_error_texts() {
    let mut b = Board::new();
    assert_eq!(b.set_fen("8/8/8/8/8/8/8 w - - 0 1"), Err("Pieces Placement FEN should have 8 ranks."));
    assert_eq!(b.set_fen("8/8/8/8/8/8/8/7 w - - 0 1"), Err("FEN rank does not fill expected number of squares."));
    assert_eq!(b.set_fen("8/8/8/8/8/8/8/8 x - - 0 1"), Err("Invalid fen format."));
}


#[test]
fn a_name_picks_the_move_that_fits() {
    let mut b = board_from("r3k2r/8/8/8/8/8/8/R3K2R w KQkq - 0 1");
    assert_eq!(b.push_str("a1a8"), Ok(()));
    let m = b.pop().expect("A move was played.");
    assert_eq!(m.squares(), (weiawaga::square::SQ::A1, weiawaga::square::SQ::A8));
    assert!(m.is_capture());
    assert_eq!(b.push_str("e1g1"), Ok(()));
    let m = b.pop().expect("A move was played.");
    assert_eq!(m.flags(), weiawaga::moov::MoveFlags::OO);
    assert_eq!(b.push_str("a1a9"), Err("Invalid move."));
}
