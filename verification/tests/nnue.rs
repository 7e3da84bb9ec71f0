use weiawaga::board::Board;
use weiawaga::color::Color;
use weiawaga::nnue::{
    network_search_eval, Network, Perspective, HIDDEN_OFFSET, BIAS_OFFSET, L1, NET_BYTES, N_BUCKETS, N_INPUTS,
    N_WEIGHTS,
};
use weiawaga::piece::{Piece, PieceType};
use weiawaga::square::SQ;

fn flat_idx(pc: Piece, sq: SQ, color: Color, perspective: Perspective) -> usize {
    perspective.bucket * N_INPUTS + perspective.feature_idx(pc, sq, color)
}

fn board_from(fen: &str) -> Board {
    let mut board = Board::new();
    board.set_fen(fen).expect("Test FEN should be valid.");
    board
}

fn zero_network(edit: impl Fn(&mut Vec<i16>, &mut Vec<i16>)) -> Network {
    let mut weights = vec![0i16; N_WEIGHTS];
    let mut biases = vec![0i16; N_BUCKETS];
    edit(&mut weights, &mut biases);
    Network::from_weights(weights, biases).expect("The sizes are right.")
}

#[test]
fn feature_indices_match_trainer_convention() {
    let wk = Piece::make_piece(Color::White, PieceType::King);
    let bk = Piece::make_piece(Color::Black, PieceType::King);

    let w_perspective = Perspective::new(SQ::B1);
    let b_perspective = Perspective::new(SQ::G8.relative(Color::Black));

    assert_eq!(flat_idx(wk, SQ::B1, Color::White, w_perspective), 321);
    assert_eq!(flat_idx(bk, SQ::G8, Color::White, w_perspective), 766);

    assert_eq!(flat_idx(wk, SQ::B1, Color::Black, b_perspective), 766);
    assert_eq!(flat_idx(bk, SQ::G8, Color::Black, b_perspective), 321);
}

#[test]
fn feature_indices_bucket_offsets_match_trainer_convention() {
    let wk = Piece::make_piece(Color::White, PieceType::King);
    let bk = Piece::make_piece(Color::Black, PieceType::King);

    let w_perspective = Perspective::new(SQ::D5);
    let b_perspective = Perspective::new(SQ::G8.relative(Color::Black));

    assert_eq!(w_perspective.bucket, 3);
    assert_eq!(b_perspective.bucket, 0);

    assert_eq!(flat_idx(bk, SQ::G8, Color::White, w_perspective), 3070);
    assert_eq!(flat_idx(wk, SQ::D5, Color::White, w_perspective), 2659);

    assert_eq!(flat_idx(bk, SQ::G8, Color::Black, b_perspective), 321);
    assert_eq!(flat_idx(wk, SQ::D5, Color::Black, b_perspective), 732);
}

#[test]
fn king_buckets_by_rank() {
    assert_eq!(Perspective::king_bucket(SQ::A1), 0);
    assert_eq!(Perspective::king_bucket(SQ::C2), 1);
    assert_eq!(Perspective::king_bucket(SQ::B3), 2);
    assert_eq!(Perspective::king_bucket(SQ::D4), 2);
    assert_eq!(Perspective::king_bucket(SQ::A5), 3);
    assert_eq!(Perspective::king_bucket(SQ::D8), 3);
    let p = Perspective::new(SQ::G2);
    assert!(p.mirrored);
    assert_eq!(p.bucket, 1);
}

#[test]
fn network_needs_every_weight() {
    assert!(Network::from_weights(vec![0i16; N_WEIGHTS - 1], vec![0i16; N_BUCKETS]).is_none());
    assert!(Network::from_weights(vec![0i16; N_WEIGHTS], vec![0i16; N_BUCKETS + 1]).is_none());
    assert!(Network::from_weights(vec![0i16; N_WEIGHTS], vec![0i16; N_BUCKETS]).is_some());
}

#[test]
fn output_bias_alone_scales_by_four_hundred_over_sixty_four() {
    // The start position has 32 pieces: output bucket (32 - 2) / 4 = 7.
    let board = Board::new();
    assert_eq!(Network::count_pieces(&board), 32);
    assert_eq!(Network::output_bucket(&board), 7);
    let net = zero_network(|_, b| b[7] = 64);
    assert_eq!(net.eval(Color::White, &board), 400);
    let net = zero_network(|_, b| b[7] = -100);
    assert_eq!(net.eval(Color::White, &board), -625);
}

#[test]
fn clipped_activation_product_wraps_in_sixteen_bits() {
    // The input bias of lane 0 clips to 255; 1000 * 255 kept in sixteen bits is -7144, and
    // -7144 * 255 / 255 * 400 / 16320 rounds toward zero to -175.
    let board = Board::new();
    let net = zero_network(|w, _| {
        w[BIAS_OFFSET] = 300;
        w[HIDDEN_OFFSET + 7 * 2 * L1] = 1000;
    });
    assert_eq!(net.eval(Color::White, &board), -175);
    // The other side's half of the output layer is not read for the side to move.
    let net = zero_network(|w, _| {
        w[BIAS_OFFSET] = 300;
        w[HIDDEN_OFFSET + 7 * 2 * L1 + L1] = 1000;
    });
    assert_eq!(net.eval(Color::White, &board), -175);
    assert_eq!(net.eval(Color::Black, &board), -175);
}

#[test]
fn piece_embedding_feeds_its_own_accumulator() {
    // White's king on e1 mirrors White's view; the pawn on a2 is input 15 of bucket 0.
    let board = Board::new();
    let p = Perspective::new(SQ::E1);
    assert!(p.mirrored);
    assert_eq!(p.bucket, 0);
    let wp = Piece::make_piece(Color::White, PieceType::Pawn);
    let f = p.feature_idx(wp, SQ::A2, Color::White);
    assert_eq!(f, 15);
    let row = (p.bucket * N_INPUTS + f) * L1;
    let net = zero_network(|w, _| {
        w[row] = 255;
        w[HIDDEN_OFFSET + 7 * 2 * L1] = 255;
    });
    let (stm, nstm) = net.accumulators(Color::White, &board);
    assert_eq!(stm[0], 255);
    assert_eq!(stm[1], 0);
    // Black's pawn on a7 is the same input in Black's view, mirrored from its king on e8.
    assert_eq!(p.feature_idx(Piece::make_piece(Color::Black, PieceType::Pawn), SQ::A7, Color::Black), 15);
    assert_eq!(nstm[0], 255);
    // 255 * 255 kept in sixteen bits is -511; -511 * 255 / 255 * 400 / 16320 gives -12.
    assert_eq!(net.eval(Color::White, &board), -12);
}

#[test]
fn search_reads_the_network_within_limits() {
    let board = Board::new();
    let net = zero_network(|_, b| b[7] = 32767);
    // 32767 * 400 / 64 = 204793, held at 15000.
    assert_eq!(network_search_eval(&net, &board), 15000);
    // Without kings the network does not take the board.
    let bare = board_from("8/8/8/8/8/8/8/8 w - - 0 1");
    assert!(!Network::can_eval(&bare));
}

#[test]
fn accumulator_follows_a_placed_piece() {
    // A white knight put on e4 adds its embedding to White's accumulator and nothing else.
    let start = Board::new();
    let with_knight = board_from("rnbqkbnr/pppppppp/8/8/4N3/8/PPPPPPPP/RNBQKBNR w KQkq - 0 1");
    let p = Perspective::new(SQ::E1);
    let wn = Piece::make_piece(Color::White, PieceType::Knight);
    let row = (p.bucket * N_INPUTS + p.feature_idx(wn, SQ::E4, Color::White)) * L1;
    let net = zero_network(|w, _| {
        w[BIAS_OFFSET + 3] = 5;
        w[row + 3] = 77;
        w[row + 4] = -9;
    });
    let (before, _) = net.accumulators(Color::White, &start);
    let (after, _) = net.accumulators(Color::White, &with_knight);
    assert_eq!(before[3], 5);
    assert_eq!(after[3], 82);
    assert_eq!(after[4] - before[4], -9);
    assert_eq!(after[5], before[5]);
}

#[test]
fn network_file_bytes_are_little_endian_words() {
    assert!(Network::from_bytes(&vec![0u8; NET_BYTES - 1]).is_none());
    let board = Board::new();
    let mut bytes = vec![0u8; NET_BYTES];
    // The bias of output bucket 7 is 64: 0x40 0x00.
    bytes[2 * N_WEIGHTS + 14] = 0x40;
    let net = Network::from_bytes(&bytes).expect("A file of the right size reads.");
    assert_eq!(net.eval(Color::White, &board), 400);
    // 0xFF 0xFF is -1: -1 * 400 / 64 rounds toward zero to -6.
    bytes[2 * N_WEIGHTS + 14] = 0xFF;
    bytes[2 * N_WEIGHTS + 15] = 0xFF;
    let net = Network::from_bytes(&bytes).expect("A file of the right size reads.");
    assert_eq!(net.eval(Color::White, &board), -6);
    // The weight of lane 0 of White's output half, 0x03E8 = 1000, with the input bias 300.
    let off = 2 * (HIDDEN_OFFSET + 7 * 2 * L1);
    bytes[2 * N_WEIGHTS + 15] = 0;
    bytes[2 * N_WEIGHTS + 14] = 0;
    bytes[off] = 0xE8;
    bytes[off + 1] = 0x03;
    bytes[2 * BIAS_OFFSET] = 0x2C;
    bytes[2 * BIAS_OFFSET + 1] = 0x01;
    let net = Network::from_bytes(&bytes).expect("A file of the right size reads.");
    assert_eq!(net.eval(Color::White, &board), -175);
}
