pub mod attacks;
pub mod bitboard;
pub mod board;
pub mod castling;
pub mod color;
pub mod evaluation;
pub mod fen;
pub mod moov;
pub mod move_list;
pub mod move_sorter;
pub mod nnue;
pub mod parse;
pub mod perft;
pub mod piece;
pub mod position_hash;
pub mod rank;
pub mod search;
pub mod square;
pub mod timer;
pub mod traits;
pub mod tt;
pub mod types;
pub mod uci;
pub mod zobrist;
