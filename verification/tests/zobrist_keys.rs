use weiawaga::square::{File, SQ};
use weiawaga::types::piece::Piece;
use weiawaga::types::zobrist::Hasher;

#[test]
fn hasher_starts_at_zero() {
    let h = Hasher::new();
    assert_eq!(h.hash(), 0);
    assert_eq!(h.material_hash(), 0);
}

#[test]
fn toggling_a_piece_twice_restores_the_hashes() {
    let mut h = Hasher::new();
    h.update_piece(Piece::WhiteKnight, SQ::G1);
    let once = h.hash();
    assert_eq!(h.material_hash(), once);
    h.update_piece(Piece::WhiteKnight, SQ::G1);
    assert_eq!(h.hash(), 0);
    assert_eq!(h.material_hash(), 0);
    let _ = once;
}

#[test]
fn moving_equals_two_toggles() {
    let mut a = Hasher::new();
    a.update_color();
    let mut b = a.clone();
    a.move_piece(Piece::BlackRook, SQ::A8, SQ::D8);
    b.update_piece(Piece::BlackRook, SQ::A8);
    b.update_piece(Piece::BlackRook, SQ::D8);
    assert_eq!(a.hash(), b.hash());
    assert_eq!(a.material_hash(), b.material_hash());
}

#[test]
fn side_and_ep_keys_leave_material_alone() {
    let mut h = Hasher::new();
    h.update_color();
    h.update_ep(File::E);
    assert_eq!(h.material_hash(), 0);
    h.update_ep(File::E);
    h.update_color();
    assert_eq!(h.hash(), 0);
    h.update_piece(Piece::BlackQueen, SQ::D8);
    h.clear();
    assert_eq!(h.hash(), 0);
    assert_eq!(h.material_hash(), 0);
}
