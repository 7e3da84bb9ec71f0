use weiawaga::bitboard::Bitboard;

#[test]
fn pop_count_counts_set_bits() {
    assert_eq!(Bitboard(0).pop_count(), 0);
    assert_eq!(Bitboard(1).pop_count(), 1);
    assert_eq!(Bitboard(0xFF00).pop_count(), 8);
    assert_eq!(Bitboard(u64::MAX).pop_count(), 64);
    assert_eq!(Bitboard(0x8000_0000_0000_0001).pop_count(), 2);
}

#[test]
fn reverse_mirrors_end_to_end() {
    assert_eq!(Bitboard(1).reverse().0, 0x8000_0000_0000_0000);
    assert_eq!(Bitboard(0xFF).reverse().0, 0xFF00_0000_0000_0000);
    assert_eq!(Bitboard(0x0000_0000_0000_0006).reverse().0, 0x6000_0000_0000_0000);
    assert_eq!(Bitboard(0x1234_5678_9ABC_DEF0).reverse().0, 0x1234_5678_9ABC_DEF0u64.reverse_bits());
}
