use vstd::prelude::*;
use vstd::std_specs::bits::u64_trailing_zeros;
use crate::bitboard::{bit, lemma_bits_ext, popcount, shifted, Bitboard, lemma_popcount_basics};
use crate::attacks::{bishop_sq, rook_sq, bishop_attacks, rook_attacks};
use crate::board::Board;
use crate::color::Color;
use core::ops::Not;
use crate::evaluation::score::div_toward_zero;
use crate::piece::PieceType;
use crate::square::{Direction, SQ};

verus! {

/// The middle game piece-square values, as seen by white: 64 squares from a1 for each piece
/// type from pawn to king.
pub open spec fn pst_mg_table() -> Seq<i8> {
    seq![
        0i8, 0i8, 0i8, 0i8, 0i8, 0i8, 0i8, 0i8, -44i8, -35i8, -37i8, -54i8, -44i8, -12i8, -7i8, -39i8,
        -39i8, -40i8, -29i8, -33i8, -19i8, -14i8, -3i8, -16i8, -40i8, -34i8, -31i8, -11i8, -10i8, -5i8, -22i8, -27i8,
        -23i8, -17i8, -9i8, -2i8, 12i8, 10i8, -4i8, -24i8, 7i8, 2i8, 22i8, 22i8, 32i8, 30i8, 10i8, -4i8,
        64i8, 64i8, 52i8, 52i8, 44i8, 40i8, 32i8, 28i8, 0i8, 0i8, 0i8, 0i8, 0i8, 0i8, 0i8, 0i8,
        -105i8, -55i8, -70i8, -60i8, -46i8, -52i8, -48i8, -68i8, -65i8, -63i8, -38i8, -32i8, -27i8, -14i8, -40i8, -36i8,
        -56i8, -33i8, -16i8, -16i8, -4i8, -10i8, -5i8, -34i8, -36i8, -20i8, -3i8, -4i8, 8i8, 1i8, 5i8, -22i8,
        -24i8, -11i8, 13i8, 38i8, 18i8, 36i8, 6i8, -12i8, -47i8, 9i8, 23i8, 32i8, 32i8, 27i8, 17i8, -15i8,
        -67i8, -37i8, 13i8, 9i8, -9i8, 17i8, -18i8, -38i8, -88i8, -76i8, -64i8, -40i8, -30i8, -66i8, -64i8, -88i8,
        -47i8, -17i8, -32i8, -32i8, -28i8, -27i8, -35i8, -43i8, -7i8, -10i8, 5i8, -16i8, -12i8, 2i8, 12i8, -12i8,
        -13i8, -3i8, -5i8, -1i8, -1i8, -4i8, -2i8, -4i8, -26i8, -6i8, -2i8, 18i8, 18i8, 0i8, -4i8, -16i8,
        -16i8, -9i8, 12i8, 23i8, 23i8, 18i8, -2i8, -12i8, -32i8, 10i8, -1i8, 10i8, 10i8, 3i8, 2i8, -14i8,
        -30i8, -20i8, -18i8, -18i8, 2i8, 0i8, -14i8, -28i8, -42i8, -26i8, -30i8, -32i8, -30i8, -34i8, -22i8, -46i8,
        -38i8, -43i8, -39i8, -27i8, -27i8, -25i8, -35i8, -25i8, -60i8, -49i8, -47i8, -45i8, -41i8, -25i8, -29i8, -48i8,
        -50i8, -45i8, -49i8, -49i8, -44i8, -28i8, -20i8, -37i8, -53i8, -50i8, -42i8, -31i8, -28i8, -34i8, -18i8, -37i8,
        -37i8, -30i8, -22i8, -16i8, -21i8, -13i8, -23i8, -26i8, -33i8, -12i8, -15i8, -14i8, -16i8, -5i8, -3i8, -18i8,
        -13i8, -12i8, 0i8, 4i8, 4i8, 10i8, -10i8, -1i8, -8i8, -6i8, -11i8, -3i8, -3i8, -3i8, -11i8, -9i8,
        -25i8, -29i8, -21i8, -2i8, -17i8, -26i8, -28i8, -34i8, -24i8, -12i8, 0i8, -2i8, -2i8, 0i8, -12i8, -10i8,
        -20i8, -9i8, -7i8, -7i8, -5i8, -1i8, 8i8, -4i8, -14i8, -16i8, -11i8, -5i8, 3i8, -1i8, 6i8, -5i8,
        -21i8, -10i8, -7i8, -1i8, 15i8, 19i8, 12i8, 5i8, -20i8, -10i8, 5i8, 13i8, 21i8, 21i8, 16i8, 6i8,
        -22i8, -18i8, -4i8, 4i8, 2i8, 12i8, 12i8, 2i8, -36i8, -12i8, -4i8, -1i8, 3i8, -2i8, -2i8, -12i8,
        7i8, 21i8, -1i8, -20i8, 10i8, -13i8, 21i8, 19i8, 5i8, 10i8, -20i8, -26i8, -26i8, -26i8, 16i8, 12i8,
        -22i8, -30i8, -44i8, -46i8, -46i8, -46i8, -18i8, -28i8, -38i8, -32i8, -54i8, -66i8, -66i8, -54i8, -40i8, -44i8,
        -36i8, -38i8, -50i8, -72i8, -70i8, -46i8, -34i8, -32i8, -28i8, -34i8, -40i8, -68i8, -66i8, -36i8, -34i8, -24i8,
        -32i8, -34i8, -38i8, -50i8, -52i8, -40i8, -40i8, -34i8, -48i8, -44i8, -46i8, -64i8, -68i8, -50i8, -48i8, -42i8,
    ]
}

/// The end game piece-square values, laid out as `pst_mg_table`.
pub open spec fn pst_eg_table() -> Seq<i8> {
    seq![
        0i8, 0i8, 0i8, 0i8, 0i8, 0i8, 0i8, 0i8, -33i8, -37i8, -34i8, -31i8, -17i8, -37i8, -47i8, -49i8,
        -41i8, -41i8, -47i8, -33i8, -39i8, -41i8, -54i8, -55i8, -32i8, -36i8, -42i8, -50i8, -52i8, -50i8, -42i8, -48i8,
        -14i8, -26i8, -33i8, -49i8, -46i8, -42i8, -30i8, -28i8, 45i8, 45i8, 37i8, 23i8, 13i8, 7i8, 33i8, 33i8,
        107i8, 107i8, 87i8, 83i8, 83i8, 81i8, 89i8, 107i8, 0i8, 0i8, 0i8, 0i8, 0i8, 0i8, 0i8, 0i8,
        -70i8, -91i8, -55i8, -53i8, -59i8, -59i8, -83i8, -93i8, -75i8, -57i8, -45i8, -40i8, -42i8, -51i8, -61i8, -71i8,
        -55i8, -40i8, -41i8, -24i8, -20i8, -44i8, -52i8, -61i8, -47i8, -38i8, -17i8, -16i8, -17i8, -24i8, -33i8, -58i8,
        -50i8, -28i8, -18i8, -17i8, -17i8, -16i8, -32i8, -49i8, -69i8, -43i8, -23i8, -24i8, -28i8, -29i8, -47i8, -73i8,
        -75i8, -55i8, -49i8, -41i8, -47i8, -47i8, -63i8, -87i8, -101i8, -81i8, -53i8, -71i8, -57i8, -79i8, -87i8, -101i8,
        -38i8, -15i8, -23i8, -13i8, -17i8, -20i8, -26i8, -44i8, -30i8, -27i8, -18i8, -4i8, -6i8, -14i8, -27i8, -34i8,
        -16i8, -6i8, -11i8, 3i8, 9i8, -17i8, -10i8, -20i8, -15i8, 1i8, 10i8, 10i8, 2i8, 6i8, -8i8, -20i8,
        -11i8, 6i8, 4i8, 10i8, 8i8, 5i8, -1i8, -10i8, -10i8, -8i8, -17i8, 0i8, -6i8, -15i8, -2i8, -8i8,
        -20i8, -24i8, -4i8, -20i8, -12i8, -12i8, -26i8, -32i8, -44i8, -22i8, -30i8, -22i8, -20i8, -24i8, -24i8, -44i8,
        -27i8, -21i8, -23i8, -32i8, -34i8, -27i8, -18i8, -40i8, -28i8, -33i8, -27i8, -29i8, -37i8, -43i8, -33i8, -36i8,
        -28i8, -26i8, -30i8, -28i8, -30i8, -33i8, -32i8, -33i8, -20i8, -23i8, -19i8, -25i8, -31i8, -27i8, -31i8, -27i8,
        -15i8, -16i8, -19i8, -24i8, -28i8, -21i8, -21i8, -21i8, -12i8, -14i8, -18i8, -20i8, -27i8, -19i8, -13i8, -21i8,
        -13i8, -8i8, -12i8, -15i8, -22i8, -13i8, -9i8, -14i8, -13i8, -16i8, -16i8, -21i8, -18i8, -16i8, -17i8, -18i8,
        -32i8, -33i8, -32i8, -30i8, -25i8, -38i8, -38i8, -44i8, -38i8, -26i8, -28i8, -24i8, -22i8, -28i8, -28i8, -30i8,
        -24i8, -21i8, -6i8, -11i8, -10i8, -3i8, -10i8, -20i8, -24i8, -6i8, -5i8, 11i8, 8i8, 6i8, -1i8, -5i8,
        -21i8, -14i8, -5i8, 5i8, 7i8, 5i8, 0i8, -5i8, -26i8, -18i8, -9i8, 5i8, 5i8, 5i8, 0i8, -10i8,
        -28i8, -18i8, -2i8, 0i8, 0i8, 0i8, -2i8, -10i8, -34i8, -16i8, -10i8, -5i8, -5i8, -10i8, -10i8, -20i8,
        -76i8, -54i8, -38i8, -47i8, -48i8, -44i8, -56i8, -76i8, -50i8, -35i8, -17i8, -19i8, -15i8, -15i8, -33i8, -45i8,
        -43i8, -19i8, -7i8, 1i8, 3i8, -3i8, -15i8, -32i8, -40i8, -18i8, 6i8, 18i8, 17i8, 8i8, -7i8, -31i8,
        -29i8, -1i8, 11i8, 17i8, 17i8, 15i8, 5i8, -21i8, -19i8, 3i8, 11i8, 7i8, 7i8, 29i8, 5i8, -17i8,
        -23i8, -7i8, -3i8, 3i8, 3i8, 5i8, -5i8, -17i8, -75i8, -41i8, -33i8, -28i8, -28i8, -18i8, -26i8, -40i8,
    ]
}

/// The piece-square values of piece type number `pt` on square `s`, as seen by white.
pub fn pst(pt: usize, s: usize) -> (r: (i32, i32))
    requires
        pt < 6,
        s < 64,
    ensures
        r.0 == pst_mg_table()[pt * 64 + s],
        r.1 == pst_eg_table()[pt * 64 + s],
{
    let mg: [i8; 384] = [
        0, 0, 0, 0, 0, 0, 0, 0, -44, -35, -37, -54, -44, -12, -7, -39,
        -39, -40, -29, -33, -19, -14, -3, -16, -40, -34, -31, -11, -10, -5, -22, -27,
        -23, -17, -9, -2, 12, 10, -4, -24, 7, 2, 22, 22, 32, 30, 10, -4,
        64, 64, 52, 52, 44, 40, 32, 28, 0, 0, 0, 0, 0, 0, 0, 0,
        -105, -55, -70, -60, -46, -52, -48, -68, -65, -63, -38, -32, -27, -14, -40, -36,
        -56, -33, -16, -16, -4, -10, -5, -34, -36, -20, -3, -4, 8, 1, 5, -22,
        -24, -11, 13, 38, 18, 36, 6, -12, -47, 9, 23, 32, 32, 27, 17, -15,
        -67, -37, 13, 9, -9, 17, -18, -38, -88, -76, -64, -40, -30, -66, -64, -88,
        -47, -17, -32, -32, -28, -27, -35, -43, -7, -10, 5, -16, -12, 2, 12, -12,
        -13, -3, -5, -1, -1, -4, -2, -4, -26, -6, -2, 18, 18, 0, -4, -16,
        -16, -9, 12, 23, 23, 18, -2, -12, -32, 10, -1, 10, 10, 3, 2, -14,
        -30, -20, -18, -18, 2, 0, -14, -28, -42, -26, -30, -32, -30, -34, -22, -46,
        -38, -43, -39, -27, -27, -25, -35, -25, -60, -49, -47, -45, -41, -25, -29, -48,
        -50, -45, -49, -49, -44, -28, -20, -37, -53, -50, -42, -31, -28, -34, -18, -37,
        -37, -30, -22, -16, -21, -13, -23, -26, -33, -12, -15, -14, -16, -5, -3, -18,
        -13, -12, 0, 4, 4, 10, -10, -1, -8, -6, -11, -3, -3, -3, -11, -9,
        -25, -29, -21, -2, -17, -26, -28, -34, -24, -12, 0, -2, -2, 0, -12, -10,
        -20, -9, -7, -7, -5, -1, 8, -4, -14, -16, -11, -5, 3, -1, 6, -5,
        -21, -10, -7, -1, 15, 19, 12, 5, -20, -10, 5, 13, 21, 21, 16, 6,
        -22, -18, -4, 4, 2, 12, 12, 2, -36, -12, -4, -1, 3, -2, -2, -12,
        7, 21, -1, -20, 10, -13, 21, 19, 5, 10, -20, -26, -26, -26, 16, 12,
        -22, -30, -44, -46, -46, -46, -18, -28, -38, -32, -54, -66, -66, -54, -40, -44,
        -36, -38, -50, -72, -70, -46, -34, -32, -28, -34, -40, -68, -66, -36, -34, -24,
        -32, -34, -38, -50, -52, -40, -40, -34, -48, -44, -46, -64, -68, -50, -48, -42,
    ];
    let eg: [i8; 384] = [
        0, 0, 0, 0, 0, 0, 0, 0, -33, -37, -34, -31, -17, -37, -47, -49,
        -41, -41, -47, -33, -39, -41, -54, -55, -32, -36, -42, -50, -52, -50, -42, -48,
        -14, -26, -33, -49, -46, -42, -30, -28, 45, 45, 37, 23, 13, 7, 33, 33,
        107, 107, 87, 83, 83, 81, 89, 107, 0, 0, 0, 0, 0, 0, 0, 0,
        -70, -91, -55, -53, -59, -59, -83, -93, -75, -57, -45, -40, -42, -51, -61, -71,
        -55, -40, -41, -24, -20, -44, -52, -61, -47, -38, -17, -16, -17, -24, -33, -58,
        -50, -28, -18, -17, -17, -16, -32, -49, -69, -43, -23, -24, -28, -29, -47, -73,
        -75, -55, -49, -41, -47, -47, -63, -87, -101, -81, -53, -71, -57, -79, -87, -101,
        -38, -15, -23, -13, -17, -20, -26, -44, -30, -27, -18, -4, -6, -14, -27, -34,
        -16, -6, -11, 3, 9, -17, -10, -20, -15, 1, 10, 10, 2, 6, -8, -20,
        -11, 6, 4, 10, 8, 5, -1, -10, -10, -8, -17, 0, -6, -15, -2, -8,
        -20, -24, -4, -20, -12, -12, -26, -32, -44, -22, -30, -22, -20, -24, -24, -44,
        -27, -21, -23, -32, -34, -27, -18, -40, -28, -33, -27, -29, -37, -43, -33, -36,
        -28, -26, -30, -28, -30, -33, -32, -33, -20, -23, -19, -25, -31, -27, -31, -27,
        -15, -16, -19, -24, -28, -21, -21, -21, -12, -14, -18, -20, -27, -19, -13, -21,
        -13, -8, -12, -15, -22, -13, -9, -14, -13, -16, -16, -21, -18, -16, -17, -18,
        -32, -33, -32, -30, -25, -38, -38, -44, -38, -26, -28, -24, -22, -28, -28, -30,
        -24, -21, -6, -11, -10, -3, -10, -20, -24, -6, -5, 11, 8, 6, -1, -5,
        -21, -14, -5, 5, 7, 5, 0, -5, -26, -18, -9, 5, 5, 5, 0, -10,
        -28, -18, -2, 0, 0, 0, -2, -10, -34, -16, -10, -5, -5, -10, -10, -20,
        -76, -54, -38, -47, -48, -44, -56, -76, -50, -35, -17, -19, -15, -15, -33, -45,
        -43, -19, -7, 1, 3, -3, -15, -32, -40, -18, 6, 18, 17, 8, -7, -31,
        -29, -1, 11, 17, 17, 15, 5, -21, -19, 3, 11, 7, 7, 29, 5, -17,
        -23, -7, -3, 3, 3, 5, -5, -17, -75, -41, -33, -28, -28, -18, -26, -40,
    ];
    proof {
        assert(mg@ =~= pst_mg_table());
        assert(eg@ =~= pst_eg_table());
    }
    (mg[pt * 64 + s] as i32, eg[pt * 64 + s] as i32)
}

/// The bonus for the side to move.
pub const TEMPO_MG: i32 = 19;
pub const TEMPO_EG: i32 = 18;
/// Per passed pawn.
pub const PASSED_PAWN_MG: i32 = -11;
pub const PASSED_PAWN_EG: i32 = 17;
/// Per doubled pawn.
pub const DOUBLED_PAWN_MG: i32 = -12;
pub const DOUBLED_PAWN_EG: i32 = -20;
/// Per isolated pawn.
pub const ISOLATED_PAWN_MG: i32 = -19;
pub const ISOLATED_PAWN_EG: i32 = 0;
/// Per own pawn on the squares of a bishop's color.
pub const BISHOP_SAME_COLOR_PAWN_MG: i32 = -4;
pub const BISHOP_SAME_COLOR_PAWN_EG: i32 = -7;
/// For a bishop that attacks two empty centre squares.
pub const BISHOP_ATTACKS_CENTER_MG: i32 = 34;
pub const BISHOP_ATTACKS_CENTER_EG: i32 = 9;
/// For bishops on both colors of squares.
pub const BISHOP_PAIR_MG: i32 = 36;
pub const BISHOP_PAIR_EG: i32 = 49;
/// For a rook with little room on the king's side of the king.
pub const KING_TRAPPING_ROOK_MG: i32 = -20;
pub const KING_TRAPPING_ROOK_EG: i32 = -31;
/// For a rook on a file without pawns.
pub const ROOK_ON_OPEN_FILE_MG: i32 = 45;
pub const ROOK_ON_OPEN_FILE_EG: i32 = 14;
/// For a rook on a file without own pawns.
pub const ROOK_ON_SEMIOPEN_FILE_MG: i32 = 23;
pub const ROOK_ON_SEMIOPEN_FILE_EG: i32 = 11;
/// Per own pawn in front of the king.
pub const KING_PAWN_SHIELD_MG: i32 = 22;
pub const KING_PAWN_SHIELD_EG: i32 = -9;

/// The middle game value of a piece of type number `pt`, pawn to king.
pub open spec fn value_mg(pt: int) -> int {
    if pt == 0 {
        113
    } else if pt == 1 {
        358
    } else if pt == 2 {
        362
    } else if pt == 3 {
        475
    } else if pt == 4 {
        1010
    } else {
        0
    }
}

/// The end game value of a piece of type number `pt`, pawn to king.
pub open spec fn value_eg(pt: int) -> int {
    if pt == 0 {
        139
    } else if pt == 1 {
        332
    } else if pt == 2 {
        332
    } else if pt == 3 {
        561
    } else if pt == 4 {
        1020
    } else {
        0
    }
}

/// The share of the game phase that a piece of type number `pt` carries.
pub open spec fn phase_weight(pt: int) -> int {
    if pt == 1 || pt == 2 {
        16
    } else if pt == 3 {
        32
    } else if pt == 4 {
        64
    } else {
        0
    }
}

/// The values and phase weight of a piece type.
fn piece_values(pt: PieceType) -> (r: (i32, i32, i32))
    ensures
        r.0 == value_mg(pt.idx()),
        r.1 == value_eg(pt.idx()),
        r.2 == phase_weight(pt.idx()),
{
    match pt {
        PieceType::Pawn => (113, 139, 0),
        PieceType::Knight => (358, 332, 16),
        PieceType::Bishop => (362, 332, 16),
        PieceType::Rook => (475, 561, 32),
        PieceType::Queen => (1010, 1020, 64),
        PieceType::King => (0, 0, 0),
    }
}

/// Whether the bits of `x` are the squares holding a piece of side `c` and type `pt`.
pub open spec fn is_piece_word(x: u64, b: Board, c: Color, pt: PieceType) -> bool {
    forall|s: int| 0 <= s < 64 ==> #[trigger] bit(x, s) == b.holds(s, c, pt)
}

/// Whether the bits of `x` are the squares a bishop on `a` attacks with `occ` occupied.
pub open spec fn is_bishop_word(x: u64, a: int, occ: u64) -> bool {
    forall|s: int| 0 <= s < 64 ==> #[trigger] bit(x, s) == bishop_sq(a, occ, s)
}

/// Whether the bits of `x` are the squares a rook on `a` attacks with `occ` occupied.
pub open spec fn is_rook_word(x: u64, a: int, occ: u64) -> bool {
    forall|s: int| 0 <= s < 64 ==> #[trigger] bit(x, s) == rook_sq(a, occ, s)
}

/// The squares holding a piece of side `c` and type `pt`, as a word.
pub open spec fn piece_word(b: Board, c: Color, pt: PieceType) -> u64 {
    choose|x: u64| #[trigger] is_piece_word(x, b, c, pt)
}

/// The squares a bishop on `a` attacks with `occ` occupied, as a word.
pub open spec fn bishop_word(a: int, occ: u64) -> u64 {
    choose|x: u64| #[trigger] is_bishop_word(x, a, occ)
}

/// The squares a rook on `a` attacks with `occ` occupied, as a word.
pub open spec fn rook_word(a: int, occ: u64) -> u64 {
    choose|x: u64| #[trigger] is_rook_word(x, a, occ)
}

/// The word of the pieces of a side and type is the one with their bits.
proof fn lemma_piece_word(b: Board, c: Color, pt: PieceType, x: u64)
    requires
        forall|s: int| #[trigger] bit(x, s) == b.holds(s, c, pt),
    ensures
        piece_word(b, c, pt) == x,
{
    assert(is_piece_word(x, b, c, pt));
    let y = piece_word(b, c, pt);
    assert forall|i: int| 0 <= i < 64 implies bit(y, i) == bit(x, i) by {}
    lemma_bits_ext(y, x);
}

/// The word of a bishop's attacks is the one with their bits.
proof fn lemma_bishop_word(a: int, occ: u64, x: u64)
    requires
        forall|s: int| #[trigger] bit(x, s) == bishop_sq(a, occ, s),
    ensures
        bishop_word(a, occ) == x,
{
    assert(is_bishop_word(x, a, occ));
    let y = bishop_word(a, occ);
    assert forall|i: int| 0 <= i < 64 implies bit(y, i) == bit(x, i) by {}
    lemma_bits_ext(y, x);
}

/// The word of a rook's attacks is the one with their bits.
proof fn lemma_rook_word(a: int, occ: u64, x: u64)
    requires
        forall|s: int| #[trigger] bit(x, s) == rook_sq(a, occ, s),
    ensures
        rook_word(a, occ) == x,
{
    assert(is_rook_word(x, a, occ));
    let y = rook_word(a, occ);
    assert forall|i: int| 0 <= i < 64 implies bit(y, i) == bit(x, i) by {}
    lemma_bits_ext(y, x);
}

/// The set with every square above one of its squares on the same file: doubled one, two
/// and four ranks up in turn.
pub open spec fn fill_up(x: u64) -> u64 {
    let a = x | (x << 8u64);
    let b = a | (a << 16u64);
    b | (b << 32u64)
}

/// The set with every square below one of its squares on the same file.
pub open spec fn fill_down(x: u64) -> u64 {
    let a = x | (x >> 8u64);
    let b = a | (a >> 16u64);
    b | (b >> 32u64)
}

/// `fill_up`, computed.
fn filled_up(x: u64) -> (r: u64)
    ensures
        r == fill_up(x),
{
    let a = x | (x << 8u64);
    let b = a | (a << 16u64);
    b | (b << 32u64)
}

/// `fill_down`, computed.
fn filled_down(x: u64) -> (r: u64)
    ensures
        r == fill_down(x),
{
    let a = x | (x >> 8u64);
    let b = a | (a >> 16u64);
    b | (b >> 32u64)
}

/// The number of pawns of `ours` that no pawn of `theirs` on a neighbouring file can stop:
/// those outside the squares that the enemy pawns attack and everything behind them, seen
/// from side `c`.
pub open spec fn passed_pawns(ours: u64, theirs: u64, c: Color) -> nat {
    let fill = if c == Color::White {
        fill_down(shifted(theirs, Direction::SouthWest) | shifted(theirs, Direction::SouthEast))
    } else {
        fill_up(shifted(theirs, Direction::NorthEast) | shifted(theirs, Direction::NorthWest))
    };
    popcount(!fill & ours)
}

/// The number of pawns of `ours` with another of them further down their file.
pub open spec fn doubled_pawns(ours: u64) -> nat {
    popcount(fill_up(shifted(ours, Direction::North)) & ours)
}

/// The number of pawns of `ours` with none of them on either neighbouring file.
pub open spec fn isolated_pawns(ours: u64) -> nat {
    let east = shifted(ours, Direction::East);
    let west = shifted(ours, Direction::West);
    popcount((ours & !(fill_up(east) | fill_down(east))) & (ours & !(fill_up(west) | fill_down(west))))
}

/// The squares in front of a king on `k`, and diagonally in front, for side `c`.
pub open spec fn shield_word(c: Color, k: int) -> u64 {
    let x = 1u64 << (k as u64);
    if c == Color::White {
        shifted(x, Direction::North) | shifted(x, Direction::NorthEast) | shifted(x, Direction::NorthWest)
    } else {
        shifted(x, Direction::South) | shifted(x, Direction::SouthEast) | shifted(x, Direction::SouthWest)
    }
}

/// The square of side `c`'s king, the lowest when there are several.
pub open spec fn king_square(b: Board, c: Color) -> int {
    u64_trailing_zeros(piece_word(b, c, PieceType::King)) as int
}

/// The pawn, bishop pair and king shelter terms of side `c`, middle and end game.
pub open spec fn side_terms(b: Board, c: Color) -> (int, int) {
    let ours = piece_word(b, c, PieceType::Pawn);
    let theirs = piece_word(b, c.other(), PieceType::Pawn);
    let p = passed_pawns(ours, theirs, c) as int;
    let d = doubled_pawns(ours) as int;
    let i = isolated_pawns(ours) as int;
    let bishops = piece_word(b, c, PieceType::Bishop);
    let pair = bishops & Bitboard::LIGHT_SQUARES != 0 && bishops & Bitboard::DARK_SQUARES != 0;
    let shield = if piece_word(b, c, PieceType::King) == 0 {
        0
    } else {
        popcount(shield_word(c, king_square(b, c)) & ours) as int
    };
    (
        p * PASSED_PAWN_MG + d * DOUBLED_PAWN_MG + i * ISOLATED_PAWN_MG + (if pair { BISHOP_PAIR_MG as int } else { 0 }) + shield
            * KING_PAWN_SHIELD_MG,
        p * PASSED_PAWN_EG + d * DOUBLED_PAWN_EG + i * ISOLATED_PAWN_EG + (if pair { BISHOP_PAIR_EG as int } else { 0 }) + shield
            * KING_PAWN_SHIELD_EG,
    )
}

/// The terms of a bishop of side `c` on `s`: for attacking two empty centre squares, and per
/// own pawn on squares of its color.
pub open spec fn bishop_terms(b: Board, c: Color, s: int) -> (int, int) {
    let occ = b.occupancy();
    let center = popcount(bishop_word(s, occ) & !occ & Bitboard::CENTER) == 2;
    let same = if bit(Bitboard::DARK_SQUARES, s) { Bitboard::DARK_SQUARES } else { Bitboard::LIGHT_SQUARES };
    let n = popcount(piece_word(b, c, PieceType::Pawn) & same) as int;
    (
        (if center { BISHOP_ATTACKS_CENTER_MG as int } else { 0 }) + n * BISHOP_SAME_COLOR_PAWN_MG,
        (if center { BISHOP_ATTACKS_CENTER_EG as int } else { 0 }) + n * BISHOP_SAME_COLOR_PAWN_EG,
    )
}

/// The terms of a rook of side `c` on `s`: for an open or half open file, and for having at
/// most three empty squares to go to on the far side of its own king's file.
pub open spec fn rook_terms(b: Board, c: Color, s: int) -> (int, int) {
    let occ = b.occupancy();
    let file = 0x0101_0101_0101_0101u64 << ((s % 8) as u64);
    let ours = piece_word(b, c, PieceType::Pawn);
    let theirs = piece_word(b, c.other(), PieceType::Pawn);
    let (omg, oeg) = if ours & file == 0 {
        if theirs & file == 0 {
            (ROOK_ON_OPEN_FILE_MG as int, ROOK_ON_OPEN_FILE_EG as int)
        } else {
            (ROOK_ON_SEMIOPEN_FILE_MG as int, ROOK_ON_SEMIOPEN_FILE_EG as int)
        }
    } else {
        (0, 0)
    };
    let trapped = popcount(rook_word(s, occ) & !occ) <= 3 && piece_word(b, c, PieceType::King) != 0 && ((
    king_square(b, c) % 8 < 4) == (s % 8 < king_square(b, c) % 8));
    (omg + (if trapped { KING_TRAPPING_ROOK_MG as int } else { 0 }), oeg + (if trapped {
        KING_TRAPPING_ROOK_EG as int
    } else {
        0
    }))
}

/// The square `s` as seen by side `c`: mirrored rank for black.
pub open spec fn relative_sq(s: int, c: Color) -> int {
    if c == Color::White {
        s
    } else {
        8 * (7 - s / 8) + s % 8
    }
}

/// What the piece on square `s` adds, from white's point of view: material, piece-square and
/// bishop or rook terms in the middle and end game, and its phase weight.
pub open spec fn square_terms(b: Board, s: int) -> (int, int, int) {
    match b.squares()[s] {
        None => (0, 0, 0),
        Some(pc) => {
            let c = pc.color_of_spec();
            let t = pc.type_of_spec();
            let pt = t.idx();
            let k = pt * 64 + relative_sq(s, c);
            let extra = if t == PieceType::Bishop {
                bishop_terms(b, c, s)
            } else if t == PieceType::Rook {
                rook_terms(b, c, s)
            } else {
                (0, 0)
            };
            let mg = pst_mg_table()[k] + value_mg(pt) + extra.0;
            let eg = pst_eg_table()[k] + value_eg(pt) + extra.1;
            if c == Color::White {
                (mg, eg, phase_weight(pt))
            } else {
                (-mg, -eg, phase_weight(pt))
            }
        },
    }
}

/// The sum of `square_terms` over the squares below `n`.
pub open spec fn squares_sum(b: Board, n: int) -> (int, int, int)
    decreases n,
{
    if n <= 0 {
        (0, 0, 0)
    } else {
        let r = squares_sum(b, n - 1);
        let t = square_terms(b, n - 1);
        (r.0 + t.0, r.1 + t.1, r.2 + t.2)
    }
}

/// The static evaluation of `b` from the side to move's point of view: the middle and end game
/// sums of all terms, white's minus black's with a bonus for the side to move, mixed by the
/// game phase and rounded towards zero.
pub open spec fn eval_spec(b: Board) -> int {
    let sq = squares_sum(b, 64);
    let w = side_terms(b, Color::White);
    let k = side_terms(b, Color::Black);
    let white = b.side() == Color::White;
    let mg = sq.0 + w.0 - k.0 + (if white { TEMPO_MG as int } else { -TEMPO_MG });
    let eg = sq.1 + w.1 - k.1 + (if white { TEMPO_EG as int } else { -TEMPO_EG });
    let v = div_toward_zero(mg * sq.2 + eg * (384 - sq.2), 384);
    if white {
        v
    } else {
        -v
    }
}


/// The number of squares of `x`.
fn count(x: u64) -> (r: i32)
    ensures
        r == popcount(x),
        0 <= r <= 64,
{
    proof {
        lemma_popcount_basics(x);
    }
    Bitboard(x).pop_count()
}

/// The pieces of side `c` and type `pt`, as a word.
fn pieces(board: &Board, c: Color, pt: PieceType) -> (r: u64)
    requires
        board.wf(),
    ensures
        r == piece_word(*board, c, pt),
{
    let bb = board.bitboard_of(c, pt);
    proof {
        assert forall|s: int| #[trigger] bit(bb.0, s) == board.holds(s, c, pt) by {
            assert(bb.has(s) == board.holds(s, c, pt));
        }
        lemma_piece_word(*board, c, pt, bb.0);
    }
    bb.0
}

/// The square of side `c`'s king, the lowest when there are several; none without a king.
fn king_of(board: &Board, c: Color) -> (r: Option<SQ>)
    requires
        board.wf(),
    ensures
        r is None <==> piece_word(*board, c, PieceType::King) == 0,
        r matches Some(k) ==> k.idx() == king_square(*board, c),
{
    let k = pieces(board, c, PieceType::King);
    if k == 0 {
        None
    } else {
        Some(Bitboard(k).lsb())
    }
}

/// `side_terms`, computed.
fn side_terms_of(board: &Board, c: Color) -> (r: (i32, i32))
    requires
        board.wf(),
    ensures
        r.0 == side_terms(*board, c).0,
        r.1 == side_terms(*board, c).1,
        -5000 <= r.0 <= 5000,
        -5000 <= r.1 <= 5000,
{
    let ours = pieces(board, c, PieceType::Pawn);
    let theirs = pieces(board, c.not(), PieceType::Pawn);
    let fill = match c {
        Color::White => {
            let a = Bitboard(theirs).shift(Direction::SouthWest).0 | Bitboard(theirs).shift(Direction::SouthEast).0;
            filled_down(a)
        },
        Color::Black => {
            let a = Bitboard(theirs).shift(Direction::NorthEast).0 | Bitboard(theirs).shift(Direction::NorthWest).0;
            filled_up(a)
        },
    };
    let p = count(!fill & ours);
    let d = count(filled_up(Bitboard(ours).shift(Direction::North).0) & ours);
    let east = Bitboard(ours).shift(Direction::East).0;
    let west = Bitboard(ours).shift(Direction::West).0;
    let east_files = filled_up(east) | filled_down(east);
    let west_files = filled_up(west) | filled_down(west);
    let i = count((ours & !east_files) & (ours & !west_files));
    let bishops = pieces(board, c, PieceType::Bishop);
    let pair = bishops & Bitboard::LIGHT_SQUARES != 0 && bishops & Bitboard::DARK_SQUARES != 0;
    let shield = match king_of(board, c) {
        None => 0,
        Some(k) => {
            let x = k.bb();
            let w = match c {
                Color::White => x.shift(Direction::North).0 | x.shift(Direction::NorthEast).0 | x.shift(Direction::NorthWest).0,
                Color::Black => x.shift(Direction::South).0 | x.shift(Direction::SouthEast).0 | x.shift(Direction::SouthWest).0,
            };
            count(w & ours)
        },
    };
    let mg = p * PASSED_PAWN_MG + d * DOUBLED_PAWN_MG + i * ISOLATED_PAWN_MG + (if pair { BISHOP_PAIR_MG } else { 0 }) + shield
        * KING_PAWN_SHIELD_MG;
    let eg = p * PASSED_PAWN_EG + d * DOUBLED_PAWN_EG + i * ISOLATED_PAWN_EG + (if pair { BISHOP_PAIR_EG } else { 0 }) + shield
        * KING_PAWN_SHIELD_EG;
    (mg, eg)
}

/// `bishop_terms`, computed, with the occupied squares `occ` and the side's pawns `ours`.
fn bishop_terms_of(board: &Board, c: Color, sq: SQ, occ: u64, ours: u64) -> (r: (i32, i32))
    requires
        board.wf(),
        occ == board.occupancy(),
        ours == piece_word(*board, c, PieceType::Pawn),
    ensures
        r.0 == bishop_terms(*board, c, sq.idx()).0,
        r.1 == bishop_terms(*board, c, sq.idx()).1,
        -300 <= r.0 <= 300,
        -500 <= r.1 <= 500,
{
    let att = bishop_attacks(sq, Bitboard(occ));
    proof {
        assert forall|s: int| #[trigger] bit(att.0, s) == bishop_sq(sq.idx(), occ, s) by {
            assert(att.has(s) == bishop_sq(sq.idx(), occ, s));
        }
        lemma_bishop_word(sq.idx(), occ, att.0);
    }
    let center = count(att.0 & !occ & Bitboard::CENTER) == 2;
    let k = sq.index() as u64;
    let same = if (Bitboard::DARK_SQUARES >> k) & 1u64 == 1u64 {
        Bitboard::DARK_SQUARES
    } else {
        Bitboard::LIGHT_SQUARES
    };
    let n = count(ours & same);
    let mg = (if center { BISHOP_ATTACKS_CENTER_MG } else { 0 }) + n * BISHOP_SAME_COLOR_PAWN_MG;
    let eg = (if center { BISHOP_ATTACKS_CENTER_EG } else { 0 }) + n * BISHOP_SAME_COLOR_PAWN_EG;
    (mg, eg)
}

/// `rook_terms`, computed, with the occupied squares `occ`, the side's pawns `ours`, the
/// enemy pawns `theirs` and the side's king `king`.
fn rook_terms_of(board: &Board, c: Color, sq: SQ, occ: u64, ours: u64, theirs: u64, king: Option<SQ>) -> (r: (i32, i32))
    requires
        board.wf(),
        occ == board.occupancy(),
        ours == piece_word(*board, c, PieceType::Pawn),
        theirs == piece_word(*board, c.other(), PieceType::Pawn),
        king is None <==> piece_word(*board, c, PieceType::King) == 0,
        king matches Some(k) ==> k.idx() == king_square(*board, c),
    ensures
        r.0 == rook_terms(*board, c, sq.idx()).0,
        r.1 == rook_terms(*board, c, sq.idx()).1,
        -100 <= r.0 <= 100,
        -100 <= r.1 <= 100,
{
    let file = sq.file().bb().0;
    assert(file == 0x0101_0101_0101_0101u64 << ((sq.idx() % 8) as u64));
    let (omg, oeg) = if ours & file == 0 {
        if theirs & file == 0 {
            (ROOK_ON_OPEN_FILE_MG, ROOK_ON_OPEN_FILE_EG)
        } else {
            (ROOK_ON_SEMIOPEN_FILE_MG, ROOK_ON_SEMIOPEN_FILE_EG)
        }
    } else {
        (0, 0)
    };
    let att = rook_attacks(sq, Bitboard(occ));
    proof {
        assert forall|s: int| #[trigger] bit(att.0, s) == rook_sq(sq.idx(), occ, s) by {
            assert(att.has(s) == rook_sq(sq.idx(), occ, s));
        }
        lemma_rook_word(sq.idx(), occ, att.0);
    }
    let trapped = if count(att.0 & !occ) <= 3 {
        match king {
            None => false,
            Some(k) => {
                let kf = k.index() % 8;
                let f = sq.index() % 8;
                (kf < 4) == (f < kf)
            },
        }
    } else {
        false
    };
    (omg + (if trapped { KING_TRAPPING_ROOK_MG } else { 0 }), oeg + (if trapped { KING_TRAPPING_ROOK_EG } else { 0 }))
}

/// `square_terms`, computed, with the words and kings of both sides.
fn square_terms_of(
    board: &Board,
    sq: SQ,
    occ: u64,
    white_pawns: u64,
    black_pawns: u64,
    white_king: Option<SQ>,
    black_king: Option<SQ>,
) -> (r: (i32, i32, i32))
    requires
        board.wf(),
        occ == board.occupancy(),
        white_pawns == piece_word(*board, Color::White, PieceType::Pawn),
        black_pawns == piece_word(*board, Color::Black, PieceType::Pawn),
        white_king is None <==> piece_word(*board, Color::White, PieceType::King) == 0,
        white_king matches Some(k) ==> k.idx() == king_square(*board, Color::White),
        black_king is None <==> piece_word(*board, Color::Black, PieceType::King) == 0,
        black_king matches Some(k) ==> k.idx() == king_square(*board, Color::Black),
    ensures
        r.0 == square_terms(*board, sq.idx()).0,
        r.1 == square_terms(*board, sq.idx()).1,
        r.2 == square_terms(*board, sq.idx()).2,
        -1500 <= r.0 <= 1500,
        -1700 <= r.1 <= 1700,
        0 <= r.2 <= 64,
{
    match board.piece_at(sq) {
        None => (0, 0, 0),
        Some(pc) => {
            let c = pc.color_of();
            let t = pc.type_of();
            let rel = sq.relative(c);
            let (tmg, teg) = pst(t.index(), rel.index());
            let (vmg, veg, ph) = piece_values(t);
            let (xmg, xeg) = match t {
                PieceType::Bishop => match c {
                    Color::White => bishop_terms_of(board, c, sq, occ, white_pawns),
                    Color::Black => bishop_terms_of(board, c, sq, occ, black_pawns),
                },
                PieceType::Rook => match c {
                    Color::White => rook_terms_of(board, c, sq, occ, white_pawns, black_pawns, white_king),
                    Color::Black => rook_terms_of(board, c, sq, occ, black_pawns, white_pawns, black_king),
                },
                _ => (0, 0),
            };
            let mg = tmg + vmg + xmg;
            let eg = teg + veg + xeg;
            match c {
                Color::White => (mg, eg, ph),
                Color::Black => (-mg, -eg, ph),
            }
        },
    }
}

/// The static evaluation of `board` from the side to move's point of view, as `eval_spec`
/// says; a side without a king has no king shelter and no rook trapped by its king.
pub fn eval(board: &Board) -> (r: i32)
    requires
        board.wf(),
    ensures
        r == eval_spec(*board),
{
    let occ = board.all_pieces().0;
    let white_pawns = pieces(board, Color::White, PieceType::Pawn);
    let black_pawns = pieces(board, Color::Black, PieceType::Pawn);
    let white_king = king_of(board, Color::White);
    let black_king = king_of(board, Color::Black);
    let mut mg: i64 = 0;
    let mut eg: i64 = 0;
    let mut ph: i64 = 0;
    let mut s: u8 = 0;
    while s < 64
        invariant
            board.wf(),
            s <= 64,
            occ == board.occupancy(),
            white_pawns == piece_word(*board, Color::White, PieceType::Pawn),
            black_pawns == piece_word(*board, Color::Black, PieceType::Pawn),
            white_king is None <==> piece_word(*board, Color::White, PieceType::King) == 0,
            white_king matches Some(k) ==> k.idx() == king_square(*board, Color::White),
            black_king is None <==> piece_word(*board, Color::Black, PieceType::King) == 0,
            black_king matches Some(k) ==> k.idx() == king_square(*board, Color::Black),
            (mg as int, eg as int, ph as int) == squares_sum(*board, s as int),
            -1500 * s <= mg <= 1500 * s,
            -1700 * s <= eg <= 1700 * s,
            0 <= ph <= 64 * s,
        decreases 64 - s,
    {
        let sq = SQ::from_u8(s);
        let (a, b, c) = square_terms_of(board, sq, occ, white_pawns, black_pawns, white_king, black_king);
        mg = mg + a as i64;
        eg = eg + b as i64;
        ph = ph + c as i64;
        s = s + 1;
    }
    let (wmg, weg) = side_terms_of(board, Color::White);
    let (bmg, beg) = side_terms_of(board, Color::Black);
    let white = board.ctm() == Color::White;
    let total_mg = mg + wmg as i64 - bmg as i64 + (if white { TEMPO_MG as i64 } else { -(TEMPO_MG as i64) });
    let total_eg = eg + weg as i64 - beg as i64 + (if white { TEMPO_EG as i64 } else { -(TEMPO_EG as i64) });
    assert(-110000 * 4096 <= total_mg * ph <= 110000 * 4096) by (nonlinear_arith)
        requires
            -110000 <= total_mg <= 110000,
            0 <= ph <= 4096,
    ;
    assert(-120000 * 4096 <= total_eg * (384 - ph) <= 120000 * 4096) by (nonlinear_arith)
        requires
            -120000 <= total_eg <= 120000,
            0 <= ph <= 4096,
    ;
    let t = total_mg * ph + total_eg * (384 - ph);
    assert(-1000000000 <= t <= 1000000000);
    let v = t / 384;
    assert(-4000000 <= v <= 4000000);
    if white {
        v as i32
    } else {
        -(v as i32)
    }
}

/// The evaluation as the search reads it: `eval`, held within `-EVAL_LIMIT..=EVAL_LIMIT` so
/// that no static value reaches the range of mate values.
pub fn search_eval(board: &Board) -> (r: i32)
    requires
        board.wf(),
    ensures
        r == (if eval_spec(*board) > EVAL_LIMIT {
            EVAL_LIMIT as int
        } else if eval_spec(*board) < -EVAL_LIMIT {
            -EVAL_LIMIT
        } else {
            eval_spec(*board)
        }),
{
    let v = eval(board);
    if v > EVAL_LIMIT {
        EVAL_LIMIT
    } else if v < -EVAL_LIMIT {
        -EVAL_LIMIT
    } else {
        v
    }
}

/// The largest size of a static value that the search reads.
pub const EVAL_LIMIT: i32 = 15000;

/// Two boards with the same pieces have the same piece words and occupancy.
proof fn lemma_same_pieces_words(b1: Board, b2: Board)
    requires
        b1.wf(),
        b2.wf(),
        b1.squares() == b2.squares(),
    ensures
        b1.occupancy() == b2.occupancy(),
        forall|c: Color, pt: PieceType| #[trigger] piece_word(b1, c, pt) == piece_word(b2, c, pt),
{
    b1.lemma_occupancy_bits();
    b2.lemma_occupancy_bits();
    assert forall|i: int| 0 <= i < 64 implies bit(b1.occupancy(), i) == bit(b2.occupancy(), i) by {}
    lemma_bits_ext(b1.occupancy(), b2.occupancy());
    assert forall|c: Color, pt: PieceType| #[trigger] piece_word(b1, c, pt) == piece_word(b2, c, pt) by {
        let x = b1.piece_bits(c, pt);
        assert forall|s: int| #[trigger] bit(x, s) == b2.holds(s, c, pt) by {
            assert(bit(x, s) == b1.holds(s, c, pt));
        }
        lemma_piece_word(b1, c, pt, x);
        lemma_piece_word(b2, c, pt, x);
    }
}

/// The sums over squares agree on two boards with the same pieces.
proof fn lemma_same_pieces_sum(b1: Board, b2: Board, n: int)
    requires
        b1.wf(),
        b2.wf(),
        b1.squares() == b2.squares(),
        b1.occupancy() == b2.occupancy(),
        forall|c: Color, pt: PieceType| #[trigger] piece_word(b1, c, pt) == piece_word(b2, c, pt),
    ensures
        squares_sum(b1, n) == squares_sum(b2, n),
    decreases n,
{
    if n > 0 {
        lemma_same_pieces_sum(b1, b2, n - 1);
        let s = n - 1;
        match b1.squares()[s] {
            None => {},
            Some(pc) => {
                let c = pc.color_of_spec();
                assert(piece_word(b1, c, PieceType::Pawn) == piece_word(b2, c, PieceType::Pawn));
                assert(piece_word(b1, c.other(), PieceType::Pawn) == piece_word(b2, c.other(), PieceType::Pawn));
                assert(piece_word(b1, c, PieceType::King) == piece_word(b2, c, PieceType::King));
                assert(bishop_terms(b1, c, s) == bishop_terms(b2, c, s));
                assert(rook_terms(b1, c, s) == rook_terms(b2, c, s));
            },
        }
        assert(square_terms(b1, s) == square_terms(b2, s));
    }
}

/// The evaluation depends on the position alone: two boards with the same pieces and the same
/// side to move evaluate alike, whatever their histories.
pub proof fn lemma_eval_same_pieces(b1: Board, b2: Board)
    requires
        b1.wf(),
        b2.wf(),
        b1.squares() == b2.squares(),
        b1.side() == b2.side(),
    ensures
        eval_spec(b1) == eval_spec(b2),
{
    lemma_same_pieces_words(b1, b2);
    lemma_same_pieces_sum(b1, b2, 64);
    assert(side_terms(b1, Color::White) == side_terms(b2, Color::White)) by {
        assert(piece_word(b1, Color::White, PieceType::Pawn) == piece_word(b2, Color::White, PieceType::Pawn));
        assert(piece_word(b1, Color::Black, PieceType::Pawn) == piece_word(b2, Color::Black, PieceType::Pawn));
        assert(piece_word(b1, Color::White, PieceType::Bishop) == piece_word(b2, Color::White, PieceType::Bishop));
        assert(piece_word(b1, Color::White, PieceType::King) == piece_word(b2, Color::White, PieceType::King));
    }
    assert(side_terms(b1, Color::Black) == side_terms(b2, Color::Black)) by {
        assert(piece_word(b1, Color::White, PieceType::Pawn) == piece_word(b2, Color::White, PieceType::Pawn));
        assert(piece_word(b1, Color::Black, PieceType::Pawn) == piece_word(b2, Color::Black, PieceType::Pawn));
        assert(piece_word(b1, Color::Black, PieceType::Bishop) == piece_word(b2, Color::Black, PieceType::Bishop));
        assert(piece_word(b1, Color::Black, PieceType::King) == piece_word(b2, Color::Black, PieceType::King));
    }
}

/// Playing a move and taking it back leaves the evaluation as it was.
pub proof fn lemma_push_pop_eval(b0: Board, b1: Board, b2: Board, m: crate::moov::Move, r: Option<crate::moov::Move>)
    requires
        b0.wf(),
        b1.wf(),
        b2.wf(),
        crate::board::reversible(b0.squares(), b0.side(), m),
        Board::pushed(b0, b1, m),
        Board::popped(b1, b2, r),
    ensures
        eval_spec(b2) == eval_spec(b0),
{
    crate::board::lemma_push_pop(b0, b1, b2, m, r);
    lemma_eval_same_pieces(b2, b0);
}

/// The material the evaluation counts for each kind of piece, middle game and end game:
/// pawn 113/139, knight 358/332, bishop 362/332, rook 475/561, queen 1010/1020, and the
/// king nothing. A rook is worth more than a minor piece and more than three pawns, a queen
/// more than a rook and a minor piece together, in both phases.
pub proof fn lemma_material_values()
    ensures
        value_mg(0) == 113 && value_eg(0) == 139,
        value_mg(1) == 358 && value_eg(1) == 332,
        value_mg(2) == 362 && value_eg(2) == 332,
        value_mg(3) == 475 && value_eg(3) == 561,
        value_mg(4) == 1010 && value_eg(4) == 1020,
        value_mg(5) == 0 && value_eg(5) == 0,
        value_mg(3) > value_mg(1) && value_mg(3) > value_mg(2) && value_eg(3) > value_eg(1) && value_eg(3) > value_eg(2),
        value_mg(3) > 3 * value_mg(0) && value_eg(3) > 3 * value_eg(0),
        value_mg(4) > value_mg(3) + value_mg(2) && value_eg(4) > value_eg(3) + value_eg(2),
        forall|p: int| 0 <= p < 5 ==> #[trigger] value_mg(p) > 0 && value_eg(p) > 0,
{
}

/// What a piece adds to the evaluation's sums beyond its square's table entry and, for a
/// bishop or a rook, its own terms: its material, pawn 113/139, knight 358/332, bishop
/// 362/332, rook 475/561, queen 1010/1020 and king nothing, for white pieces, and as much
/// taken away for black ones; and its share of the game phase, 16 for a minor piece, 32 for a
/// rook and 64 for a queen.
pub proof fn lemma_square_material(b: Board, s: int)
    requires
        0 <= s < 64,
        b.squares()[s] is Some,
    ensures
        ({
            let pc = b.squares()[s]->0;
            let c = pc.color_of_spec();
            let t = pc.type_of_spec();
            let k = t.idx() * 64 + relative_sq(s, c);
            let extra = if t == PieceType::Bishop {
                bishop_terms(b, c, s)
            } else if t == PieceType::Rook {
                rook_terms(b, c, s)
            } else {
                (0, 0)
            };
            let sign = if c == Color::White { 1int } else { -1 };
            let (mg, eg) = match t {
                PieceType::Pawn => (113int, 139int),
                PieceType::Knight => (358, 332),
                PieceType::Bishop => (362, 332),
                PieceType::Rook => (475, 561),
                PieceType::Queen => (1010, 1020),
                PieceType::King => (0, 0),
            };
            let phase = match t {
                PieceType::Knight => 16int,
                PieceType::Bishop => 16,
                PieceType::Rook => 32,
                PieceType::Queen => 64,
                _ => 0,
            };
            &&& sign * square_terms(b, s).0 - pst_mg_table()[k] - extra.0 == mg
            &&& sign * square_terms(b, s).1 - pst_eg_table()[k] - extra.1 == eg
            &&& square_terms(b, s).2 == phase
        }),
{
}

} // verus!
