use vstd::prelude::*;
use crate::attacks::{
    attacks, bishop_attacks, bishop_sq, king_attacks, king_sq, knight_attacks, knight_sq, pawn_attacks_bb,
    pawn_attacks_sq, pawn_sq, rook_attacks, rook_sq,
};
use crate::bitboard::{
    between_sq, bit, lemma_bit_or, lemma_bits_ext, lemma_squares_of, lemma_zero_iff_no_bits, line_sq, popcount, squares_of,
    same_rank, same_file, same_diag, same_anti,
    Bitboard,
};
use crate::move_list::{is_move, promotion_code, MoveList};
use crate::rank::Rank;
use crate::castling::CastlingRights;
use crate::fen::{
    fen_black, fen_epsq, fen_fields_read, fen_framed, fen_fullmove, fen_halfmove, fen_ok, fen_panics,
    fen_ply, fen_rights, fen_squares, fen_words, has_fen_shape, is_ascii_line, piece_of_letter,
    place_rank, place_ranks, split_bytes, split_on, trimmed, trimmed_copy, decimal, decimal_bytes,
    placement_text, rank_text, run_digit, square_text, all_ascii, ascii_string, lemma_decimal_ascii,
    lemma_placement_text_ascii, ascii_line, fen_shape, fen_overflows, place_overflows,
};
use crate::castling::rights_text;
use crate::parse::{digits_to_u64, digits_value, is_digit, split_words, words, words_view};
use vstd::string::StringSliceAdditionalSpecFns;
use crate::color::Color;
use core::ops::Not;
use crate::moov::{promotion_letter, uci_name, Move, MoveFlags};
use crate::piece::{Piece, PieceType};
use crate::square::{Direction, SQ};
use crate::traits::Enumerable;
use crate::zobrist::{castling_key, color_key, ep_key, piece_key, zobrist_key, Hasher};
use crate::position_hash::{lemma_empty_hash, lemma_put_hash, lemma_take_hash, pieces_hash};

verus! {

broadcast use crate::bitboard::group_bit_lemmas;

/// How many plies of history a board keeps.
pub const N_HISTORIES: usize = 1024;

/// What a ply of play recorded: the castling rights after it, what it captured, its en passant
/// square, its move, the material hash, and the counters of the fifty-move rule and of the
/// plies since the last null move.
#[derive(Clone, Copy, Debug)]
pub struct HistoryEntry {
    pub rights: CastlingRights,
    pub captured: Option<Piece>,
    pub epsq: Option<SQ>,
    pub moov: Option<Move>,
    pub material_hash: u64,
    pub half_move_counter: u16,
    pub plies_from_null: u16,
}

impl HistoryEntry {
    /// The entry of a ply nothing has happened in.
    pub open spec fn blank() -> HistoryEntry {
        HistoryEntry {
            rights: CastlingRights(0),
            captured: None,
            epsq: None,
            moov: None,
            material_hash: 0,
            half_move_counter: 0,
            plies_from_null: 0,
        }
    }
}

impl Default for HistoryEntry {
    fn default() -> (r: HistoryEntry)
        ensures
            r == HistoryEntry::blank(),
    {
        HistoryEntry {
            rights: CastlingRights(0),
            captured: None,
            epsq: None,
            moov: None,
            material_hash: 0,
            half_move_counter: 0,
            plies_from_null: 0,
        }
    }
}

/// Whether square `s` of `squares` holds a piece of the kind numbered `t`.
pub open spec fn type_on(squares: Seq<Option<Piece>>, s: int, t: int) -> bool {
    0 <= s < 64 && match squares[s] {
        Some(pc) => pc.type_of_spec().idx() == t,
        None => false,
    }
}

/// Whether square `s` of `squares` holds a piece of the side numbered `c`.
pub open spec fn color_on(squares: Seq<Option<Piece>>, s: int, c: int) -> bool {
    0 <= s < 64 && match squares[s] {
        Some(pc) => pc.color_of_spec().idx() == c,
        None => false,
    }
}


/// Square `k` of White's half seen from side `c`: for Black, the same file on the mirrored rank.
pub open spec fn rel(k: int, c: Color) -> int {
    if c == Color::White {
        k
    } else {
        8 * (7 - k / 8) + k % 8
    }
}

/// The step of a pawn of side `c` to the next rank, in square numbers.
pub open spec fn forward(c: Color) -> int {
    if c == Color::White {
        8
    } else {
        -8
    }
}

/// The piece of side `c` and kind `t`.
pub open spec fn piece_of(c: Color, t: PieceType) -> Piece {
    Piece::from_code_spec(8 * c.idx() + t.idx())
}

/// `s` with what stands on `a` moved to `b`, leaving `a` empty.
pub open spec fn moved(s: Seq<Option<Piece>>, a: int, b: int) -> Seq<Option<Piece>> {
    s.update(b, s[a]).update(a, None)
}

/// The hash key of piece `pc` on the square numbered `i`.
pub open spec fn sq_key(pc: Piece, i: int) -> u64 {
    zobrist_key((64 * pc.dense_index() + i) as nat)
}

/// The hash `h` with `p` put on or taken off square `i`; no piece changes nothing.
pub open spec fn toggled(h: u64, p: Option<Piece>, i: int) -> u64 {
    match p {
        Some(pc) => h ^ sq_key(pc, i),
        None => h,
    }
}

/// The hash `h` with `pc` moved from square `a` to square `b`.
pub open spec fn moved_hash(h: u64, pc: Piece, a: int, b: int) -> u64 {
    h ^ (sq_key(pc, a) ^ sq_key(pc, b))
}

/// The square of the pawn that an en passant capture to `to` by side `c` takes.
pub open spec fn ep_victim(to: int, c: Color) -> int {
    to - forward(c)
}

/// The piece that a promotion of side `c` by `m` creates.
pub open spec fn promoted(m: Move, c: Color) -> Piece {
    piece_of(c, m.promotion_spec()->0)
}

/// Whether a piece of kind `pt` of side `us` on `f` goes to `t` when the squares of `occ`
/// are occupied: a pawn one square forward, or diagonally forward when it captures; the
/// other pieces as they attack.
pub open spec fn piece_reaches(pt: PieceType, us: Color, f: int, t: int, capture: bool, occ: u64) -> bool {
    match pt {
        PieceType::Pawn => if capture {
            pawn_sq(f, us, t)
        } else {
            t == f + forward(us)
        },
        PieceType::Knight => knight_sq(f, t),
        PieceType::Bishop => bishop_sq(f, occ, t),
        PieceType::Rook => rook_sq(f, occ, t),
        PieceType::Queen => bishop_sq(f, occ, t) || rook_sq(f, occ, t),
        PieceType::King => king_sq(f, t),
    }
}

/// Whether the piece on a square moves as a knight (`lines == 0`), along diagonals
/// (`lines == 1`) or along ranks and files (`lines == 2`).
pub open spec fn slides_as_piece(p: Option<Piece>, lines: u8) -> bool {
    match p {
        Some(pc) => if lines == 0 {
            pc.type_of_spec() == PieceType::Knight
        } else if lines == 1 {
            pc.type_of_spec() == PieceType::Bishop || pc.type_of_spec() == PieceType::Queen
        } else {
            pc.type_of_spec() == PieceType::Rook || pc.type_of_spec() == PieceType::Queen
        },
        None => false,
    }
}

/// Whether side `us` can play `m` on the squares `s` without breaking the board: the squares
/// that the move empties hold a piece, those it fills are empty (but for a capture's target),
/// and the squares it computes lie on the board.
pub open spec fn push_ok(s: Seq<Option<Piece>>, us: Color, m: Move) -> bool {
    let f = m.from_idx();
    let t = m.to_idx();
    let k = m.flag_code();
    if k == 0 {
        s[f] is Some && s[t] is None
    } else if k == 1 {
        s[f] is Some && s[t] is None && 0 <= f + forward(us) < 64
    } else if k == 2 {
        s[rel(4, us)] is Some && s[rel(6, us)] is None && s[rel(7, us)] is Some && s[rel(5, us)] is None
    } else if k == 3 {
        s[rel(4, us)] is Some && s[rel(2, us)] is None && s[rel(0, us)] is Some && s[rel(3, us)] is None
    } else if k == 4 {
        s[f] is Some && f != t
    } else if k == 5 {
        s[f] is Some && s[t] is None && 0 <= ep_victim(t, us) < 64
    } else if k < 12 {
        s[t] is None
    } else {
        true
    }
}

/// The squares after side `us` plays `m` on `s`.
#[verifier::opaque]
pub open spec fn after_push(s: Seq<Option<Piece>>, us: Color, m: Move) -> Seq<Option<Piece>> {
    let f = m.from_idx();
    let t = m.to_idx();
    let k = m.flag_code();
    if k == 0 || k == 1 || k == 4 {
        moved(s, f, t)
    } else if k == 2 {
        moved(moved(s, rel(4, us), rel(6, us)), rel(7, us), rel(5, us))
    } else if k == 3 {
        moved(moved(s, rel(4, us), rel(2, us)), rel(0, us), rel(3, us))
    } else if k == 5 {
        moved(s, f, t).update(ep_victim(t, us), None)
    } else {
        s.update(f, None).update(t, Some(promoted(m, us)))
    }
}

/// The material hash after side `us` plays `m` on `s` whose hash is `h`.
#[verifier::opaque]
pub open spec fn hash_after_push(s: Seq<Option<Piece>>, us: Color, m: Move, h: u64) -> u64 {
    let f = m.from_idx();
    let t = m.to_idx();
    let k = m.flag_code();
    if k == 0 || k == 1 {
        moved_hash(h, s[f]->0, f, t)
    } else if k == 2 {
        moved_hash(moved_hash(h, s[rel(4, us)]->0, rel(4, us), rel(6, us)), s[rel(7, us)]->0, rel(7, us), rel(5, us))
    } else if k == 3 {
        moved_hash(moved_hash(h, s[rel(4, us)]->0, rel(4, us), rel(2, us)), s[rel(0, us)]->0, rel(0, us), rel(3, us))
    } else if k == 4 {
        moved_hash(toggled(h, s[t], t), s[f]->0, f, t)
    } else if k == 5 {
        toggled(moved_hash(h, s[f]->0, f, t), moved(s, f, t)[ep_victim(t, us)], ep_victim(t, us))
    } else if k < 12 {
        toggled(toggled(h, s[f], f), Some(promoted(m, us)), t)
    } else {
        toggled(toggled(toggled(h, s[t], t), s.update(t, None)[f], f), Some(promoted(m, us)), t)
    }
}

/// The piece that `m` captures on `s`, as the history records it: the target of a capture
/// or of a capturing promotion. En passant records nothing.
pub open spec fn captured_by(s: Seq<Option<Piece>>, m: Move) -> Option<Piece> {
    if m.flag_code() == 4 || m.flag_code() >= 12 {
        s[m.to_idx()]
    } else {
        None
    }
}


/// Whether the move `m` of side `mover` can be taken back on the squares `s`: the squares
/// the take-back empties hold a piece, those it fills are empty, and a capture recorded
/// `captured`.
pub open spec fn pop_ok(s: Seq<Option<Piece>>, mover: Color, m: Move, captured: Option<Piece>) -> bool {
    let f = m.from_idx();
    let t = m.to_idx();
    let k = m.flag_code();
    if k == 0 || k == 1 {
        s[t] is Some && s[f] is None
    } else if k == 2 {
        s[rel(6, mover)] is Some && s[rel(4, mover)] is None && s[rel(5, mover)] is Some && s[rel(7, mover)] is None
    } else if k == 3 {
        s[rel(2, mover)] is Some && s[rel(4, mover)] is None && s[rel(3, mover)] is Some && s[rel(0, mover)] is None
    } else if k == 4 {
        s[t] is Some && s[f] is None && captured is Some
    } else if k == 5 {
        s[t] is Some && s[f] is None && 0 <= ep_victim(t, mover) < 64 && ep_victim(t, mover) != f && s[ep_victim(
            t,
            mover,
        )] is None
    } else if k < 12 {
        s.update(t, None)[f] is None
    } else {
        s.update(t, None)[f] is None && f != t && captured is Some
    }
}

/// The squares after the move `m` of side `mover`, which captured `captured`, is taken back
/// on `s`.
#[verifier::opaque]
pub open spec fn after_pop(s: Seq<Option<Piece>>, mover: Color, m: Move, captured: Option<Piece>) -> Seq<Option<Piece>> {
    let f = m.from_idx();
    let t = m.to_idx();
    let k = m.flag_code();
    if k == 0 || k == 1 {
        moved(s, t, f)
    } else if k == 2 {
        moved(moved(s, rel(6, mover), rel(4, mover)), rel(5, mover), rel(7, mover))
    } else if k == 3 {
        moved(moved(s, rel(2, mover), rel(4, mover)), rel(3, mover), rel(0, mover))
    } else if k == 4 {
        moved(s, t, f).update(t, captured)
    } else if k == 5 {
        moved(s, t, f).update(ep_victim(t, mover), Some(piece_of(mover.other(), PieceType::Pawn)))
    } else if k < 12 {
        s.update(t, None).update(f, Some(piece_of(mover, PieceType::Pawn)))
    } else {
        s.update(t, None).update(f, Some(piece_of(mover, PieceType::Pawn))).update(t, captured)
    }
}

/// The material hash after the move `m` of side `mover` is taken back on `s` whose hash is `h`.
#[verifier::opaque]
pub open spec fn hash_after_pop(s: Seq<Option<Piece>>, mover: Color, m: Move, captured: Option<Piece>, h: u64) -> u64 {
    let f = m.from_idx();
    let t = m.to_idx();
    let k = m.flag_code();
    if k == 0 || k == 1 {
        moved_hash(h, s[t]->0, t, f)
    } else if k == 2 {
        moved_hash(moved_hash(h, s[rel(6, mover)]->0, rel(6, mover), rel(4, mover)), s[rel(5, mover)]->0, rel(5, mover), rel(7, mover))
    } else if k == 3 {
        moved_hash(moved_hash(h, s[rel(2, mover)]->0, rel(2, mover), rel(4, mover)), s[rel(3, mover)]->0, rel(3, mover), rel(0, mover))
    } else if k == 4 {
        toggled(moved_hash(h, s[t]->0, t, f), captured, t)
    } else if k == 5 {
        toggled(moved_hash(h, s[t]->0, t, f), Some(piece_of(mover.other(), PieceType::Pawn)), ep_victim(t, mover))
    } else if k < 12 {
        toggled(toggled(h, s[t], t), Some(piece_of(mover, PieceType::Pawn)), f)
    } else {
        toggled(toggled(toggled(h, s[t], t), Some(piece_of(mover, PieceType::Pawn)), f), captured, t)
    }
}

/// Whether side `us` playing `m` on `s` can be taken back exactly: besides `push_ok`, the
/// mover is a piece of `us`, a capture has a target, an en passant capture takes a pawn of
/// the other side, and a promotion starts from a pawn of `us`.
pub open spec fn reversible(s: Seq<Option<Piece>>, us: Color, m: Move) -> bool {
    let f = m.from_idx();
    let t = m.to_idx();
    let k = m.flag_code();
    &&& s.len() == 64
    &&& 0 <= f < 64
    &&& 0 <= t < 64
    &&& push_ok(s, us, m)
    &&& (k != 2 && k != 3 ==> s[f] is Some && s[f]->0.color_of_spec() == us)
    &&& (k == 4 || k >= 12 ==> s[t] is Some && s[t]->0.color_of_spec() == us.other())
    &&& (k == 5 ==> s[ep_victim(t, us)] == Some(piece_of(us.other(), PieceType::Pawn)))
    &&& (k >= 6 ==> s[f] == Some(piece_of(us, PieceType::Pawn)))
}


/// Flipping the same bits twice changes nothing, in the orders that moves and take-backs
/// flip them.
proof fn lemma_xor_facts(x: u64, a: u64, b: u64, c: u64, d: u64)
    by (bit_vector)
    ensures
        (x ^ (a ^ b)) ^ (b ^ a) == x,
        (x ^ a) ^ a == x,
        (((x ^ (a ^ b)) ^ c) ^ (b ^ a)) ^ c == x,
        (((x ^ (a ^ b)) ^ (c ^ d)) ^ (b ^ a)) ^ (d ^ c) == x,
{
}

/// Flipping the same bits twice changes nothing.
proof fn lemma_xor_twice(x: u64, a: u64, b: u64)
    ensures
        (x ^ (a ^ b)) ^ (b ^ a) == x,
        (x ^ a) ^ a == x,
{
    lemma_xor_facts(x, a, b, 0, 0);
}

/// The squares and the hash come back after a push or a double push.
#[verifier::rlimit(100)]
proof fn lemma_pop_after_push_quiet(s: Seq<Option<Piece>>, us: Color, m: Move, h: u64)
    requires
        reversible(s, us, m),
        m.flag_code() == 0 || m.flag_code() == 1,
    ensures
        pop_ok(after_push(s, us, m), us, m, captured_by(s, m)),
        after_pop(after_push(s, us, m), us, m, captured_by(s, m)) == s,
        hash_after_pop(after_push(s, us, m), us, m, captured_by(s, m), hash_after_push(s, us, m, h)) == h,
{
    reveal(after_push);
    reveal(hash_after_push);
    reveal(after_pop);
    reveal(hash_after_pop);
    let f = m.from_idx();
    let t = m.to_idx();
    let s1 = moved(s, f, t);
    assert(after_push(s, us, m) == s1);
    assert(captured_by(s, m) is None);
    assert(after_pop(s1, us, m, None) == moved(s1, t, f));
    assert(moved(s1, t, f) =~= s);
    assert(s1[t] == s[f]);
    lemma_xor_twice(h, sq_key(s[f]->0, f), sq_key(s[f]->0, t));
}

/// The squares and the hash come back after a capture.
#[verifier::rlimit(100)]
proof fn lemma_pop_after_push_capture(s: Seq<Option<Piece>>, us: Color, m: Move, h: u64)
    requires
        reversible(s, us, m),
        m.flag_code() == 4,
    ensures
        pop_ok(after_push(s, us, m), us, m, captured_by(s, m)),
        after_pop(after_push(s, us, m), us, m, captured_by(s, m)) == s,
        hash_after_pop(after_push(s, us, m), us, m, captured_by(s, m), hash_after_push(s, us, m, h)) == h,
{
    reveal(after_push);
    reveal(hash_after_push);
    reveal(after_pop);
    reveal(hash_after_pop);
    let f = m.from_idx();
    let t = m.to_idx();
    let s1 = moved(s, f, t);
    let c = s[t];
    assert(after_push(s, us, m) == s1);
    assert(captured_by(s, m) == c);
    assert(after_pop(s1, us, m, c) == moved(s1, t, f).update(t, c));
    assert(moved(s1, t, f).update(t, c) =~= s);
    assert(s1[t] == s[f]);
    let kf = sq_key(s[f]->0, f);
    let kt = sq_key(s[f]->0, t);
    let kc = sq_key(c->0, t);
    let h1 = h ^ kc;
    assert(hash_after_push(s, us, m, h) == h1 ^ (kf ^ kt));
    assert(hash_after_pop(s1, us, m, c, h1 ^ (kf ^ kt)) == (h1 ^ (kf ^ kt)) ^ (kt ^ kf) ^ kc);
    lemma_xor_twice(h1, kf, kt);
    lemma_xor_twice(h, kc, 0);
}

/// The squares and the hash come back after an en passant capture.
#[verifier::rlimit(100)]
proof fn lemma_pop_after_push_ep(s: Seq<Option<Piece>>, us: Color, m: Move, h: u64)
    requires
        reversible(s, us, m),
        m.flag_code() == 5,
    ensures
        pop_ok(after_push(s, us, m), us, m, captured_by(s, m)),
        after_pop(after_push(s, us, m), us, m, captured_by(s, m)) == s,
        hash_after_pop(after_push(s, us, m), us, m, captured_by(s, m), hash_after_push(s, us, m, h)) == h,
{
    reveal(after_push);
    reveal(hash_after_push);
    reveal(after_pop);
    reveal(hash_after_pop);
    let f = m.from_idx();
    let t = m.to_idx();
    let v = ep_victim(t, us);
    let s1 = moved(s, f, t).update(v, None);
    let theirs = piece_of(us.other(), PieceType::Pawn);
    assert(v != f) by {
        assert(theirs.color_of_spec() == us.other());
    }
    assert(v != t);
    assert(after_push(s, us, m) == s1);
    assert(captured_by(s, m) is None);
    assert(after_pop(s1, us, m, None) == moved(s1, t, f).update(v, Some(theirs)));
    assert(moved(s1, t, f).update(v, Some(theirs)) =~= s);
    assert(s1[t] == s[f]);
    assert(moved(s, f, t)[v] == s[v]);
    let kf = sq_key(s[f]->0, f);
    let kt = sq_key(s[f]->0, t);
    let kv = sq_key(theirs, v);
    let h1 = h ^ (kf ^ kt);
    assert(hash_after_push(s, us, m, h) == h1 ^ kv);
    assert(hash_after_pop(s1, us, m, None, h1 ^ kv) == ((h1 ^ kv) ^ (kt ^ kf)) ^ kv);
    lemma_xor_facts(h, kf, kt, kv, 0);
}

/// The squares and the hash come back after castling kingside.
#[verifier::rlimit(100)]
proof fn lemma_pop_after_push_castling_kingside(s: Seq<Option<Piece>>, us: Color, m: Move, h: u64)
    requires
        reversible(s, us, m),
        m.flag_code() == 2,
    ensures
        pop_ok(after_push(s, us, m), us, m, captured_by(s, m)),
        after_pop(after_push(s, us, m), us, m, captured_by(s, m)) == s,
        hash_after_pop(after_push(s, us, m), us, m, captured_by(s, m), hash_after_push(s, us, m, h)) == h,
{
    reveal(after_push);
    reveal(hash_after_push);
    reveal(after_pop);
    reveal(hash_after_pop);
    let e = rel(4, us);
    let g = rel(6, us);
    let rk = rel(7, us);
    let rf = rel(5, us);
    assert(e != g && e != rk && e != rf && g != rk && g != rf && rk != rf);
    let s1 = moved(moved(s, e, g), rk, rf);
    assert(after_push(s, us, m) == s1);
    assert(captured_by(s, m) is None);
    assert(s1[g] == s[e] && s1[rf] == s[rk] && s1[e] is None && s1[rk] is None);
    let s2 = moved(moved(s1, g, e), rf, rk);
    assert(after_pop(s1, us, m, None) == s2);
    assert(s2 =~= s);
    let (a, b, c, d) = (sq_key(s[e]->0, e), sq_key(s[e]->0, g), sq_key(s[rk]->0, rk), sq_key(s[rk]->0, rf));
    assert(hash_after_push(s, us, m, h) == (h ^ (a ^ b)) ^ (c ^ d));
    assert(hash_after_pop(s1, us, m, None, (h ^ (a ^ b)) ^ (c ^ d)) == ((((h ^ (a ^ b)) ^ (c ^ d)) ^ (b ^ a)) ^ (d ^ c)));
    lemma_xor_facts(h, a, b, c, d);
}

/// The squares and the hash come back after castling queenside.
#[verifier::rlimit(100)]
proof fn lemma_pop_after_push_castling_queenside(s: Seq<Option<Piece>>, us: Color, m: Move, h: u64)
    requires
        reversible(s, us, m),
        m.flag_code() == 3,
    ensures
        pop_ok(after_push(s, us, m), us, m, captured_by(s, m)),
        after_pop(after_push(s, us, m), us, m, captured_by(s, m)) == s,
        hash_after_pop(after_push(s, us, m), us, m, captured_by(s, m), hash_after_push(s, us, m, h)) == h,
{
    reveal(after_push);
    reveal(hash_after_push);
    reveal(after_pop);
    reveal(hash_after_pop);
    let e = rel(4, us);
    let g = rel(2, us);
    let rk = rel(0, us);
    let rf = rel(3, us);
    assert(e != g && e != rk && e != rf && g != rk && g != rf && rk != rf);
    let s1 = moved(moved(s, e, g), rk, rf);
    assert(after_push(s, us, m) == s1);
    assert(captured_by(s, m) is None);
    assert(s1[g] == s[e] && s1[rf] == s[rk] && s1[e] is None && s1[rk] is None);
    let s2 = moved(moved(s1, g, e), rf, rk);
    assert(after_pop(s1, us, m, None) == s2);
    assert(s2 =~= s);
    let (a, b, c, d) = (sq_key(s[e]->0, e), sq_key(s[e]->0, g), sq_key(s[rk]->0, rk), sq_key(s[rk]->0, rf));
    assert(hash_after_push(s, us, m, h) == (h ^ (a ^ b)) ^ (c ^ d));
    assert(hash_after_pop(s1, us, m, None, (h ^ (a ^ b)) ^ (c ^ d)) == ((((h ^ (a ^ b)) ^ (c ^ d)) ^ (b ^ a)) ^ (d ^ c)));
    lemma_xor_facts(h, a, b, c, d);
}

/// The squares and the hash come back after a promotion without a capture.
#[verifier::rlimit(100)]
proof fn lemma_pop_after_push_promotion(s: Seq<Option<Piece>>, us: Color, m: Move, h: u64)
    requires
        reversible(s, us, m),
        6 <= m.flag_code() < 12,
    ensures
        pop_ok(after_push(s, us, m), us, m, captured_by(s, m)),
        after_pop(after_push(s, us, m), us, m, captured_by(s, m)) == s,
        hash_after_pop(after_push(s, us, m), us, m, captured_by(s, m), hash_after_push(s, us, m, h)) == h,
{
    reveal(after_push);
    reveal(hash_after_push);
    reveal(after_pop);
    reveal(hash_after_pop);
    let f = m.from_idx();
    let t = m.to_idx();
    let p = promoted(m, us);
    let pawn = piece_of(us, PieceType::Pawn);
    let s1 = s.update(f, None).update(t, Some(p));
    assert(after_push(s, us, m) == s1);
    assert(captured_by(s, m) is None);
    assert(after_pop(s1, us, m, None) == s1.update(t, None).update(f, Some(pawn)));
    assert(s1.update(t, None).update(f, Some(pawn)) =~= s);
    let h1 = h ^ sq_key(pawn, f);
    assert(hash_after_push(s, us, m, h) == h1 ^ sq_key(p, t));
    assert(s1[t] == Some(p));
    lemma_xor_twice(h1, sq_key(p, t), 0);
    lemma_xor_twice(h, sq_key(pawn, f), 0);
}

/// The squares and the hash come back after a promotion with a capture.
#[verifier::rlimit(100)]
proof fn lemma_pop_after_push_promotion_capture(s: Seq<Option<Piece>>, us: Color, m: Move, h: u64)
    requires
        reversible(s, us, m),
        m.flag_code() >= 12,
    ensures
        pop_ok(after_push(s, us, m), us, m, captured_by(s, m)),
        after_pop(after_push(s, us, m), us, m, captured_by(s, m)) == s,
        hash_after_pop(after_push(s, us, m), us, m, captured_by(s, m), hash_after_push(s, us, m, h)) == h,
{
    reveal(after_push);
    reveal(hash_after_push);
    reveal(after_pop);
    reveal(hash_after_pop);
    let f = m.from_idx();
    let t = m.to_idx();
    let p = promoted(m, us);
    let pawn = piece_of(us, PieceType::Pawn);
    let c = s[t];
    let s1 = s.update(f, None).update(t, Some(p));
    assert(after_push(s, us, m) == s1);
    assert(captured_by(s, m) == c);
    assert(after_pop(s1, us, m, c) == s1.update(t, None).update(f, Some(pawn)).update(t, c));
    assert(s1.update(t, None).update(f, Some(pawn)).update(t, c) =~= s);
    let h1 = h ^ sq_key(c->0, t);
    let h2 = h1 ^ sq_key(pawn, f);
    assert(f != t) by {
        assert(pawn.color_of_spec() == us);
    }
    assert(s.update(t, None)[f] == Some(pawn));
    assert(hash_after_push(s, us, m, h) == h2 ^ sq_key(p, t));
    assert(s1[t] == Some(p));
    lemma_xor_twice(h2, sq_key(p, t), 0);
    lemma_xor_twice(h1, sq_key(pawn, f), 0);
    lemma_xor_twice(h, sq_key(c->0, t), 0);
}

/// Taking back a move just played on the squares `s` with material hash `h` gives back `s`
/// and `h`, and the take-back is admitted.
pub proof fn lemma_pop_after_push(s: Seq<Option<Piece>>, us: Color, m: Move, h: u64)
    requires
        reversible(s, us, m),
    ensures
        pop_ok(after_push(s, us, m), us, m, captured_by(s, m)),
        after_pop(after_push(s, us, m), us, m, captured_by(s, m)) == s,
        hash_after_pop(after_push(s, us, m), us, m, captured_by(s, m), hash_after_push(s, us, m, h)) == h,
{
    let k = m.flag_code();
    if k == 0 || k == 1 {
        lemma_pop_after_push_quiet(s, us, m, h);
    } else if k == 2 {
        lemma_pop_after_push_castling_kingside(s, us, m, h);
    } else if k == 3 {
        lemma_pop_after_push_castling_queenside(s, us, m, h);
    } else if k == 4 {
        lemma_pop_after_push_capture(s, us, m, h);
    } else if k == 5 {
        lemma_pop_after_push_ep(s, us, m, h);
    } else if k < 12 {
        lemma_pop_after_push_promotion(s, us, m, h);
    } else {
        lemma_pop_after_push_promotion_capture(s, us, m, h);
    }
}

/// Playing a move with `push` and taking it back with `pop` gives back the position: the
/// same pieces, side to move, ply, material hash and history up to the ply. The take-back is
/// admitted by `pop`.
pub proof fn lemma_push_pop(b0: Board, b1: Board, b2: Board, m: Move, r: Option<Move>)
    requires
        b0.wf(),
        b1.wf(),
        reversible(b0.squares(), b0.side(), m),
        Board::pushed(b0, b1, m),
        Board::popped(b1, b2, r),
    ensures
        r == Some(m),
        b1.ply_spec() >= 1,
        pop_ok(b1.squares(), b1.side().other(), m, b1.current().captured),
        b2.same_position(&b0),
{
    lemma_pop_after_push(b0.squares(), b0.side(), m, b0.mat_hash());
    assert(b1.side().other() == b0.side());
    let p = b0.ply_spec();
    assert(b2.entries() == b0.entries().update(p + 1, b1.current()));
    assert(b2.ply_spec() == p);
    assert(b2.entries().subrange(0, p + 1) =~= b0.entries().subrange(0, p + 1));
}


/// Passing the move with `push_null` and taking the pass back with `pop_null` gives back the
/// position.
pub proof fn lemma_push_pop_null(b0: Board, b1: Board, b2: Board)
    requires
        b0.wf(),
        b1.wf(),
        Board::null_pushed(b0, b1),
        Board::null_popped(b1, b2),
    ensures
        b1.ply_spec() >= 1,
        b2.same_position(&b0),
{
    let p = b0.ply_spec();
    assert(b2.entries().subrange(0, p + 1) =~= b0.entries().subrange(0, p + 1));
}


/// A move played and taken back leaves the position as it was, also when the board in
/// between went through other moves and came back to the same position.
pub proof fn lemma_push_search_pop(b0: Board, b1: Board, b1x: Board, b2: Board, m: Move, r: Option<Move>)
    requires
        b0.wf(),
        b1.wf(),
        b1x.wf(),
        reversible(b0.squares(), b0.side(), m),
        Board::pushed(b0, b1, m),
        b1x.same_position(&b1),
        Board::popped(b1x, b2, r),
    ensures
        r == Some(m),
        b2.same_position(&b0),
{
    lemma_pop_after_push(b0.squares(), b0.side(), m, b0.mat_hash());
    let p = b0.ply_spec();
    assert(b1x.entries()[p + 1] == b1.entries().subrange(0, p + 2)[p + 1]);
    assert(b1x.current() == b1.current());
    assert(b2.entries().subrange(0, p + 1) =~= b0.entries().subrange(0, p + 1)) by {
        assert forall|k: int| 0 <= k < p + 1 implies b2.entries()[k] == b0.entries()[k] by {
            assert(b1x.entries().subrange(0, p + 2)[k] == b1.entries().subrange(0, p + 2)[k]);
        }
    }
}

/// A move that passes, taken back after a search that came back to the same position, leaves
/// the position as it was.
pub proof fn lemma_null_search_pop(b0: Board, b1: Board, b1x: Board, b2: Board)
    requires
        b0.wf(),
        b1.wf(),
        b1x.wf(),
        Board::null_pushed(b0, b1),
        b1x.same_position(&b1),
        Board::null_popped(b1x, b2),
    ensures
        b1x.ply_spec() >= 1,
        b2.same_position(&b0),
{
    let p = b0.ply_spec();
    assert(b2.entries().subrange(0, p + 1) =~= b0.entries().subrange(0, p + 1)) by {
        assert forall|k: int| 0 <= k < p + 1 implies b2.entries()[k] == b0.entries()[k] by {
            assert(b1x.entries().subrange(0, p + 2)[k] == b1.entries().subrange(0, p + 2)[k]);
        }
    }
}

/// Boards in the same position have the same current history entry and hash.
pub proof fn lemma_same_position_facts(a: Board, b: Board)
    requires
        a.wf(),
        b.wf(),
        a.same_position(&b),
    ensures
        a.current() == b.current(),
        b.same_position(&a),
        a.hash_spec() == b.hash_spec(),
{
    let p = a.ply_spec();
    assert(a.entries().subrange(0, p + 1)[p] == b.entries().subrange(0, p + 1)[p]);
}

/// Boards in the same position agree on what the move generator and the move rules read.
pub proof fn lemma_same_position_rules(a: Board, b: Board)
    requires
        a.wf(),
        b.wf(),
        a.same_position(&b),
    ensures
        a.position_sound() == b.position_sound(),
        a.has_king(a.side()) == b.has_king(b.side()),
        a.has_king(a.side().other()) == b.has_king(b.side().other()),
{
    lemma_same_position_facts(a, b);
    assert(a.squares() == b.squares());
    assert(a.side() == b.side());
    let c = a.side();
    let o = a.side().other();
    if a.has_king(c) {
        let k = choose|k: int| a.holds(k, c, PieceType::King);
        assert(b.holds(k, c, PieceType::King));
    }
    if b.has_king(c) {
        let k = choose|k: int| b.holds(k, c, PieceType::King);
        assert(a.holds(k, c, PieceType::King));
    }
    if a.has_king(o) {
        let k = choose|k: int| a.holds(k, o, PieceType::King);
        assert(b.holds(k, o, PieceType::King));
    }
    if b.has_king(o) {
        let k = choose|k: int| b.holds(k, o, PieceType::King);
        assert(a.holds(k, o, PieceType::King));
    }
}

/// Boards in the same position agree on whether a move is sound to play.
pub proof fn lemma_same_position_move(a: Board, b: Board, m: Move)
    requires
        a.wf(),
        b.wf(),
        a.same_position(&b),
    ensures
        a.generated_ok(m) == b.generated_ok(m),
{
    lemma_same_position_facts(a, b);
    a.lemma_occupancy_bits();
    b.lemma_occupancy_bits();
    assert forall|i: int| 0 <= i < 64 implies bit(a.occupancy(), i) == bit(b.occupancy(), i) by {}
    lemma_bits_ext(a.occupancy(), b.occupancy());
}

/// Being in the same position is transitive.
/// The squares of the king moves that are not captures: attacked by the king, without a
/// piece of either side, outside the danger squares.
pub open spec fn quiets_word(ka: u64, us: u64, danger: u64, them: u64) -> u64 {
    (ka & !(us | danger)) & !them
}

/// The lowest square holding a king of `c` is `k` when `k` holds one and no lower one does.
pub proof fn lemma_lowest_king(b: Board, c: Color, k: int)
    requires
        b.holds(k, c, PieceType::King),
        forall|j: int| 0 <= j < k ==> !b.holds(j, c, PieceType::King),
    ensures
        b.lowest_king(c) == k,
{
    let l = b.lowest_king(c);
    assert(b.holds(k, c, PieceType::King) && forall|j: int| 0 <= j < k ==> !b.holds(j, c, PieceType::King));
    if l < k {
        assert(0 <= l);
    }
}

/// King steps found in a move list stay in a longer list that begins with it.
proof fn lemma_steps_kept(b: Board, n: int, mk: Seq<Move>, fin: Seq<Move>)
    requires
        0 <= n,
        mk.len() <= fin.len(),
        fin.subrange(0, mk.len() as int) == mk,
        forall|t: int| #[trigger] b.safe_king_step(t) ==> exists|i: int|
            n <= i < mk.len() && is_move(mk[i], b.lowest_king(b.side()), t, b.step_flag(t)),
    ensures
        forall|t: int| #[trigger] b.safe_king_step(t) ==> exists|i: int|
            n <= i < fin.len() && is_move(fin[i], b.lowest_king(b.side()), t, b.step_flag(t)),
{
    assert forall|t: int| #[trigger] b.safe_king_step(t) implies exists|i: int|
        n <= i < fin.len() && is_move(fin[i], b.lowest_king(b.side()), t, b.step_flag(t)) by {
        let i = choose|i: int| n <= i < mk.len() && is_move(mk[i], b.lowest_king(b.side()), t, b.step_flag(t));
        assert(fin[i] == fin.subrange(0, mk.len() as int)[i]);
    }
}

pub proof fn lemma_same_position_trans(a: Board, b: Board, c: Board)
    requires
        a.same_position(&b),
        b.same_position(&c),
    ensures
        a.same_position(&c),
{
}

/// The kind of the piece that starts on file `f` of the back rank.
pub open spec fn back_rank_type(f: int) -> PieceType {
    if f == 0 || f == 7 {
        PieceType::Rook
    } else if f == 1 || f == 6 {
        PieceType::Knight
    } else if f == 2 || f == 5 {
        PieceType::Bishop
    } else if f == 3 {
        PieceType::Queen
    } else {
        PieceType::King
    }
}

/// What stands on square `i` in the starting position.
pub open spec fn start_piece(i: int) -> Option<Piece> {
    if 0 <= i < 8 {
        Some(piece_of(Color::White, back_rank_type(i)))
    } else if 8 <= i < 16 {
        Some(piece_of(Color::White, PieceType::Pawn))
    } else if 48 <= i < 56 {
        Some(piece_of(Color::Black, PieceType::Pawn))
    } else if 56 <= i < 64 {
        Some(piece_of(Color::Black, back_rank_type(i - 56)))
    } else {
        None
    }
}


/// The castling paths hold the squares that castling fills.
proof fn lemma_castling_path_bits()
    by (bit_vector)
    ensures
        (0x60u64 >> 5u64) & 1u64 == 1u64 && (0x60u64 >> 6u64) & 1u64 == 1u64,
        (0x6000_0000_0000_0000u64 >> 61u64) & 1u64 == 1u64 && (0x6000_0000_0000_0000u64 >> 62u64) & 1u64 == 1u64,
        (0xeu64 >> 2u64) & 1u64 == 1u64 && (0xeu64 >> 3u64) & 1u64 == 1u64,
        (0x0E00_0000_0000_0000u64 >> 58u64) & 1u64 == 1u64 && (0x0E00_0000_0000_0000u64 >> 59u64) & 1u64 == 1u64,
{
}

/// Moves appended in two steps are appended.
proof fn lemma_appended_trans(b: Board, s1: Seq<Move>, s2: Seq<Move>, s3: Seq<Move>, q: bool)
    requires
        b.appended_ok(s1, s2, q),
        b.appended_ok(s2, s3, q),
    ensures
        b.appended_ok(s1, s3, q),
{
    assert(s3.subrange(0, s1.len() as int) =~= s2.subrange(0, s1.len() as int));
    assert forall|k: int| s1.len() <= k < s3.len() implies b.generated_ok(#[trigger] s3[k]) && (q ==> s3[k].flag_code() >= 4) by {
        if k < s2.len() {
            assert(s3[k] == s2[k]);
        }
    }
}

/// Appending one move that is `generated_ok` keeps the moves appended.
proof fn lemma_appended_push(b: Board, old: Seq<Move>, m: Move, q: bool)
    requires
        b.generated_ok(m),
        q ==> m.flag_code() >= 4,
    ensures
        b.appended_ok(old, old.push(m), q),
{
    assert(old.push(m).subrange(0, old.len() as int) =~= old);
}

/// Nothing appended is appended.
proof fn lemma_appended_none(b: Board, old: Seq<Move>, q: bool)
    ensures
        b.appended_ok(old, old, q),
{
    assert(old.subrange(0, old.len() as int) =~= old);
}

/// The moves to the squares of `to` from `f` of kind `flag` are appended when each target is
/// sound.
proof fn lemma_targets(b: Board, old: Seq<Move>, new: Seq<Move>, f: int, to: u64, flag: int, q: bool)
    requires
        new.len() == old.len() + squares_of(to).len(),
        new.subrange(0, old.len() as int) == old,
        forall|k: int| 0 <= k < squares_of(to).len() ==> is_move(#[trigger] new[old.len() + k], f, squares_of(to)[k], flag),
        forall|t: int| bit(to, t) ==> b.target_ok(f, t, flag),
        q ==> flag >= 4,
    ensures
        b.appended_ok(old, new, q),
{
    lemma_squares_of(to);
    assert forall|k: int| old.len() <= k < new.len() implies b.generated_ok(#[trigger] new[k]) && (q ==> new[k].flag_code() >= 4) by {
        let j = k - old.len();
        assert(is_move(new[old.len() + j], f, squares_of(to)[j], flag));
        assert(bit(to, squares_of(to)[j]));
        assert(b.target_ok(f, squares_of(to)[j], flag));
    }
}

/// A pawn of side `c` on `a` attacks `s` exactly when a pawn of the other side on `s`
/// attacks `a`.
proof fn lemma_pawn_sym(a: int, c: Color, s: int)
    requires
        0 <= a < 64,
    ensures
        pawn_sq(a, c, s) ==> pawn_sq(s, c.other(), a),
{
}

/// Knights, bishops and rooks attack both ways.
proof fn lemma_attack_sym(a: int, s: int, occ: u64)
    requires
        0 <= a < 64,
        0 <= s < 64,
    ensures
        knight_sq(a, s) == knight_sq(s, a),
        bishop_sq(a, occ, s) == bishop_sq(s, occ, a),
        rook_sq(a, occ, s) == rook_sq(s, occ, a),
{
    assert forall|t: int| between_sq(a, s, t) == between_sq(s, a, t) by {}
}

/// The bytes of a move's UCI name: its squares' files and ranks, and the promotion letter.
proof fn lemma_uci_bytes(m: Move)
    ensures
        m.uci().len() == (if m.promotion_spec() is Some { 5int } else { 4 }),
        m.uci()[0] == 97 + m.from_idx() % 8,
        m.uci()[1] == 49 + m.from_idx() / 8,
        m.uci()[2] == 97 + m.to_idx() % 8,
        m.uci()[3] == 49 + m.to_idx() / 8,
        m.promotion_spec() matches Some(pt) ==> m.uci()[4] == promotion_letter(pt),
{
    let f = m.from_idx();
    let t = m.to_idx();
    assert(0 <= f < 64 && 0 <= t < 64);
    let head = seq![(97 + f % 8) as u8, (49 + f / 8) as u8, (97 + t % 8) as u8, (49 + t / 8) as u8];
    let tail = match m.promotion_spec() {
        Some(pt) => seq![promotion_letter(pt)],
        None => Seq::<u8>::empty(),
    };
    assert(m.uci() == head + tail);
    assert((head + tail)[0] == head[0] && (head + tail)[1] == head[1] && (head + tail)[2] == head[2] && (head
        + tail)[3] == head[3]);
    if m.promotion_spec() is Some {
        assert((head + tail)[4] == tail[0]);
    }
}

/// A move code is its kind, its origin square and its destination square.
proof fn lemma_code_parts(c: u16)
    ensures
        c == (c / 4096) * 4096 + ((c / 64) % 64) * 64 + c % 64,
{
    assert(c == (c / 4096) * 4096 + ((c / 64) % 64) * 64 + c % 64) by (bit_vector);
}

/// Two moves whose kinds fit the board and that have the same UCI name are the same move,
/// provided that a castling move among them starts from a king and that the en passant
/// square, if any, is empty: on such a board a name picks at most one move.
pub proof fn lemma_name_picks_move(b: Board, m1: Move, m2: Move)
    requires
        b.flag_fits(m1),
        b.flag_fits(m2),
        m1.uci() == m2.uci(),
        (m1.flag_code() == 2 || m1.flag_code() == 3) ==> b.squares()[m1.from_idx()] == Some(
            piece_of(b.side(), PieceType::King),
        ),
        (m2.flag_code() == 2 || m2.flag_code() == 3) ==> b.squares()[m2.from_idx()] == Some(
            piece_of(b.side(), PieceType::King),
        ),
        b.current().epsq matches Some(e) ==> b.squares()[e.idx()] is None,
    ensures
        m1 == m2,
{
    let f1 = m1.from_idx();
    let f2 = m2.from_idx();
    let t1 = m1.to_idx();
    let t2 = m2.to_idx();
    let k1 = m1.flag_code();
    let k2 = m2.flag_code();
    let us = b.side();
    lemma_uci_bytes(m1);
    lemma_uci_bytes(m2);
    assert(f1 % 8 == f2 % 8 && f1 / 8 == f2 / 8 && t1 % 8 == t2 % 8 && t1 / 8 == t2 / 8);
    assert(f1 == f2 && t1 == t2);
    assert(m1.promotion_spec() == m2.promotion_spec()) by {
        if m1.promotion_spec() is Some || m2.promotion_spec() is Some {
            assert(m1.uci().len() == m2.uci().len());
            assert(m1.uci()[4] == m2.uci()[4]);
        }
    }
    piece_of(us, PieceType::King).lemma_parts();
    piece_of(us, PieceType::Pawn).lemma_parts();
    assert(piece_of(us, PieceType::King) != piece_of(us, PieceType::Pawn));
    assert(k1 == k2);
    lemma_code_parts(m1.code_int());
    lemma_code_parts(m2.code_int());
    Move::lemma_same_code(m1, m2);
}

/// A push from a piece of the side to move to an empty square is sound.
proof fn lemma_quiet_target(b: Board, f: int, t: int)
    requires
        b.wf(),
        0 <= f < 64,
        0 <= t < 64,
        color_on(b.squares(), f, b.side().idx()),
        b.squares()[t] is None,
        b.geometry_ok(f, t, 0),
    ensures
        b.target_ok(f, t, 0),
{
}

/// A capture from a piece of the side to move of a piece of the other side is sound.
proof fn lemma_capture_target(b: Board, f: int, t: int)
    requires
        b.wf(),
        0 <= f < 64,
        0 <= t < 64,
        color_on(b.squares(), f, b.side().idx()),
        color_on(b.squares(), t, b.side().other().idx()),
        b.geometry_ok(f, t, 4),
    ensures
        b.target_ok(f, t, 4),
{
    assert(b.side().other().idx() != b.side().idx());
}

/// A double push of a pawn of the side to move to an empty square two ranks ahead is sound.
proof fn lemma_double_push_target(b: Board, f: int, t: int)
    requires
        b.wf(),
        0 <= f < 64,
        0 <= t < 64,
        t == f + 2 * forward(b.side()),
        b.squares()[f] == Some(piece_of(b.side(), PieceType::Pawn)),
        b.squares()[t] is None,
        b.squares()[f + forward(b.side())] is None,
    ensures
        b.target_ok(f, t, 1),
{
}

/// An en passant capture by a piece of the side to move is sound when the square is.
proof fn lemma_ep_target(b: Board, f: int, t: int)
    requires
        b.wf(),
        0 <= f < 64,
        0 <= t < 64,
        b.squares()[f] == Some(piece_of(b.side(), PieceType::Pawn)),
        b.current().epsq matches Some(e) && e.idx() == t,
        pawn_sq(f, b.side(), t),
    ensures
        b.target_ok(f, t, 5),
{
}

/// The promotions of a pawn of the side to move, to an empty square or capturing a piece of the
/// other side, are sound.
proof fn lemma_promotion_targets(b: Board, f: int, t: int, capture: bool)
    requires
        b.wf(),
        0 <= f < 64,
        0 <= t < 64,
        b.squares()[f] == Some(piece_of(b.side(), PieceType::Pawn)),
        capture ==> color_on(b.squares(), t, b.side().other().idx()),
        !capture ==> b.squares()[t] is None,
        capture ==> pawn_sq(f, b.side(), t),
        !capture ==> t == f + forward(b.side()),
    ensures
        forall|j: int| 0 <= j < 4 ==> b.target_ok(f, t, #[trigger] promotion_code(j, capture)),
{
    assert(piece_of(b.side(), PieceType::Pawn).color_of_spec() == b.side());
    assert(b.side().other().idx() != b.side().idx());
}


/// Whether the bytes `a` and `b` are the same.
fn bytes_equal(a: &Vec<u8>, b: &[u8]) -> (r: bool)
    ensures
        r == (a@ == b@),
{
    if a.len() != b.len() {
        return false;
    }
    let mut i: usize = 0;
    while i < a.len()
        invariant
            a@.len() == b@.len(),
            i <= a@.len(),
            forall|k: int| 0 <= k < i ==> a@[k] == b@[k],
        decreases a.len() - i,
    {
        if a[i] != b[i] {
            return false;
        }
        i = i + 1;
    }
    assert(a@ =~= b@);
    true
}

/// A chess position with the history of the plies that led to it.
pub struct Board {
    board: Vec<Option<Piece>>,
    piece_type_bb: Vec<Bitboard>,
    color_bb: Vec<Bitboard>,
    history: Vec<HistoryEntry>,
    ctm: Color,
    ply: usize,
    material_hash: u64,
    zobrist: Hasher,
}

impl Board {
    /// What stands on each of the 64 squares.
    pub closed spec fn squares(&self) -> Seq<Option<Piece>> {
        self.board@
    }

    /// The side to move.
    pub closed spec fn side(&self) -> Color {
        self.ctm
    }

    /// The number of the current ply.
    pub closed spec fn ply_spec(&self) -> int {
        self.ply as int
    }

    /// The history, one entry per ply.
    pub closed spec fn entries(&self) -> Seq<HistoryEntry> {
        self.history@
    }

    /// The hash of the pieces on their squares.
    pub closed spec fn mat_hash(&self) -> u64 {
        self.material_hash
    }

    /// The entry of the current ply.
    pub open spec fn current(&self) -> HistoryEntry {
        self.entries()[self.ply_spec()]
    }

    /// Whether square `s` holds a piece of side `c` and kind `t`.
    pub open spec fn holds(&self, s: int, c: Color, t: PieceType) -> bool {
        type_on(self.squares(), s, t.idx()) && color_on(self.squares(), s, c.idx())
    }

    /// The board is consistent: the bitboards of kinds and sides list exactly the squares that
    /// hold such pieces, the current ply lies in the history, and every castling right recorded
    /// up to it is one of the sixteen sets.
    pub closed spec fn wf(&self) -> bool {
        &&& self.board@.len() == 64
        &&& self.piece_type_bb@.len() == 6
        &&& self.color_bb@.len() == 2
        &&& self.history@.len() == N_HISTORIES
        &&& self.ply < N_HISTORIES
        &&& forall|s: int, t: int|
            0 <= t < 6 ==> (#[trigger] bit(self.piece_type_bb@[t].0, s) == type_on(self.board@, s, t))
        &&& forall|s: int, c: int|
            0 <= c < 2 ==> (#[trigger] bit(self.color_bb@[c].0, s) == color_on(self.board@, s, c))
        &&& forall|k: int| 0 <= k <= self.ply ==> (#[trigger] self.history@[k]).rights.bits() < 16
        &&& forall|k: int| 0 <= k <= self.ply ==> (#[trigger] self.history@[k]).plies_from_null <= k
    }

    /// The occupied squares, as a word.
    pub closed spec fn occupancy(&self) -> u64 {
        self.color_bb@[0].0 | self.color_bb@[1].0
    }

    /// The bits of the occupied squares are the squares that hold a piece.
    pub proof fn lemma_occupancy_bits(&self)
        requires
            self.wf(),
        ensures
            forall|s: int| #[trigger] bit(self.occupancy(), s) == (0 <= s < 64 && self.squares()[s] is Some),
    {
        broadcast use crate::bitboard::lemma_bit_or;
        assert forall|s: int| #[trigger] bit(self.occupancy(), s) == (0 <= s < 64 && self.squares()[s] is Some) by {
            assert(bit(self.color_bb@[0].0, s) == color_on(self.board@, s, 0));
            assert(bit(self.color_bb@[1].0, s) == color_on(self.board@, s, 1));
            if 0 <= s < 64 && self.squares()[s] is Some {
                let pc = self.squares()[s]->0;
                assert(pc.color_of_spec().idx() == 0 || pc.color_of_spec().idx() == 1);
            }
        }
    }

    /// The word whose bits are the squares of the pieces of side `c` and kind `pt`.
    pub proof fn piece_bits(&self, c: Color, pt: PieceType) -> (x: u64)
        requires
            self.wf(),
        ensures
            forall|s: int| #[trigger] bit(x, s) == self.holds(s, c, pt),
    {
        broadcast use crate::bitboard::lemma_bit_and;
        let x = self.piece_type_bb@[pt.idx()].0 & self.color_bb@[c.idx()].0;
        assert forall|s: int| #[trigger] bit(x, s) == self.holds(s, c, pt) by {
            assert(bit(self.piece_type_bb@[pt.idx()].0, s) == type_on(self.board@, s, pt.idx()));
            assert(bit(self.color_bb@[c.idx()].0, s) == color_on(self.board@, s, c.idx()));
        }
        x
    }

    /// A side with a king has a lowest one.
    pub proof fn lemma_lowest_king_holds(&self, c: Color)
        requires
            self.has_king(c),
        ensures
            self.holds(self.lowest_king(c), c, PieceType::King),
            forall|j: int| 0 <= j < self.lowest_king(c) ==> !self.holds(j, c, PieceType::King),
    {
        let k = choose|k: int| self.holds(k, c, PieceType::King);
        let m = self.lowest_from(c, k);
        assert(self.holds(m, c, PieceType::King) && forall|j: int| 0 <= j < m ==> !self.holds(j, c, PieceType::King));
    }

    /// A square no higher than `k` that holds a king of side `c`, with none below it.
    proof fn lowest_from(&self, c: Color, k: int) -> (m: int)
        requires
            self.holds(k, c, PieceType::King),
        ensures
            m <= k,
            self.holds(m, c, PieceType::King),
            forall|j: int| 0 <= j < m ==> !self.holds(j, c, PieceType::King),
        decreases k,
    {
        if exists|j: int| 0 <= j < k && self.holds(j, c, PieceType::King) {
            let j = choose|j: int| 0 <= j < k && self.holds(j, c, PieceType::King);
            self.lowest_from(c, j)
        } else {
            k
        }
    }

    /// The squares of the pieces of side `c`, as a word.
    pub closed spec fn color_bits(&self, c: Color) -> u64 {
        self.color_bb@[c.idx()].0
    }

    /// Whether a piece on `s` attacks `sq` when the squares of `occ` are occupied: pawns by
    /// their own capture direction, knights, and sliders along open lines. Kings do not count.
    pub open spec fn attacker_spec(&self, sq: int, occ: u64, s: int) -> bool {
        ||| self.holds(s, Color::White, PieceType::Pawn) && pawn_sq(sq, Color::Black, s)
        ||| self.holds(s, Color::Black, PieceType::Pawn) && pawn_sq(sq, Color::White, s)
        ||| type_on(self.squares(), s, 1) && knight_sq(sq, s)
        ||| (type_on(self.squares(), s, 2) || type_on(self.squares(), s, 4)) && bishop_sq(sq, occ, s)
        ||| (type_on(self.squares(), s, 3) || type_on(self.squares(), s, 4)) && rook_sq(sq, occ, s)
    }

    /// Whether a piece of side `c` on `s` attacks `sq` in the same way, with `occ` occupied.
    pub open spec fn attacker_from_spec(&self, sq: int, occ: u64, c: Color, s: int) -> bool {
        ||| self.holds(s, c, PieceType::Pawn) && pawn_sq(sq, c.other(), s)
        ||| self.holds(s, c, PieceType::Knight) && knight_sq(sq, s)
        ||| (self.holds(s, c, PieceType::Bishop) || self.holds(s, c, PieceType::Queen)) && bishop_sq(sq, occ, s)
        ||| (self.holds(s, c, PieceType::Rook) || self.holds(s, c, PieceType::Queen)) && rook_sq(sq, occ, s)
    }

    /// Whether the side not to move attacks `sq` with a knight, a pawn or a slider, on the
    /// board as it stands.
    pub open spec fn attacked_spec(&self, sq: int) -> bool {
        exists|s: int| #[trigger] self.attacker_from_spec(sq, self.occupancy(), self.side().other(), s)
    }

    /// Whether `k` is the lowest square that holds a king of side `c`.
    pub open spec fn is_king_square(&self, c: Color, k: int) -> bool {
        self.holds(k, c, PieceType::King) && forall|j: int| 0 <= j < k ==> !self.holds(j, c, PieceType::King)
    }

    /// Whether the position repeats one of the same side to move since the last capture, pawn
    /// move or null move: the same material hash and the same castling rights, an even
    /// number of plies back.
    pub open spec fn repetition_spec(&self) -> bool {
        let cur = self.current();
        let lookback: int = if cur.plies_from_null <= cur.half_move_counter {
            cur.plies_from_null as int
        } else {
            cur.half_move_counter as int
        };
        exists|j: int|
            self.ply_spec() - lookback <= j <= self.ply_spec() - 2 && (self.ply_spec() - j) % 2 == 0
                && (#[trigger] self.entries()[j]).material_hash == self.mat_hash() && self.entries()[j].rights
                == cur.rights
    }


    /// Whether the en passant square of the current ply is sound for the side to move: it is
    /// empty and the pawn it was passed by stands behind it.
    pub open spec fn ep_sound(&self) -> bool {
        self.current().epsq matches Some(e) ==> {
            let v = e.idx() - forward(self.side());
            &&& self.squares()[e.idx()] is None
            &&& 0 <= v < 64
            &&& self.squares()[v] == Some(piece_of(self.side().other(), PieceType::Pawn))
        }
    }

    /// Whether, when the side to move holds the right to castle kingside (`k == 2`) or
    /// queenside (`k == 3`), the squares of the king and the rook it moves are occupied.
    pub open spec fn castle_sound(&self, k: int) -> bool {
        let us = self.side();
        let right: u8 = if k == 2 {
            if us == Color::White { 1u8 } else { 4u8 }
        } else {
            if us == Color::White { 2u8 } else { 8u8 }
        };
        self.current().rights.bits() & right != 0 ==> self.squares()[rel(4, us)] is Some && if k == 2 {
            self.squares()[rel(7, us)] is Some
        } else {
            self.squares()[rel(0, us)] is Some
        }
    }

    /// Whether the position is sound for the side to move: its en passant square, if any, is
    /// sound, and each castling right it holds finds its king and rook squares occupied.
    pub open spec fn position_sound(&self) -> bool {
        self.ep_sound() && self.castle_sound(2) && self.castle_sound(3)
    }

    /// Whether the kind of `m` fits the board: a move starts from a piece of the side to move;
    /// a quiet move, a double push and a quiet promotion go to an empty square, a capture
    /// takes a piece of the other side; a double push, an en passant capture and a promotion
    /// move a pawn; castling moves the king's square to the knight's or the bishop's file; an
    /// en passant capture goes to the en passant square; and the piece goes the way it moves.
    pub open spec fn flag_fits(&self, m: Move) -> bool {
        let s = self.squares();
        let us = self.side();
        let f = m.from_idx();
        let t = m.to_idx();
        let k = m.flag_code();
        &&& k == 2 || k == 3 || color_on(s, f, us.idx())
        &&& (k == 0 || k == 1 || (8 <= k < 12)) ==> s[t] is None
        &&& (k == 4 || k >= 12) ==> color_on(s, t, us.other().idx())
        &&& k != 6 && k != 7
        &&& (k == 1 || k == 5 || k >= 8) ==> s[f] == Some(piece_of(us, PieceType::Pawn))
        &&& k == 2 ==> f == rel(4, us) && t == rel(6, us)
        &&& k == 3 ==> f == rel(4, us) && t == rel(2, us)
        &&& k == 5 ==> (self.current().epsq matches Some(e) && e.idx() == t)
        &&& self.geometry_ok(f, t, k)
    }

    /// Whether a move of kind `k` from `f` to `t` goes the way its piece moves: a pawn one
    /// square forward to an empty square, two from its starting rank over an empty one, or one
    /// square diagonally forward when it captures; a knight, bishop, rook, queen or king as
    /// it attacks, sliders stopping at the first occupied square. Castling is left to
    /// `flag_fits`.
    pub open spec fn geometry_ok(&self, f: int, t: int, k: int) -> bool {
        let s = self.squares();
        let us = self.side();
        if k == 2 || k == 3 {
            true
        } else if k == 1 {
            t == f + 2 * forward(us) && 0 <= f + forward(us) < 64 && s[f + forward(us)] is None
        } else if k == 5 || k >= 12 {
            pawn_sq(f, us, t)
        } else if k >= 8 {
            t == f + forward(us)
        } else {
            match s[f] {
                Some(pc) => piece_reaches(pc.type_of_spec(), us, f, t, k == 4, self.occupancy()),
                None => false,
            }
        }
    }

    /// Whether the move `m` fits the board, and can be played and taken back on it, provided
    /// that an en passant capture has a sound square and castling finds its pieces.
    pub open spec fn generated_ok(&self, m: Move) -> bool {
        &&& self.flag_fits(m)
        &&& (m.flag_code() == 5 ==> self.ep_sound()) && (m.flag_code() == 2 ==> self.castle_sound(2)) && (
        m.flag_code() == 3 ==> self.castle_sound(3)) ==> reversible(self.squares(), self.side(), m)
    }

    /// Whether every move from square `f` to square `t` of kind `flag` is `generated_ok`.
    pub open spec fn target_ok(&self, f: int, t: int, flag: int) -> bool {
        forall|m: Move| #[trigger] is_move(m, f, t, flag) ==> self.generated_ok(m)
    }

    /// Whether `new` is `old` with moves appended that are all `generated_ok`, and that all
    /// capture or promote when `q` holds.
    pub open spec fn appended_ok(&self, old: Seq<Move>, new: Seq<Move>, q: bool) -> bool {
        &&& old.len() <= new.len()
        &&& new.subrange(0, old.len() as int) == old
        &&& forall|k: int| old.len() <= k < new.len() ==> self.generated_ok(#[trigger] new[k]) && (q ==> new[k].flag_code() >= 4)
    }

    /// The hash of the whole position: pieces, castling rights, en passant file and side to
    /// move.
    pub open spec fn hash_spec(&self) -> u64 {
        self.mat_hash() ^ castling_key(self.current().rights.bits() as int) ^ match self.current().epsq {
            Some(sq) => ep_key(sq.idx() % 8),
            None => 0u64,
        } ^ color_key(self.side())
    }

    /// The FEN of the position: placement, side to move, castling rights, en passant square,
    /// half move clock and full move number, separated by spaces.
    pub open spec fn fen_text(&self) -> Seq<u8> {
        placement_text(self.squares(), 7) + seq![32u8, if self.side() == Color::White { 119u8 } else { 98u8 }, 32u8]
            + rights_text(self.current().rights.bits()) + seq![32u8] + match self.current().epsq {
            Some(e) => square_text(e.idx()),
            None => seq![45u8],
        } + seq![32u8] + decimal(self.current().half_move_counter as nat) + seq![32u8] + decimal(
            (self.ply_spec() / 2 + 1) as nat,
        )
    }

    /// Whether `b` holds the position that the FEN `fen` describes: its pieces, side to move and
    /// ply, and a current entry with its castling rights, en passant square and half move
    /// clock, no move, and a material hash that is the hash of its pieces.
    pub open spec fn from_fen(b: Board, fen: Seq<u8>) -> bool {
        &&& b.squares() == fen_squares(fen)->0
        &&& b.side() == (if fen_black(fen) { Color::Black } else { Color::White })
        &&& b.ply_spec() == fen_ply(fen)
        &&& b.current().rights.bits() == fen_rights(fen)->0
        &&& match (b.current().epsq, fen_epsq(fen)->0) {
            (None, None) => true,
            (Some(sq), Some(i)) => sq.idx() == i,
            _ => false,
        }
        &&& b.current().half_move_counter == fen_halfmove(fen)
        &&& b.current().moov is None
        &&& b.current().captured is None
        &&& b.current().plies_from_null == 0
        &&& b.current().material_hash == b.mat_hash()
        &&& b.mat_hash() == pieces_hash(b.squares())
    }

    /// Whether `b` is the starting position: the pieces in place, White to move at ply 0, all
    /// four castling rights, no en passant square and a zero half move clock.
    pub open spec fn is_start(b: Board) -> bool {
        &&& b.squares() == Seq::new(64, |i: int| start_piece(i))
        &&& b.side() == Color::White
        &&& b.ply_spec() == 0
        &&& b.current().rights.bits() == 15
        &&& b.current().epsq is None
        &&& b.current().half_move_counter == 0
        &&& b.current().moov is None
        &&& b.current().captured is None
        &&& b.current().plies_from_null == 0
        &&& b.current().material_hash == b.mat_hash()
        &&& b.mat_hash() == pieces_hash(b.squares())
    }

    /// Whether `b` is the empty board: no pieces, White to move at ply 0, and a history of
    /// blank entries.
    pub open spec fn is_empty_board(b: Board) -> bool {
        &&& b.squares() == Seq::new(64, |i: int| None::<Piece>)
        &&& b.side() == Color::White
        &&& b.ply_spec() == 0
        &&& b.mat_hash() == 0
        &&& forall|k: int| 0 <= k < N_HISTORIES ==> #[trigger] b.entries()[k] == HistoryEntry::blank()
    }

    /// Whether `after` is `before` with the move passed, as `push_null` does: the side to move
    /// changes and the next ply records no move, the same rights and material, one more
    /// half move and no plies since the null move.
    pub open spec fn null_pushed(before: Board, after: Board) -> bool {
        &&& after.squares() == before.squares()
        &&& after.mat_hash() == before.mat_hash()
        &&& after.side() == before.side().other()
        &&& after.ply_spec() == before.ply_spec() + 1
        &&& after.entries() == before.entries().update(
            before.ply_spec() + 1,
            HistoryEntry {
                rights: before.current().rights,
                half_move_counter: (before.current().half_move_counter + 1) as u16,
                plies_from_null: 0,
                moov: None,
                captured: None,
                epsq: None,
                material_hash: before.current().material_hash,
            },
        )
    }

    /// Whether `after` is `before` with a passed move taken back, as `pop_null` does.
    pub open spec fn null_popped(before: Board, after: Board) -> bool {
        &&& after.squares() == before.squares()
        &&& after.mat_hash() == before.mat_hash()
        &&& after.side() == before.side().other()
        &&& after.ply_spec() == before.ply_spec() - 1
        &&& after.entries() == before.entries()
    }

    /// Whether `after` is `before` with `m` played, as `push` does: the pieces and the material
    /// hash change as the move says, the side to move changes, and the next ply records the
    /// move, what it captured, the castling rights it leaves, the counters and the en passant
    /// square of a double push.
    pub open spec fn pushed(before: Board, after: Board, m: Move) -> bool {
        &&& after.squares() == after_push(before.squares(), before.side(), m)
        &&& after.mat_hash() == hash_after_push(before.squares(), before.side(), m, before.mat_hash())
        &&& after.side() == before.side().other()
        &&& after.ply_spec() == before.ply_spec() + 1
        &&& after.entries() == before.entries().update(after.ply_spec(), after.current())
        &&& after.current().moov == Some(m)
        &&& after.current().captured == captured_by(before.squares(), m)
        &&& after.current().material_hash == after.mat_hash()
        &&& after.current().rights.bits() == before.current().rights.bits() & !(CastlingRights::killed_at(m.from_idx())
            | CastlingRights::killed_at(m.to_idx()))
        &&& after.current().plies_from_null == before.current().plies_from_null + 1
        &&& after.current().half_move_counter == (if type_on(before.squares(), m.from_idx(), 0) || m.flag_code() == 4 {
            0
        } else {
            before.current().half_move_counter + 1
        })
        &&& match after.current().epsq {
            Some(e) => m.flag_code() == 1 && e.idx() == m.from_idx() + forward(before.side()),
            None => m.flag_code() != 1,
        }
    }

    /// Whether `after` is `before` with the current move taken back, as `pop` does: `r` is that
    /// move, the side to move changes back, and the pieces, the material hash and the ply go
    /// back with the move if there was one.
    pub open spec fn popped(before: Board, after: Board, r: Option<Move>) -> bool {
        &&& r == before.current().moov
        &&& after.side() == before.side().other()
        &&& after.entries() == before.entries()
        &&& match r {
            None => after.squares() == before.squares() && after.mat_hash() == before.mat_hash()
                && after.ply_spec() == before.ply_spec(),
            Some(m) => {
                &&& after.squares() == after_pop(before.squares(), before.side().other(), m, before.current().captured)
                &&& after.mat_hash() == hash_after_pop(
                    before.squares(),
                    before.side().other(),
                    m,
                    before.current().captured,
                    before.mat_hash(),
                )
                &&& after.ply_spec() == before.ply_spec() - 1
            },
        }
    }

    /// The same position as `other`: the same pieces, side to move and ply, the same material
    /// hash, and the same history up to the current ply.
    pub open spec fn same_position(&self, other: &Board) -> bool {
        &&& self.squares() == other.squares()
        &&& self.side() == other.side()
        &&& self.ply_spec() == other.ply_spec()
        &&& self.mat_hash() == other.mat_hash()
        &&& self.entries().subrange(0, self.ply_spec() + 1) == other.entries().subrange(0, other.ply_spec() + 1)
    }

    /// The ply is never negative.
    pub proof fn lemma_ply_nonneg(&self)
        ensures
            self.ply_spec() >= 0,
    {
    }

    /// Whether moves may be generated and played on this board: both kings stand, the position
    /// is sound, and the history and the move counters have room.
    pub open spec fn push_ready_spec(&self) -> bool {
        &&& self.has_king(self.side())
        &&& self.has_king(self.side().other())
        &&& self.position_sound()
        &&& self.ply_spec() + 1 < N_HISTORIES
        &&& self.current().half_move_counter < u16::MAX
        &&& self.current().plies_from_null < u16::MAX
    }

    /// Whether side `c` has a king.
    pub open spec fn has_king(&self, c: Color) -> bool {
        exists|k: int| self.holds(k, c, PieceType::King)
    }

    /// What stands on `sq`.
    pub fn piece_at(&self, sq: SQ) -> (r: Option<Piece>)
        requires
            self.wf(),
        ensures
            r == self.squares()[sq.idx()],
    {
        self.board[sq.index()]
    }

    /// The kind of what stands on `sq`.
    pub fn piece_type_at(&self, sq: SQ) -> (r: Option<PieceType>)
        requires
            self.wf(),
        ensures
            r == match self.squares()[sq.idx()] {
                Some(pc) => Some(pc.type_of_spec()),
                None => None,
            },
    {
        match self.board[sq.index()] {
            Some(pc) => Some(pc.type_of()),
            None => None,
        }
    }

    /// Puts `pc` on the empty square `sq`.
    fn set_piece_at(&mut self, pc: Piece, sq: SQ)
        requires
            old(self).wf(),
            old(self).squares()[sq.idx()] is None,
        ensures
            final(self).wf(),
            final(self).squares() == old(self).squares().update(sq.idx(), Some(pc)),
            final(self).mat_hash() == old(self).mat_hash() ^ piece_key(pc, sq),
            final(self).side() == old(self).side(),
            final(self).ply_spec() == old(self).ply_spec(),
            final(self).entries() == old(self).entries(),
    {
        self.material_hash = self.material_hash ^ self.zobrist.update_hash(pc, sq);
        let bb = sq.bb();
        let ci = pc.color_of().index();
        let ti = pc.type_of().index();
        let ghost old_board = self.board@;
        self.board.set(sq.index(), Some(pc));
        let c_old = self.color_bb[ci];
        self.color_bb.set(ci, Bitboard(c_old.0 | bb.0));
        let t_old = self.piece_type_bb[ti];
        self.piece_type_bb.set(ti, Bitboard(t_old.0 | bb.0));
        proof {
            assert forall|s: int, t: int| 0 <= t < 6 implies (#[trigger] bit(self.piece_type_bb@[t].0, s) == type_on(self.board@, s, t)) by {
                assert(bit(old(self).piece_type_bb@[t].0, s) == type_on(old_board, s, t));
            }
            assert forall|s: int, c: int| 0 <= c < 2 implies (#[trigger] bit(self.color_bb@[c].0, s) == color_on(self.board@, s, c)) by {
                assert(bit(old(self).color_bb@[c].0, s) == color_on(old_board, s, c));
            }
        }
    }

    /// Takes the piece off `sq` and returns it; an empty square stays as it is.
    fn remove_piece(&mut self, sq: SQ) -> (r: Option<Piece>)
        requires
            old(self).wf(),
        ensures
            final(self).wf(),
            r == old(self).squares()[sq.idx()],
            final(self).squares() == old(self).squares().update(sq.idx(), None),
            final(self).mat_hash() == match r {
                Some(pc) => old(self).mat_hash() ^ piece_key(pc, sq),
                None => old(self).mat_hash(),
            },
            final(self).side() == old(self).side(),
            final(self).ply_spec() == old(self).ply_spec(),
            final(self).entries() == old(self).entries(),
    {
        let pc = match self.board[sq.index()] {
            Some(pc) => pc,
            None => {
                assert(self.board@.update(sq.idx(), None) =~= self.board@);
                return None;
            },
        };
        self.material_hash = self.material_hash ^ self.zobrist.update_hash(pc, sq);
        let mask = !sq.bb().0;
        let ci = pc.color_of().index();
        let ti = pc.type_of().index();
        let ghost old_board = self.board@;
        let c_old = self.color_bb[ci];
        self.color_bb.set(ci, Bitboard(c_old.0 & mask));
        let t_old = self.piece_type_bb[ti];
        self.piece_type_bb.set(ti, Bitboard(t_old.0 & mask));
        self.board.set(sq.index(), None);
        proof {
            assert forall|s: int, t: int| 0 <= t < 6 implies (#[trigger] bit(self.piece_type_bb@[t].0, s) == type_on(self.board@, s, t)) by {
                assert(bit(old(self).piece_type_bb@[t].0, s) == type_on(old_board, s, t));
            }
            assert forall|s: int, c: int| 0 <= c < 2 implies (#[trigger] bit(self.color_bb@[c].0, s) == color_on(self.board@, s, c)) by {
                assert(bit(old(self).color_bb@[c].0, s) == color_on(old_board, s, c));
            }
        }
        Some(pc)
    }

    /// Moves the piece on `from_sq` to the empty square `to_sq`.
    fn move_piece_quiet(&mut self, from_sq: SQ, to_sq: SQ)
        requires
            old(self).wf(),
            old(self).squares()[from_sq.idx()] is Some,
            old(self).squares()[to_sq.idx()] is None,
        ensures
            final(self).wf(),
            final(self).squares() == old(self).squares().update(to_sq.idx(), old(self).squares()[from_sq.idx()]).update(
                from_sq.idx(),
                None,
            ),
            final(self).mat_hash() == old(self).mat_hash() ^ (piece_key(old(self).squares()[from_sq.idx()]->0, from_sq)
                ^ piece_key(old(self).squares()[from_sq.idx()]->0, to_sq)),
            final(self).side() == old(self).side(),
            final(self).ply_spec() == old(self).ply_spec(),
            final(self).entries() == old(self).entries(),
    {
        let pc = match self.board[from_sq.index()] {
            Some(pc) => pc,
            None => {
                assert(false);
                return;
            },
        };
        self.material_hash = self.material_hash ^ self.zobrist.move_hash(pc, from_sq, to_sq);
        let mask = from_sq.bb().0 | to_sq.bb().0;
        let ci = pc.color_of().index();
        let ti = pc.type_of().index();
        let ghost old_board = self.board@;
        let c_old = self.color_bb[ci];
        self.color_bb.set(ci, Bitboard(c_old.0 ^ mask));
        let t_old = self.piece_type_bb[ti];
        self.piece_type_bb.set(ti, Bitboard(t_old.0 ^ mask));
        self.board.set(to_sq.index(), Some(pc));
        self.board.set(from_sq.index(), None);
        proof {
            assert forall|s: int, t: int| 0 <= t < 6 implies (#[trigger] bit(self.piece_type_bb@[t].0, s) == type_on(self.board@, s, t)) by {
                assert(bit(old(self).piece_type_bb@[t].0, s) == type_on(old_board, s, t));
                assert(bit(old(self).piece_type_bb@[t].0, from_sq.idx()) == type_on(old_board, from_sq.idx(), t));
                assert(bit(old(self).piece_type_bb@[t].0, to_sq.idx()) == type_on(old_board, to_sq.idx(), t));
            }
            assert forall|s: int, c: int| 0 <= c < 2 implies (#[trigger] bit(self.color_bb@[c].0, s) == color_on(self.board@, s, c)) by {
                assert(bit(old(self).color_bb@[c].0, s) == color_on(old_board, s, c));
                assert(bit(old(self).color_bb@[c].0, from_sq.idx()) == color_on(old_board, from_sq.idx(), c));
                assert(bit(old(self).color_bb@[c].0, to_sq.idx()) == color_on(old_board, to_sq.idx(), c));
            }
        }
    }

    /// The squares of the pieces of side `c` and kind `pt`.
    pub fn bitboard_of(&self, c: Color, pt: PieceType) -> (r: Bitboard)
        requires
            self.wf(),
        ensures
            forall|s: int| r.has(s) == self.holds(s, c, pt),
    {
        let r = Bitboard(self.piece_type_bb[pt.index()].0 & self.color_bb[c.index()].0);
        assert forall|s: int| r.has(s) == self.holds(s, c, pt) by {
            assert(bit(self.piece_type_bb@[pt.idx()].0, s) == type_on(self.board@, s, pt.idx()));
            assert(bit(self.color_bb@[c.idx()].0, s) == color_on(self.board@, s, c.idx()));
        }
        r
    }

    /// The squares of the pieces `pc`.
    pub fn bitboard_of_pc(&self, pc: Piece) -> (r: Bitboard)
        requires
            self.wf(),
        ensures
            forall|s: int| r.has(s) == self.holds(s, pc.color_of_spec(), pc.type_of_spec()),
    {
        self.bitboard_of(pc.color_of(), pc.type_of())
    }

    /// The squares of the pieces of kind `pt`, of either side.
    pub fn bitboard_of_pt(&self, pt: PieceType) -> (r: Bitboard)
        requires
            self.wf(),
        ensures
            forall|s: int| r.has(s) == type_on(self.squares(), s, pt.idx()),
    {
        let r = self.piece_type_bb[pt.index()];
        assert forall|s: int| r.has(s) == type_on(self.squares(), s, pt.idx()) by {
            assert(bit(self.piece_type_bb@[pt.idx()].0, s) == type_on(self.board@, s, pt.idx()));
        }
        r
    }

    /// The squares of the pieces of side `c`.
    pub fn all_pieces_c(&self, c: Color) -> (r: Bitboard)
        requires
            self.wf(),
        ensures
            r.0 == self.color_bits(c),
            forall|s: int| r.has(s) == color_on(self.squares(), s, c.idx()),
    {
        let r = self.color_bb[c.index()];
        assert forall|s: int| r.has(s) == color_on(self.squares(), s, c.idx()) by {
            assert(bit(self.color_bb@[c.idx()].0, s) == color_on(self.board@, s, c.idx()));
        }
        r
    }

    /// The occupied squares.
    pub fn all_pieces(&self) -> (r: Bitboard)
        requires
            self.wf(),
        ensures
            r.0 == self.occupancy(),
            forall|s: int| r.has(s) == (0 <= s < 64 && self.squares()[s] is Some),
    {
        let w = self.all_pieces_c(Color::White);
        let b = self.all_pieces_c(Color::Black);
        let r = Bitboard(w.0 | b.0);
        assert(r.0 == self.occupancy());
        assert forall|s: int| r.has(s) == (0 <= s < 64 && self.squares()[s] is Some) by {
            assert(w.has(s) == color_on(self.squares(), s, 0));
            assert(b.has(s) == color_on(self.squares(), s, 1));
            if 0 <= s < 64 && self.squares()[s] is Some {
                let pc = self.squares()[s]->0;
                assert(pc.color_of_spec().idx() == 0 || pc.color_of_spec().idx() == 1);
            }
        }
        r
    }

    /// The pieces that attack `sq` when the squares of `occ` are occupied.
    pub fn attackers(&self, sq: SQ, occ: Bitboard) -> (r: Bitboard)
        requires
            self.wf(),
        ensures
            forall|s: int| r.has(s) == self.attacker_spec(sq.idx(), occ.0, s),
    {
        let wp = self.bitboard_of(Color::White, PieceType::Pawn);
        let bp = self.bitboard_of(Color::Black, PieceType::Pawn);
        let pa_b = pawn_attacks_sq(sq, Color::Black);
        let pa_w = pawn_attacks_sq(sq, Color::White);
        let kn = self.bitboard_of_pt(PieceType::Knight);
        let ka = knight_attacks(sq);
        let ds = self.diagonal_sliders();
        let ba = bishop_attacks(sq, occ);
        let os = self.orthogonal_sliders();
        let ra = rook_attacks(sq, occ);
        let r = Bitboard((wp.0 & pa_b.0) | (bp.0 & pa_w.0) | (kn.0 & ka.0) | (ds.0 & ba.0) | (os.0 & ra.0));
        assert forall|s: int| r.has(s) == self.attacker_spec(sq.idx(), occ.0, s) by {
            assert(wp.has(s) && pa_b.has(s) || bp.has(s) && pa_w.has(s) || kn.has(s) && ka.has(s)
                || ds.has(s) && ba.has(s) || os.has(s) && ra.has(s) <==> r.has(s));
        }
        r
    }

    /// The pieces of side `color` that attack `sq` when the squares of `occ` are occupied.
    pub fn attackers_from_c(&self, sq: SQ, occ: Bitboard, color: Color) -> (r: Bitboard)
        requires
            self.wf(),
        ensures
            forall|s: int| r.has(s) == self.attacker_from_spec(sq.idx(), occ.0, color, s),
    {
        let p = self.bitboard_of(color, PieceType::Pawn);
        let pa = pawn_attacks_sq(sq, color.not());
        let kn = self.bitboard_of(color, PieceType::Knight);
        let ka = knight_attacks(sq);
        let ds = self.diagonal_sliders_c(color);
        let ba = bishop_attacks(sq, occ);
        let os = self.orthogonal_sliders_c(color);
        let ra = rook_attacks(sq, occ);
        let r = Bitboard((p.0 & pa.0) | (kn.0 & ka.0) | (ds.0 & ba.0) | (os.0 & ra.0));
        assert forall|s: int| r.has(s) == self.attacker_from_spec(sq.idx(), occ.0, color, s) by {
            assert(p.has(s) && pa.has(s) || kn.has(s) && ka.has(s) || ds.has(s) && ba.has(s) || os.has(s)
                && ra.has(s) <==> r.has(s));
        }
        r
    }

    /// Whether the side not to move attacks `sq` with a knight, a pawn or a slider.
    pub fn is_attacked(&self, sq: SQ) -> (r: bool)
        requires
            self.wf(),
        ensures
            r == self.attacked_spec(sq.idx()),
    {
        let us = self.ctm;
        let them = self.ctm.not();
        let all = self.all_pieces();
        assert(them == self.side().other());
        let (x1, y1) = (knight_attacks(sq), self.bitboard_of(them, PieceType::Knight));
        let kn = x1.0 & y1.0;
        if kn != 0 {
            proof {
                lemma_zero_iff_no_bits(kn);
                let s = choose|s: int| 0 <= s < 64 && bit(kn, s);
                assert(x1.has(s) && y1.has(s));
                assert(self.attacker_from_spec(sq.idx(), self.occupancy(), them, s));
            }
            return true;
        }
        let (x2, y2) = (pawn_attacks_sq(sq, us), self.bitboard_of(them, PieceType::Pawn));
        let pw = x2.0 & y2.0;
        if pw != 0 {
            proof {
                lemma_zero_iff_no_bits(pw);
                let s = choose|s: int| 0 <= s < 64 && bit(pw, s);
                assert(x2.has(s) && y2.has(s));
                assert(self.attacker_from_spec(sq.idx(), self.occupancy(), them, s));
            }
            return true;
        }
        let (x3, y3) = (rook_attacks(sq, all), self.orthogonal_sliders_c(them));
        let ro = x3.0 & y3.0;
        if ro != 0 {
            proof {
                lemma_zero_iff_no_bits(ro);
                let s = choose|s: int| 0 <= s < 64 && bit(ro, s);
                assert(x3.has(s) && y3.has(s));
                assert(self.attacker_from_spec(sq.idx(), self.occupancy(), them, s));
            }
            return true;
        }
        let (x4, y4) = (bishop_attacks(sq, all), self.diagonal_sliders_c(them));
        let bi = x4.0 & y4.0;
        if bi != 0 {
            proof {
                lemma_zero_iff_no_bits(bi);
                let s = choose|s: int| 0 <= s < 64 && bit(bi, s);
                assert(x4.has(s) && y4.has(s));
                assert(self.attacker_from_spec(sq.idx(), self.occupancy(), them, s));
            }
            return true;
        }
        proof {
            lemma_zero_iff_no_bits(kn);
            lemma_zero_iff_no_bits(pw);
            lemma_zero_iff_no_bits(ro);
            lemma_zero_iff_no_bits(bi);
            assert forall|s: int| !self.attacker_from_spec(sq.idx(), self.occupancy(), them, s) by {
                if 0 <= s < 64 {
                    assert(!bit(kn, s) && !bit(pw, s) && !bit(ro, s) && !bit(bi, s));
                    assert(x1.has(s) == knight_sq(sq.idx(), s) && y1.has(s) == self.holds(s, them, PieceType::Knight));
                    assert(x2.has(s) == pawn_sq(sq.idx(), us, s) && y2.has(s) == self.holds(s, them, PieceType::Pawn));
                    assert(x3.has(s) == rook_sq(sq.idx(), self.occupancy(), s));
                    assert(x4.has(s) == bishop_sq(sq.idx(), self.occupancy(), s));
                    assert(y3.has(s) == (self.holds(s, them, PieceType::Rook) || self.holds(s, them, PieceType::Queen)));
                    assert(y4.has(s) == (self.holds(s, them, PieceType::Bishop) || self.holds(s, them, PieceType::Queen)));
                    assert(them.other() == us);
                }
            }
        }
        false
    }

    /// Whether the side to move is in check. The side to move must have a king; its lowest
    /// king is the one looked at.
    pub fn in_check(&self) -> (r: bool)
        requires
            self.wf(),
            self.has_king(self.side()),
        ensures
            exists|k: int| self.is_king_square(self.side(), k) && r == self.attacked_spec(k),
    {
        let kings = self.bitboard_of(self.ctm, PieceType::King);
        proof {
            let k = choose|k: int| self.holds(k, self.side(), PieceType::King);
            assert(kings.has(k));
        }
        let ksq = kings.lsb();
        assert forall|j: int| 0 <= j < ksq.idx() implies !self.holds(j, self.side(), PieceType::King) by {
            assert(!kings.has(j));
        }
        assert(kings.has(ksq.idx()));
        assert(self.is_king_square(self.side(), ksq.idx()));
        self.is_attacked(ksq)
    }

    /// The move that led to the current ply, if any.
    pub fn peek(&self) -> (r: Option<Move>)
        requires
            self.wf(),
        ensures
            r == self.current().moov,
    {
        self.history[self.ply].moov
    }

    /// Whether only the two kings, or the two kings and one minor piece, are left.
    fn is_insufficient_material(&self) -> (r: bool)
        requires
            self.wf(),
        ensures
            r == (popcount(self.occupancy()) == 2 || (popcount(self.occupancy()) == 3 && forall|s: int|
                !type_on(self.squares(), s, 3) && !type_on(self.squares(), s, 4) && !type_on(self.squares(), s, 0))),
    {
        let n = self.all_pieces().pop_count();
        if n == 2 {
            true
        } else if n == 3 {
            let r = self.bitboard_of_pt(PieceType::Rook);
            let q = self.bitboard_of_pt(PieceType::Queen);
            let p = self.bitboard_of_pt(PieceType::Pawn);
            let x = r.0 | q.0 | p.0;
            proof {
                lemma_zero_iff_no_bits(x);
                assert forall|s: int| #![auto] x == 0 ==> !type_on(self.squares(), s, 3) && !type_on(self.squares(), s, 4) && !type_on(self.squares(), s, 0) by {
                    if 0 <= s < 64 {
                        assert(bit(x, s) == (r.has(s) || q.has(s) || p.has(s)));
                        assert(r.has(s) == type_on(self.squares(), s, 3));
                        assert(q.has(s) == type_on(self.squares(), s, 4));
                        assert(p.has(s) == type_on(self.squares(), s, 0));
                    }
                }
                if x != 0 {
                    let s = choose|s: int| 0 <= s < 64 && bit(x, s);
                    assert(r.has(s) || q.has(s) || p.has(s));
                }
            }
            x == 0
        } else {
            false
        }
    }

    /// Whether fifty moves without a capture or a pawn move have been played.
    fn is_fifty(&self) -> (r: bool)
        requires
            self.wf(),
        ensures
            r == (self.current().half_move_counter >= 100),
    {
        self.history[self.ply].half_move_counter >= 100
    }

    /// Whether the position repeats an earlier one, as `repetition_spec` says.
    pub fn is_repetition(&self) -> (r: bool)
        requires
            self.wf(),
        ensures
            r == self.repetition_spec(),
    {
        let cur = self.history[self.ply];
        let lookback: usize = if cur.plies_from_null <= cur.half_move_counter {
            cur.plies_from_null as usize
        } else {
            cur.half_move_counter as usize
        };
        let ply = self.ply;
        if lookback < 2 {
            return false;
        }
        let lo = ply - lookback;
        let mut j = ply - 2;
        while j >= lo
            invariant
                self.wf(),
                ply == self.ply_spec(),
                cur == self.current(),
                lo == ply - lookback,
                lookback >= 2,
                lookback == (if cur.plies_from_null <= cur.half_move_counter {
                    cur.plies_from_null as int
                } else {
                    cur.half_move_counter as int
                }),
                lo <= j + 2 <= ply,
                (ply - j) % 2 == 0,
                forall|i: int| j < i <= ply - 2 && (ply - i) % 2 == 0 ==> !((#[trigger] self.entries()[i]).material_hash
                    == self.mat_hash() && self.entries()[i].rights == cur.rights),
            decreases j + 2 - lo,
        {
            let e = self.history[j];
            if e.material_hash == self.material_hash && e.rights == cur.rights {
                assert(self.entries()[j as int] == e);
                return true;
            }
            if j < lo + 2 {
                assert forall|i: int| #![auto] !(self.ply_spec() - lookback <= i <= self.ply_spec() - 2 && (self.ply_spec() - i) % 2 == 0
                    && self.entries()[i].material_hash == self.mat_hash() && self.entries()[i].rights == cur.rights) by {
                    if lo <= i <= j && (ply - i) % 2 == 0 {
                        assert(i == j);
                    }
                }
                return false;
            }
            j = j - 2;
        }
        false
    }

    /// Whether the game is drawn by the fifty-move rule, by lack of material or by repetition.
    pub fn is_draw(&self) -> (r: bool)
        requires
            self.wf(),
        ensures
            r == self.draw_spec(),
    {
        self.is_fifty() || self.is_insufficient_material() || self.is_repetition()
    }

    /// Whether the side to move has a piece other than pawns and kings.
    pub fn has_non_pawn_material(&self) -> (r: bool)
        requires
            self.wf(),
        ensures
            r == exists|s: int| color_on(self.squares(), s, self.side().idx()) && !type_on(self.squares(), s, 0) && !type_on(self.squares(), s, 5),
    {
        let p = self.bitboard_of(self.ctm, PieceType::Pawn);
        let k = self.bitboard_of(self.ctm, PieceType::King);
        let c = self.all_pieces_c(self.ctm);
        let x = p.0 | k.0;
        proof {
            if x != c.0 {
                if forall|i: int| 0 <= i < 64 ==> bit(x, i) == bit(c.0, i) {
                    lemma_bits_ext(x, c.0);
                }
                let i = choose|i: int| 0 <= i < 64 && bit(x, i) != bit(c.0, i);
                assert(bit(x, i) == (p.has(i) || k.has(i)));
                assert(c.has(i) == color_on(self.squares(), i, self.side().idx()));
                assert(color_on(self.squares(), i, self.side().idx()) && !type_on(self.squares(), i, 0) && !type_on(self.squares(), i, 5));
            } else {
                assert forall|s: int| !(color_on(self.squares(), s, self.side().idx()) && !type_on(self.squares(), s, 0) && !type_on(self.squares(), s, 5)) by {
                    if 0 <= s < 64 && color_on(self.squares(), s, self.side().idx()) {
                        assert(c.has(s));
                        assert(p.has(s) || k.has(s));
                    }
                }
            }
        }
        x != c.0
    }

    /// The side to move.
    pub fn ctm(&self) -> (r: Color)
        ensures
            r == self.side(),
    {
        self.ctm
    }

    /// The half moves since the last capture or pawn move.
    pub fn half_move_counter(&self) -> (r: u16)
        requires
            self.wf(),
        ensures
            r == self.current().half_move_counter,
    {
        self.history[self.ply].half_move_counter
    }

    /// The number of the current ply.
    pub fn ply(&self) -> (r: usize)
        ensures
            r == self.ply_spec(),
    {
        self.ply
    }

    /// The hash of the pieces on their squares.
    pub fn material_hash(&self) -> (r: u64)
        ensures
            r == self.mat_hash(),
    {
        self.material_hash
    }

    /// The number of the full move, counted from 1.
    pub fn fullmove_number(&self) -> (r: usize)
        requires
            self.wf(),
        ensures
            r == self.ply_spec() / 2 + 1,
    {
        self.ply / 2 + 1
    }

    /// The hash of the whole position: pieces, castling rights, en passant file and side to
    /// move.
    pub fn hash(&self) -> (r: u64)
        requires
            self.wf(),
        ensures
            r == self.hash_spec(),
    {
        let e = self.history[self.ply];
        let ep = match e.epsq {
            Some(sq) => self.zobrist.ep_hash(sq),
            None => 0,
        };
        self.material_hash ^ self.zobrist.castling_hash(e.rights) ^ ep ^ self.zobrist.color_hash(self.ctm)
    }

    /// Passes the move: the side to move changes and a ply without a move is recorded.
    pub fn push_null(&mut self)
        requires
            old(self).wf(),
            old(self).ply_spec() + 1 < N_HISTORIES,
            old(self).current().half_move_counter < u16::MAX,
        ensures
            final(self).wf(),
            Board::null_pushed(*old(self), *final(self)),
    {
        let prev = self.history[self.ply];
        self.ply = self.ply + 1;
        self.history.set(
            self.ply,
            HistoryEntry {
                rights: prev.rights,
                half_move_counter: prev.half_move_counter + 1,
                plies_from_null: 0,
                moov: None,
                captured: None,
                epsq: None,
                material_hash: prev.material_hash,
            },
        );
        self.ctm = self.ctm.not();
        proof {
            assert forall|k: int| 0 <= k <= self.ply implies (#[trigger] self.history@[k]).rights.bits() < 16 && self.history@[k].plies_from_null <= k by {
                if k < self.ply {
                    assert(self.history@[k] == old(self).history@[k]);
                }
            }
        }
    }

    /// Takes back a passed move.
    pub fn pop_null(&mut self)
        requires
            old(self).wf(),
            old(self).ply_spec() >= 1,
        ensures
            final(self).wf(),
            Board::null_popped(*old(self), *final(self)),
    {
        self.ply = self.ply - 1;
        self.ctm = self.ctm.not();
    }

    /// Moves the pieces for `m`, which `push_ok` admits, and returns what the history records
    /// of it: the captured piece and the en passant square.
    #[verifier::rlimit(60)]
    fn move_pieces(&mut self, m: Move) -> (r: (Option<Piece>, Option<SQ>))
        requires
            old(self).wf(),
            push_ok(old(self).squares(), old(self).side(), m),
        ensures
            final(self).wf(),
            final(self).squares() == after_push(old(self).squares(), old(self).side(), m),
            final(self).mat_hash() == hash_after_push(old(self).squares(), old(self).side(), m, old(self).mat_hash()),
            final(self).side() == old(self).side(),
            final(self).ply_spec() == old(self).ply_spec(),
            final(self).entries() == old(self).entries(),
            r.0 == captured_by(old(self).squares(), m),
            match r.1 {
                Some(e) => m.flag_code() == 1 && e.idx() == m.from_idx() + forward(old(self).side()),
                None => m.flag_code() != 1,
            },
    {
        let (from_sq, to_sq) = m.squares();
        let us = self.ctm;
        let ghost s0 = self.squares();
        proof {
            assert(s0.len() == 64);
            reveal(after_push);
            reveal(hash_after_push);
        }
        let flags = m.flags();
        match flags {
            MoveFlags::Quiet => {
                self.move_piece_quiet(from_sq, to_sq);
                assert(self.squares() =~= after_push(s0, us, m));
                (None, None)
            },
            MoveFlags::DoublePush => {
                self.move_piece_quiet(from_sq, to_sq);
                assert(self.squares() =~= after_push(s0, us, m));
                (None, Some(from_sq.add_dir(Direction::North.relative(us))))
            },
            MoveFlags::OO => {
                self.move_piece_quiet(SQ::E1.relative(us), SQ::G1.relative(us));
                self.move_piece_quiet(SQ::H1.relative(us), SQ::F1.relative(us));
                assert(self.squares() =~= after_push(s0, us, m));
                (None, None)
            },
            MoveFlags::OOO => {
                self.move_piece_quiet(SQ::E1.relative(us), SQ::C1.relative(us));
                self.move_piece_quiet(SQ::A1.relative(us), SQ::D1.relative(us));
                assert(self.squares() =~= after_push(s0, us, m));
                (None, None)
            },
            MoveFlags::EnPassant => {
                self.move_piece_quiet(from_sq, to_sq);
                let victim = to_sq.add_dir(Direction::South.relative(us));
                self.remove_piece(victim);
                assert(self.squares() =~= after_push(s0, us, m));
                (None, None)
            },
            MoveFlags::Capture => {
                let captured = self.piece_at(to_sq);
                self.remove_piece(to_sq);
                self.move_piece_quiet(from_sq, to_sq);
                assert(self.squares() =~= after_push(s0, us, m));
                (captured, None)
            },
            _ => {
                let mut captured: Option<Piece> = None;
                if m.is_capture() {
                    captured = self.remove_piece(to_sq);
                }
                self.remove_piece(from_sq);
                let promo = match m.promotion() {
                    Some(pt) => pt,
                    None => {
                        assert(false);
                        PieceType::Queen
                    },
                };
                self.set_piece_at(Piece::make_piece(us, promo), to_sq);
                assert(self.squares() =~= after_push(s0, us, m));
                (captured, None)
            },
        }
    }

    /// Plays `m`, which `push_ok` admits, and records the ply.
    pub fn push(&mut self, m: Move)
        requires
            old(self).wf(),
            old(self).ply_spec() + 1 < N_HISTORIES,
            old(self).current().half_move_counter < u16::MAX,
            old(self).current().plies_from_null < u16::MAX,
            push_ok(old(self).squares(), old(self).side(), m),
        ensures
            final(self).wf(),
            Board::pushed(*old(self), *final(self), m),
    {
        let prev = self.history[self.ply];
        let mut half_move_counter = prev.half_move_counter + 1;
        let (from_sq, to_sq) = m.squares();
        if self.piece_type_at(from_sq) == Some(PieceType::Pawn) {
            half_move_counter = 0;
        }
        if m.flags() == MoveFlags::Capture {
            half_move_counter = 0;
        }
        let (captured, epsq) = self.move_pieces(m);
        let killed = CastlingRights(CastlingRights::killed(from_sq).0 | CastlingRights::killed(to_sq).0);
        let entry = HistoryEntry {
            rights: prev.rights.without(killed),
            moov: Some(m),
            plies_from_null: prev.plies_from_null + 1,
            material_hash: self.material_hash,
            half_move_counter,
            captured,
            epsq,
        };
        self.ply = self.ply + 1;
        self.history.set(self.ply, entry);
        self.ctm = self.ctm.not();
        proof {
            let b = prev.rights.0;
            let kk = killed.0;
            assert(b < 16 ==> b & !kk < 16) by (bit_vector);
            assert forall|k: int| 0 <= k <= self.ply implies (#[trigger] self.history@[k]).rights.bits() < 16 && self.history@[k].plies_from_null <= k by {
                if k < self.ply {
                    assert(self.history@[k] == old(self).history@[k]);
                }
            }
        }
    }

    /// Moves the pieces back for `m`, a move of `mover` that captured `captured`.
    #[verifier::rlimit(60)]
    fn unmove_pieces(&mut self, m: Move, mover: Color, captured: Option<Piece>)
        requires
            old(self).wf(),
            pop_ok(old(self).squares(), mover, m, captured),
        ensures
            final(self).wf(),
            final(self).squares() == after_pop(old(self).squares(), mover, m, captured),
            final(self).mat_hash() == hash_after_pop(old(self).squares(), mover, m, captured, old(self).mat_hash()),
            final(self).side() == old(self).side(),
            final(self).ply_spec() == old(self).ply_spec(),
            final(self).entries() == old(self).entries(),
    {
        let (from_sq, to_sq) = m.squares();
        let ghost s0 = self.squares();
        proof {
            assert(s0.len() == 64);
            reveal(after_pop);
            reveal(hash_after_pop);
        }
        match m.flags() {
            MoveFlags::Quiet | MoveFlags::DoublePush => {
                self.move_piece_quiet(to_sq, from_sq);
            },
            MoveFlags::OO => {
                self.move_piece_quiet(SQ::G1.relative(mover), SQ::E1.relative(mover));
                self.move_piece_quiet(SQ::F1.relative(mover), SQ::H1.relative(mover));
            },
            MoveFlags::OOO => {
                self.move_piece_quiet(SQ::C1.relative(mover), SQ::E1.relative(mover));
                self.move_piece_quiet(SQ::D1.relative(mover), SQ::A1.relative(mover));
            },
            MoveFlags::EnPassant => {
                self.move_piece_quiet(to_sq, from_sq);
                let victim = to_sq.add_dir(Direction::South.relative(mover));
                self.set_piece_at(Piece::make_piece(mover.not(), PieceType::Pawn), victim);
            },
            MoveFlags::PrKnight | MoveFlags::PrBishop | MoveFlags::PrRook | MoveFlags::PrQueen => {
                self.remove_piece(to_sq);
                self.set_piece_at(Piece::make_piece(mover, PieceType::Pawn), from_sq);
            },
            MoveFlags::PcKnight | MoveFlags::PcBishop | MoveFlags::PcRook | MoveFlags::PcQueen => {
                self.remove_piece(to_sq);
                self.set_piece_at(Piece::make_piece(mover, PieceType::Pawn), from_sq);
                match captured {
                    Some(pc) => self.set_piece_at(pc, to_sq),
                    None => {
                        assert(false);
                    },
                }
            },
            MoveFlags::Capture => {
                self.move_piece_quiet(to_sq, from_sq);
                match captured {
                    Some(pc) => self.set_piece_at(pc, to_sq),
                    None => {
                        assert(false);
                    },
                }
            },
        }
        assert(self.squares() =~= after_pop(s0, mover, m, captured));
    }

    /// Takes back the move of the current ply, if there is one, and returns it. The side to
    /// move changes back in any case.
    pub fn pop(&mut self) -> (r: Option<Move>)
        requires
            old(self).wf(),
            old(self).current().moov matches Some(m) ==> old(self).ply_spec() >= 1 && pop_ok(
                old(self).squares(),
                old(self).side().other(),
                m,
                old(self).current().captured,
            ),
        ensures
            final(self).wf(),
            Board::popped(*old(self), *final(self), r),
    {
        self.ctm = self.ctm.not();
        let e = self.history[self.ply];
        let m = match e.moov {
            Some(m) => m,
            None => return None,
        };
        self.unmove_pieces(m, self.ctm, e.captured);
        self.ply = self.ply - 1;
        Some(m)
    }

    /// The empty board.
    pub fn empty() -> (r: Board)
        ensures
            r.wf(),
            Board::is_empty_board(r),
    {
        let mut board: Vec<Option<Piece>> = Vec::new();
        let mut i: usize = 0;
        while i < 64
            invariant
                i <= 64,
                board@ == Seq::new(i as nat, |k: int| None::<Piece>),
            decreases 64 - i,
        {
            board.push(None);
            i = i + 1;
            assert(board@ =~= Seq::new(i as nat, |k: int| None::<Piece>));
        }
        let mut piece_type_bb: Vec<Bitboard> = Vec::new();
        let mut t: usize = 0;
        while t < 6
            invariant
                t <= 6,
                piece_type_bb@.len() == t,
                forall|k: int| 0 <= k < t ==> (#[trigger] piece_type_bb@[k]).0 == 0,
            decreases 6 - t,
        {
            piece_type_bb.push(Bitboard(0));
            t = t + 1;
        }
        let color_bb: Vec<Bitboard> = vec![Bitboard(0), Bitboard(0)];
        let mut history: Vec<HistoryEntry> = Vec::new();
        let mut h: usize = 0;
        while h < N_HISTORIES
            invariant
                h <= N_HISTORIES,
                history@.len() == h,
                forall|k: int| 0 <= k < h ==> #[trigger] history@[k] == HistoryEntry::blank(),
            decreases N_HISTORIES - h,
        {
            history.push(HistoryEntry::default());
            h = h + 1;
        }
        let r = Board {
            board,
            piece_type_bb,
            color_bb,
            history,
            ctm: Color::White,
            ply: 0,
            material_hash: 0,
            zobrist: Hasher::new(),
        };
        assert forall|s: int, t: int| 0 <= t < 6 implies (#[trigger] bit(r.piece_type_bb@[t].0, s) == type_on(r.board@, s, t)) by {
            assert(r.piece_type_bb@[t].0 == 0);
        }
        assert forall|s: int, c: int| 0 <= c < 2 implies (#[trigger] bit(r.color_bb@[c].0, s) == color_on(r.board@, s, c)) by {
            assert(r.color_bb@[c].0 == 0);
        }
        r
    }

    fn start_piece_at(i: usize) -> (r: Option<Piece>)
        requires
            i < 64,
        ensures
            r == start_piece(i as int),
    {
        if i < 8 || i >= 56 {
            let c = if i < 8 {
                Color::White
            } else {
                Color::Black
            };
            let f = i % 8;
            let t = if f == 0 || f == 7 {
                PieceType::Rook
            } else if f == 1 || f == 6 {
                PieceType::Knight
            } else if f == 2 || f == 5 {
                PieceType::Bishop
            } else if f == 3 {
                PieceType::Queen
            } else {
                PieceType::King
            };
            Some(Piece::make_piece(c, t))
        } else if i < 16 {
            Some(Piece::make_piece(Color::White, PieceType::Pawn))
        } else if i >= 48 {
            Some(Piece::make_piece(Color::Black, PieceType::Pawn))
        } else {
            None
        }
    }

    /// The starting position.
    pub fn new() -> (r: Board)
        ensures
            r.wf(),
            Board::is_start(r),
    {
        let mut b = Board::empty();
        proof {
            lemma_empty_hash(b.squares(), 64);
        }
        let mut i: usize = 0;
        while i < 64
            invariant
                b.wf(),
                i <= 64,
                b.mat_hash() == pieces_hash(b.squares()),
                b.squares() == Seq::new(64, |k: int| if k < i { start_piece(k) } else { None }),
                b.side() == Color::White,
                b.ply_spec() == 0,
                forall|k: int| 0 <= k < N_HISTORIES ==> #[trigger] b.entries()[k] == HistoryEntry::blank(),
            decreases 64 - i,
        {
            let ghost before = b.squares();
            match Board::start_piece_at(i) {
                Some(pc) => {
                    let sq = SQ::from_u8(i as u8);
                    proof {
                        lemma_put_hash(before, sq, pc);
                    }
                    b.set_piece_at(pc, sq);
                },
                None => {},
            }
            i = i + 1;
            assert(b.squares() =~= Seq::new(64, |k: int| if k < i { start_piece(k) } else { None }));
        }
        assert(b.squares() =~= Seq::new(64, |k: int| start_piece(k)));
        let h = b.material_hash;
        b.history.set(
            0,
            HistoryEntry {
                rights: CastlingRights(15),
                moov: None,
                material_hash: h,
                plies_from_null: 0,
                captured: None,
                epsq: None,
                half_move_counter: 0,
            },
        );
        b
    }

    /// Sets up the starting position.
    pub fn reset(&mut self)
        ensures
            final(self).wf(),
            Board::is_start(*final(self)),
    {
        *self = Board::new();
    }

    /// Empties the board.
    pub fn clear(&mut self)
        ensures
            final(self).wf(),
            Board::is_empty_board(*final(self)),
    {
        *self = Board::empty();
    }

    /// Places the ranks of a piece placement field on the empty board, the eighth rank first.
    fn place_fen_ranks(&mut self, ranks: &Vec<Vec<u8>>) -> (r: Result<(), &'static str>)
        requires
            old(self).wf(),
            ranks@.len() == 8,
            old(self).mat_hash() == pieces_hash(old(self).squares()),
        ensures
            final(self).wf(),
            final(self).mat_hash() == pieces_hash(final(self).squares()),
            final(self).side() == old(self).side(),
            final(self).ply_spec() == old(self).ply_spec(),
            final(self).entries() == old(self).entries(),
            r is Ok <==> place_ranks(words_view(ranks@), 0, old(self).squares()) is Some,
            r is Ok ==> final(self).squares() == place_ranks(words_view(ranks@), 0, old(self).squares())->0,
            r matches Err(e) ==> e@ == (if place_overflows(words_view(ranks@), 0, old(self).squares()) {
                "Invalid square index in FEN."@
            } else {
                "FEN rank does not fill expected number of squares."@
            }),
    {
        let ghost rv = words_view(ranks@);
        let ghost target = place_ranks(rv, 0, self.squares());
        let mut r: usize = 0;
        while r < 8
            invariant
                self.wf(),
                r <= 8,
                self.mat_hash() == pieces_hash(self.squares()),
                rv == words_view(ranks@),
                rv.len() == 8,
                ranks@.len() == 8,
                place_ranks(rv, r as int, self.squares()) == target,
                target == place_ranks(rv, 0, old(self).squares()),
                place_overflows(rv, r as int, self.squares()) == place_overflows(rv, 0, old(self).squares()),
                self.side() == old(self).side(),
                self.ply_spec() == old(self).ply_spec(),
                self.entries() == old(self).entries(),
            decreases 8 - r,
        {
            let rank = &ranks[r];
            assert(rv[r as int] == rank@);
            let start: usize = (7 - r) * 8;
            let ghost sq_start = self.squares();
            let mut idx: usize = start;
            let ghost mut sidx: int = start as int;
            let mut i: usize = 0;
            while i < rank.len()
                invariant
                    self.wf(),
                    i <= rank@.len(),
                    r < 8,
                    self.mat_hash() == pieces_hash(self.squares()),
                    start == (7 - r) * 8,
                    (sidx <= 100 && idx == sidx) || (sidx > 100 && idx == 100),
                    place_rank(rank@, i as int, sidx, self.squares()) == place_rank(rank@, 0, start as int, sq_start),
                    rv == words_view(ranks@),
                    rv.len() == 8,
                    rv[r as int] == rank@,
                    place_ranks(rv, r as int, sq_start) == target,
                    target == place_ranks(rv, 0, old(self).squares()),
                    place_overflows(rv, r as int, sq_start) == place_overflows(rv, 0, old(self).squares()),
                    self.side() == old(self).side(),
                    self.ply_spec() == old(self).ply_spec(),
                    self.entries() == old(self).entries(),
                decreases rank@.len() - i,
            {
                let c = rank[i];
                if 48 <= c && c <= 57 {
                    let d = (c - 48) as usize;
                    proof {
                        sidx = sidx + d;
                    }
                    idx = if idx + d > 100 {
                        100
                    } else {
                        idx + d
                    };
                } else {
                    if idx > 63 {
                        proof {
                            assert(place_rank(rank@, 0, start as int, sq_start) is None);
                        }
                        return Err("Invalid square index in FEN.");
                    }
                    let pc = piece_of_letter(c);
                    let sq = SQ::from_u8(idx as u8);
                    let ghost before = self.squares();
                    proof {
                        lemma_take_hash(before, sq);
                        lemma_put_hash(before.update(sq.idx(), None), sq, pc);
                    }
                    if self.board[idx].is_some() {
                        self.remove_piece(sq);
                    }
                    assert(self.squares() =~= before.update(sq.idx(), None));
                    self.set_piece_at(pc, sq);
                    assert(self.squares() =~= before.update(sidx, Some(pc)));
                    proof {
                        sidx = sidx + 1;
                    }
                    idx = idx + 1;
                }
                i = i + 1;
            }
            assert(place_rank(rank@, 0, start as int, sq_start) == Some((self.squares(), sidx)));
            if idx != 64 - 8 * r {
                return Err("FEN rank does not fill expected number of squares.");
            }
            r = r + 1;
        }
        Ok(())
    }

    /// Reads the position that the FEN `fen` describes. The board is emptied first; on an
    /// error it holds what was read before the error.
    pub fn set_fen(&mut self, fen: &str) -> (r: Result<(), &'static str>)
        requires
            !fen_panics(fen.spec_bytes(), N_HISTORIES as int),
        ensures
            final(self).wf(),
            r is Ok <==> fen_ok(fen.spec_bytes(), N_HISTORIES as int),
            r is Ok ==> Board::from_fen(*final(self), fen.spec_bytes()),
            !ascii_line(trimmed(fen.spec_bytes())) ==> (r matches Err(e)
                && e@ == "FEN should be a single ASCII line."@),
            ascii_line(trimmed(fen.spec_bytes())) && !fen_shape(fen_words(fen.spec_bytes())) ==> (
            r matches Err(e) && e@ == "Invalid fen format."@),
            ascii_line(trimmed(fen.spec_bytes())) && fen_shape(fen_words(fen.spec_bytes())) && split_on(
                fen_words(fen.spec_bytes())[0],
                47,
            ).len() != 8 ==> (r matches Err(e) && e@ == "Pieces Placement FEN should have 8 ranks."@),
            fen_framed(fen.spec_bytes()) && fen_fullmove(fen.spec_bytes()) <= usize::MAX && fen_squares(fen.spec_bytes())
                is None ==> (r matches Err(e) && e@ == (if fen_overflows(fen.spec_bytes()) {
                "Invalid square index in FEN."@
            } else {
                "FEN rank does not fill expected number of squares."@
            })),
    {
        let ghost b = fen.spec_bytes();
        self.clear();
        proof {
            lemma_empty_hash(self.squares(), 64);
        }
        let t = trimmed_copy(fen.as_bytes());
        if !is_ascii_line(&t) {
            return Err("FEN should be a single ASCII line.");
        }
        let w = split_words(&t, 0);
        assert(words_view(w@) =~= fen_words(b));
        if !has_fen_shape(&w) {
            return Err("Invalid fen format.");
        }
        let ghost wv = words_view(w@);
        assert(wv[0] == w@[0]@ && wv[1] == w@[1]@ && wv[2] == w@[2]@ && wv[3] == w@[3]@);
        let ranks = split_bytes(&w[0], 47);
        if ranks.len() != 8 {
            return Err("Pieces Placement FEN should have 8 ranks.");
        }
        assert(fen_framed(b));
        let black = w[1][0] == 98;
        assert(black == fen_black(b)) by {
            if black {
                assert(wv[1] =~= seq![98u8]);
            }
        }
        let fullmove: u64 = if w.len() == 6 {
            assert(wv[5] == w@[5]@);
            assert(w@[5]@.subrange(0, w@[5]@.len() as int) =~= w@[5]@);
            match digits_to_u64(w[5].as_slice(), 0, w[5].len()) {
                Some(v) => {
                    if v > usize::MAX as u64 {
                        return Err("Invalid full move counter.");
                    }
                    v
                },
                None => return Err("Invalid full move counter."),
            }
        } else {
            1
        };
        assert(fullmove == fen_fullmove(b));
        let ply: usize = 2 * ((fullmove - 1) as usize) + if black {
            1
        } else {
            0
        };
        assert(ply == fen_ply(b));
        self.ctm = if black {
            Color::Black
        } else {
            Color::White
        };
        let placed = self.place_fen_ranks(&ranks);
        match placed {
            Ok(()) => {},
            Err(e) => return Err(e),
        }
        let e = &w[3];
        assert(wv[3] == e@);
        let epsq: Option<SQ> = if e.len() == 1 && e[0] == 45 {
            assert(e@ =~= seq![45u8]);
            None
        } else {
            assert(e@ != seq![45u8]) by {
                if e@ == seq![45u8] {
                    assert(e@.len() == 1);
                }
            }
            if e.len() != 2 {
                return Err("Invalid square.");
            }
            if !(97 <= e[0] && e[0] <= 104) {
                return Err("Invalid file.");
            }
            if !(49 <= e[1] && e[1] <= 56) {
                return Err("Invalid rank.");
            }
            Some(SQ::from_u8((e[1] - 49) * 8 + (e[0] - 97)))
        };
        let half_move_counter: u16 = if w.len() >= 5 {
            assert(wv[4] == w@[4]@);
            assert(w@[4]@.subrange(0, w@[4]@.len() as int) =~= w@[4]@);
            match digits_to_u64(w[4].as_slice(), 0, w[4].len()) {
                Some(v) => {
                    if v > 0xffff {
                        return Err("Invalid half move counter.");
                    }
                    v as u16
                },
                None => return Err("Invalid half move counter."),
            }
        } else {
            0
        };
        assert(half_move_counter == fen_halfmove(b));
        let rights = match CastlingRights::from_letters(w[2].as_slice()) {
            Ok(c) => c,
            Err(e) => return Err(e),
        };
        assert(wv[2] == w@[2]@);
        assert(fen_fields_read(b));
        assert(ply < N_HISTORIES);
        proof {
            if w@[2]@ != seq![45u8] {
                assert(crate::castling::rights_of_letters(w@[2]@) is Some);
            }
        }
        let c = rights.0;
        assert(c == fen_rights(b)->0);
        self.ply = ply;
        self.history.set(
            ply,
            HistoryEntry {
                rights,
                moov: None,
                material_hash: self.material_hash,
                plies_from_null: 0,
                captured: None,
                epsq,
                half_move_counter,
            },
        );
        proof {
            assert forall|k: int| 0 <= k <= self.ply implies (#[trigger] self.history@[k]).rights.bits() < 16 && self.history@[k].plies_from_null <= k by {
                if k != ply {
                    assert(self.history@[k] == HistoryEntry::blank());
                }
            }
        }
        Ok(())
    }

    /// Whether reading `fen` fails on its full move number instead of reporting an error, the
    /// case that `set_fen` leaves out.
    pub fn fen_panics_check(fen: &str) -> (r: bool)
        ensures
            r == fen_panics(fen.spec_bytes(), N_HISTORIES as int),
    {
        let ghost b = fen.spec_bytes();
        let t = trimmed_copy(fen.as_bytes());
        if !is_ascii_line(&t) {
            return false;
        }
        let w = split_words(&t, 0);
        assert(words_view(w@) =~= fen_words(b));
        if !has_fen_shape(&w) {
            return false;
        }
        let ghost wv = words_view(w@);
        assert(wv[0] == w@[0]@ && wv[1] == w@[1]@ && wv[2] == w@[2]@ && wv[3] == w@[3]@);
        let ranks = split_bytes(&w[0], 47);
        if ranks.len() != 8 {
            return false;
        }
        assert(fen_framed(b));
        let black = w[1][0] == 98;
        assert(black == fen_black(b)) by {
            if black {
                assert(wv[1] =~= seq![98u8]);
            }
        }
        let fullmove: u64 = if w.len() == 6 {
            assert(wv[5] == w@[5]@);
            assert(w@[5]@.subrange(0, w@[5]@.len() as int) =~= w@[5]@);
            match digits_to_u64(w[5].as_slice(), 0, w[5].len()) {
                Some(v) => {
                    if v > usize::MAX as u64 {
                        return false;
                    }
                    v
                },
                None => return false,
            }
        } else {
            1
        };
        assert(fullmove == fen_fullmove(b));
        if fullmove == 0 || (fullmove - 1) as usize > usize::MAX / 2 {
            return true;
        }
        let ply: usize = 2 * ((fullmove - 1) as usize) + if black {
            1
        } else {
            0
        };
        assert(ply == fen_ply(b));
        if ply < N_HISTORIES {
            return false;
        }
        let mut scratch = Board::new();
        scratch.clear();
        proof {
            lemma_empty_hash(scratch.squares(), 64);
        }
        let placed = scratch.place_fen_ranks(&ranks);
        if placed.is_err() {
            return false;
        }
        let e = &w[3];
        assert(wv[3] == e@);
        if !(e.len() == 1 && e[0] == 45) {
            assert(e@ != seq![45u8]) by {
                if e@ == seq![45u8] {
                    assert(e@.len() == 1);
                }
            }
            if !(e.len() == 2 && 97 <= e[0] && e[0] <= 104 && 49 <= e[1] && e[1] <= 56) {
                return false;
            }
        } else {
            assert(e@ =~= seq![45u8]);
        }
        if w.len() >= 5 {
            assert(wv[4] == w@[4]@);
            assert(w@[4]@.subrange(0, w@[4]@.len() as int) =~= w@[4]@);
            match digits_to_u64(w[4].as_slice(), 0, w[4].len()) {
                Some(v) => {
                    if v > 0xffff {
                        return false;
                    }
                },
                None => return false,
            }
        }
        assert(wv[2] == w@[2]@);
        match CastlingRights::from_letters(w[2].as_slice()) {
            Ok(_) => {},
            Err(_) => {
                return false;
            },
        }
        proof {
            if w@[2]@ != seq![45u8] {
                assert(crate::castling::rights_of_letters(w@[2]@) is Some);
            }
        }
        true
    }

    /// Whether the position is drawn by the fifty move rule, by bare kings, by a lone minor
    /// piece, or by repetition.
    pub open spec fn draw_spec(&self) -> bool {
        self.current().half_move_counter >= 100 || popcount(self.occupancy()) == 2 || (popcount(self.occupancy()) == 3
            && forall|s: int| !type_on(self.squares(), s, 3) && !type_on(self.squares(), s, 4) && !type_on(self.squares(), s, 0))
            || self.repetition_spec()
    }

    /// Whether side `c` has a bishop or a queen on `a`.
    pub open spec fn diag_slider(&self, a: int, c: Color) -> bool {
        self.holds(a, c, PieceType::Bishop) || self.holds(a, c, PieceType::Queen)
    }

    /// Whether side `c` has a rook or a queen on `a`.
    pub open spec fn orth_slider(&self, a: int, c: Color) -> bool {
        self.holds(a, c, PieceType::Rook) || self.holds(a, c, PieceType::Queen)
    }

    /// Whether `s` stands strictly between the king square `k` and a slider of the side not
    /// to move on `a` that moves along the line of `k` and `a`.
    pub open spec fn slider_line_through(&self, k: int, a: int, s: int) -> bool {
        let them = self.side().other();
        between_sq(k, a, s) && ((self.orth_slider(a, them) && (same_rank(k, a) || same_file(k, a))) || (
        self.diag_slider(a, them) && (same_diag(k, a) || same_anti(k, a))))
    }

    /// Whether no slider of the side not to move has `s` between itself and the king square `k`
    /// on a line it moves along.
    pub open spec fn off_slider_lines(&self, k: int, s: int) -> bool {
        forall|a: int| !#[trigger] self.slider_line_through(k, a, s)
    }

    /// Whether nothing of the side not to move gives check to the king square `k`.
    pub open spec fn no_checker(&self, k: int) -> bool {
        forall|s: int| !#[trigger] self.checker_spec(k, s)
    }

    /// Whether the side not to move has no rook or queen on the rank of the king square `k`.
    pub open spec fn rank_clear(&self, k: int) -> bool {
        forall|a: int| same_rank(k, a) ==> !#[trigger] self.orth_slider(a, self.side().other())
    }

    /// Whether a pawn of the side to move on `f` attacks the en passant square.
    pub open spec fn ep_pawn(&self, f: int) -> bool {
        &&& self.current().epsq is Some
        &&& self.holds(f, self.side(), PieceType::Pawn)
        &&& pawn_sq(f, self.side(), self.current().epsq->0.idx())
    }

    /// Whether the en passant capture from `f` is one that the generator owes: a pawn there
    /// attacks the en passant square, the king is not in check, no slider's line to the king
    /// runs through the pawn, and no rook or queen of the other side stands on the king's rank.
    pub open spec fn ep_owed(&self, f: int) -> bool {
        let k = self.lowest_king(self.side());
        &&& self.ep_pawn(f)
        &&& self.no_checker(k)
        &&& self.off_slider_lines(k, f)
        &&& self.rank_clear(k)
    }

    /// Whether the side not to move attacks `s`, its king standing on `their_king`, when the
    /// squares of `all` are occupied but our king on `our_king` is taken off: the squares our
    /// king may not step to.
    pub open spec fn danger_spec(&self, our_king: int, their_king: int, all: u64, s: int) -> bool {
        let them = self.side().other();
        let no_king = all ^ (1u64 << (our_king as u64));
        ||| exists|a: int| #[trigger] self.holds(a, them, PieceType::Pawn) && pawn_sq(a, them, s)
        ||| king_sq(their_king, s)
        ||| exists|a: int| #[trigger] self.holds(a, them, PieceType::Knight) && knight_sq(a, s)
        ||| exists|a: int| #[trigger] self.diag_slider(a, them) && bishop_sq(a, no_king, s)
        ||| exists|a: int| #[trigger] self.orth_slider(a, them) && rook_sq(a, no_king, s)
    }

    /// The lowest square that holds a king of side `c`.
    pub open spec fn lowest_king(&self, c: Color) -> int {
        choose|k: int| #[trigger] self.holds(k, c, PieceType::King) && forall|j: int| 0 <= j < k ==> !self.holds(j, c, PieceType::King)
    }

    /// Whether the side to move may step with its king, the one on `lowest_king`, to `t`: a
    /// neighbouring square without a piece of its own that the other side does not attack,
    /// the king taken off the board, both sides having a king.
    #[verifier::opaque]
    pub open spec fn safe_king_step(&self, t: int) -> bool {
        let us = self.side();
        &&& self.has_king(us)
        &&& self.has_king(us.other())
        &&& king_sq(self.lowest_king(us), t)
        &&& !color_on(self.squares(), t, us.idx())
        &&& !self.danger_spec(self.lowest_king(us), self.lowest_king(us.other()), self.occupancy(), t)
    }

    /// The kind of a king step to `t`: a capture when `t` holds a piece, else a quiet move.
    pub open spec fn step_flag(&self, t: int) -> int {
        if self.squares()[t] is Some {
            4
        } else {
            0
        }
    }

    /// Whether a piece of the side not to move on `s` checks a king of ours on `k`: a knight or
    /// a pawn that attacks it, or a rook, bishop or queen on an open line to it, nothing
    /// standing between.
    pub open spec fn checker_spec(&self, k: int, s: int) -> bool {
        let us = self.side();
        let them = us.other();
        let them_occ = self.color_bits(them);
        ||| self.holds(s, them, PieceType::Knight) && knight_sq(k, s)
        ||| self.holds(s, them, PieceType::Pawn) && pawn_sq(k, us, s)
        ||| ((rook_sq(k, them_occ, s) && self.orth_slider(s, them)) || (bishop_sq(k, them_occ, s) && self.diag_slider(s, them)))
            && forall|t: int| between_sq(k, s, t) ==> !color_on(self.squares(), t, us.idx())
    }

    /// Whether both kings stand on the board.
    pub fn kings_stand(&self) -> (r: bool)
        requires
            self.wf(),
        ensures
            r == (self.has_king(self.side()) && self.has_king(self.side().other())),
    {
        let us = self.ctm;
        let them = self.ctm.not();
        let ku = self.bitboard_of(us, PieceType::King);
        let kt = self.bitboard_of(them, PieceType::King);
        proof {
            lemma_zero_iff_no_bits(ku.0);
            lemma_zero_iff_no_bits(kt.0);
        }
        if ku.0 == 0 || kt.0 == 0 {
            proof {
                if ku.0 == 0 {
                    assert(!self.has_king(self.side())) by {
                        if self.has_king(self.side()) {
                            let k = choose|k: int| self.holds(k, self.side(), PieceType::King);
                            assert(ku.has(k));
                        }
                    }
                } else {
                    assert(!self.has_king(self.side().other())) by {
                        if self.has_king(self.side().other()) {
                            let k = choose|k: int| self.holds(k, self.side().other(), PieceType::King);
                            assert(kt.has(k));
                        }
                    }
                }
            }
            return false;
        }
        proof {
            let k1 = choose|k: int| 0 <= k < 64 && bit(ku.0, k);
            assert(ku.has(k1));
            let k2 = choose|k: int| 0 <= k < 64 && bit(kt.0, k);
            assert(kt.has(k2));
        }
        true
    }

    /// Whether `push_str` and the moves it finds may be played on this board: both kings
    /// stand, the position is sound, and the history and the move counters have room.
    pub fn push_ready(&self) -> (r: bool)
        requires
            self.wf(),
        ensures
            r == self.push_ready_spec(),
    {
        let us = self.ctm;
        let them = self.ctm.not();
        if !self.kings_stand() {
            return false;
        }
        if !(self.ply + 1 < N_HISTORIES) {
            return false;
        }
        let cur = self.history[self.ply];
        if !(cur.half_move_counter < u16::MAX && cur.plies_from_null < u16::MAX) {
            return false;
        }
        let ep_ok = match cur.epsq {
            None => true,
            Some(e) => {
                let ei = e.index() as i32;
                let v: i32 = match us {
                    Color::White => ei - 8,
                    Color::Black => ei + 8,
                };
                if self.board[e.index()].is_some() || v < 0 || v >= 64 {
                    false
                } else {
                    match self.board[v as usize] {
                        Some(pc) => pc == Piece::make_piece(them, PieceType::Pawn),
                        None => false,
                    }
                }
            },
        };
        let bits = cur.rights.0;
        let (k_right, q_right): (u8, u8) = match us {
            Color::White => (1, 2),
            Color::Black => (4, 8),
        };
        let (king_sq, krook_sq, qrook_sq): (usize, usize, usize) = match us {
            Color::White => (4, 7, 0),
            Color::Black => (60, 63, 56),
        };
        let k_ok = bits & k_right == 0 || (self.board[king_sq].is_some() && self.board[krook_sq].is_some());
        let q_ok = bits & q_right == 0 || (self.board[king_sq].is_some() && self.board[qrook_sq].is_some());
        ep_ok && k_ok && q_ok
    }

    /// Appends, for each square `t` of `targets` from the lowest, the move of kind `flag` from
    /// `t` one step back against `dir`.
    fn push_shifted(&self, moves: &mut MoveList, targets: Bitboard, dir: Direction, flag: MoveFlags, Ghost(q): Ghost<bool>)
        requires
            self.wf(),
            dir.offset() != 0,
            forall|t: int| #[trigger] bit(targets.0, t) ==> 0 <= t - dir.offset() < 64 && self.target_ok(t - dir.offset(), t, flag.code()),
            q ==> flag.code() >= 4,
        ensures
            self.appended_ok(old(moves)@, final(moves)@, q),
    {
        let sqs = targets.squares();
        proof {
            lemma_squares_of(targets.0);
            lemma_appended_none(*self, moves@, q);
        }
        let mut i: usize = 0;
        while i < sqs.len()
            invariant
                self.wf(),
                i <= sqs@.len(),
                dir.offset() != 0,
                sqs@.len() == squares_of(targets.0).len(),
                forall|k: int| 0 <= k < sqs@.len() ==> (#[trigger] sqs@[k]).idx() == squares_of(targets.0)[k],
                forall|k: int| 0 <= k < squares_of(targets.0).len() ==> bit(targets.0, #[trigger] squares_of(targets.0)[k]),
                forall|t: int| #[trigger] bit(targets.0, t) ==> 0 <= t - dir.offset() < 64 && self.target_ok(t - dir.offset(), t, flag.code()),
                q ==> flag.code() >= 4,
                self.appended_ok(old(moves)@, moves@, q),
            decreases sqs@.len() - i,
        {
            let to_sq = sqs[i];
            assert(bit(targets.0, to_sq.idx()));
            let from_sq = to_sq.sub_dir(dir);
            let m = Move::new(from_sq, to_sq, flag);
            proof {
                assert(is_move(m, from_sq.idx(), to_sq.idx(), flag.code()));
                lemma_appended_push(*self, moves@, m, q);
                lemma_appended_trans(*self, old(moves)@, moves@, moves@.push(m), q);
            }
            moves.push(m);
            i = i + 1;
        }
    }

    /// Appends, for each square `t` of `targets` from the lowest, the promotions from `t` one
    /// step back against `dir`, capturing when `capture` holds.
    fn push_promotions_shifted<const QUIESCENCE: bool>(&self, moves: &mut MoveList, targets: Bitboard, dir: Direction, capture: bool)
        requires
            self.wf(),
            forall|t: int| #[trigger] bit(targets.0, t) ==> 0 <= t - dir.offset() < 64 && forall|j: int| 0 <= j < 4 ==> self.target_ok(t - dir.offset(), t, #[trigger] promotion_code(j, capture)),
        ensures
            self.appended_ok(old(moves)@, final(moves)@, QUIESCENCE),
    {
        let sqs = targets.squares();
        proof {
            lemma_squares_of(targets.0);
            lemma_appended_none(*self, moves@, QUIESCENCE);
        }
        let mut i: usize = 0;
        while i < sqs.len()
            invariant
                self.wf(),
                i <= sqs@.len(),
                sqs@.len() == squares_of(targets.0).len(),
                forall|k: int| 0 <= k < sqs@.len() ==> (#[trigger] sqs@[k]).idx() == squares_of(targets.0)[k],
                forall|k: int| 0 <= k < squares_of(targets.0).len() ==> bit(targets.0, #[trigger] squares_of(targets.0)[k]),
                forall|t: int| #[trigger] bit(targets.0, t) ==> 0 <= t - dir.offset() < 64 && forall|j: int| 0 <= j < 4 ==> self.target_ok(t - dir.offset(), t, #[trigger] promotion_code(j, capture)),
                self.appended_ok(old(moves)@, moves@, QUIESCENCE),
            decreases sqs@.len() - i,
        {
            let to_sq = sqs[i];
            assert(bit(targets.0, to_sq.idx()));
            let from_sq = to_sq.sub_dir(dir);
            let ghost before = moves@;
            moves.make_promotions::<QUIESCENCE>(from_sq, to_sq, capture);
            proof {
                let f = from_sq.idx();
                let t = to_sq.idx();
                assert(forall|j: int| 0 <= j < 4 ==> self.target_ok(f, t, #[trigger] promotion_code(j, capture)));
                assert forall|k: int| before.len() <= k < moves@.len() implies self.generated_ok(#[trigger] moves@[k]) && (QUIESCENCE ==> moves@[k].flag_code() >= 4) by {
                    let j = k - before.len();
                    assert(is_move(moves@[before.len() + j], f, t, promotion_code(j, capture)));
                    assert(self.target_ok(f, t, promotion_code(j, capture)));
                }
                lemma_appended_trans(*self, old(moves)@, before, moves@, QUIESCENCE);
            }
            i = i + 1;
        }
    }

    /// Appends the moves of the pawns that are not pinned: pushes, double pushes, captures and
    /// promotions, filtered through the masks of the squares that may be played into.
    fn push_pawn_moves<const QUIESCENCE: bool>(
        &self,
        moves: &mut MoveList,
        all: Bitboard,
        pinned: Bitboard,
        quiet_mask: Bitboard,
        capture_mask: Bitboard,
    )
        requires
            self.wf(),
            all.0 == self.occupancy(),
            forall|s: int| #[trigger] bit(quiet_mask.0, s) ==> 0 <= s < 64 && self.squares()[s] is None,
            forall|s: int| #[trigger] bit(capture_mask.0, s) ==> color_on(self.squares(), s, self.side().other().idx()),
        ensures
            self.appended_ok(old(moves)@, final(moves)@, QUIESCENCE),
    {
        let us = self.ctm;
        let ghost s = self.squares();
        let not_pinned = !pinned.0;
        let r7 = Rank::Seven.relative(us).bb();
        let r3 = Rank::Three.relative(us).bb();
        let up = Direction::North.relative(us);
        let pawns = self.bitboard_of(us, PieceType::Pawn);
        let back_pawns = Bitboard(pawns.0 & not_pinned & !r7.0);
        let sh_up = back_pawns.shift(up);
        let single0 = Bitboard(sh_up.0 & !all.0);
        let sh_r3 = Bitboard(single0.0 & r3.0).shift(up);
        let double = Bitboard(sh_r3.0 & quiet_mask.0);
        let single = Bitboard(single0.0 & quiet_mask.0);
        proof {
            lemma_appended_none(*self, moves@, QUIESCENCE);
            assert(up.offset() == forward(us));
            assert forall|t: int| #[trigger] bit(pawns.0, t) implies self.squares()[t] == Some(piece_of(us, PieceType::Pawn)) by {
                assert(pawns.has(t));
                self.squares()[t]->0.lemma_parts();
            }
        }
        let ghost m0 = moves@;
        if !QUIESCENCE {
            proof {
                assert forall|t: int| #[trigger] bit(single.0, t) implies 0 <= t - up.offset() < 64 && self.target_ok(t - up.offset(), t, 0) by {
                    assert(sh_up.has(t));
                    assert(back_pawns.has(t - up.offset()));
                    assert(pawns.has(t - up.offset()));
                    assert(all.has(t) == (0 <= t < 64 && self.squares()[t] is Some));
                    lemma_quiet_target(*self, t - up.offset(), t);
                }
            }
            self.push_shifted(moves, single, up, MoveFlags::Quiet, Ghost(QUIESCENCE));
            let ghost m1 = moves@;
            let up2 = Direction::NorthNorth.relative(us);
            proof {
                assert(up2.offset() == 2 * forward(us));
                assert forall|t: int| #[trigger] bit(double.0, t) implies 0 <= t - up2.offset() < 64 && self.target_ok(t - up2.offset(), t, 1) by {
                    let t1 = t - up.offset();
                    assert(sh_r3.has(t));
                    assert(single0.has(t1));
                    assert(sh_up.has(t1));
                    assert(back_pawns.has(t1 - up.offset()));
                    assert(pawns.has(t1 - up.offset()));
                    lemma_double_push_target(*self, t - up2.offset(), t);
                }
            }
            self.push_shifted(moves, double, up2, MoveFlags::DoublePush, Ghost(QUIESCENCE));
            proof {
                lemma_appended_trans(*self, m0, m1, moves@, QUIESCENCE);
            }
        }
        let ghost m2 = moves@;
        let west = Direction::NorthWest.relative(us);
        let east = Direction::NorthEast.relative(us);
        let sh_w = back_pawns.shift(west);
        let sh_e = back_pawns.shift(east);
        let cw = Bitboard(sh_w.0 & capture_mask.0);
        let ce = Bitboard(sh_e.0 & capture_mask.0);
        proof {
            assert forall|t: int| #[trigger] bit(cw.0, t) implies 0 <= t - west.offset() < 64 && self.target_ok(t - west.offset(), t, 4) by {
                assert(sh_w.has(t));
                assert(back_pawns.has(t - west.offset()));
                assert(pawns.has(t - west.offset()));
                lemma_capture_target(*self, t - west.offset(), t);
            }
            assert forall|t: int| #[trigger] bit(ce.0, t) implies 0 <= t - east.offset() < 64 && self.target_ok(t - east.offset(), t, 4) by {
                assert(sh_e.has(t));
                assert(back_pawns.has(t - east.offset()));
                assert(pawns.has(t - east.offset()));
                lemma_capture_target(*self, t - east.offset(), t);
            }
        }
        self.push_shifted(moves, cw, west, MoveFlags::Capture, Ghost(QUIESCENCE));
        let ghost m3 = moves@;
        self.push_shifted(moves, ce, east, MoveFlags::Capture, Ghost(QUIESCENCE));
        proof {
            lemma_appended_trans(*self, m2, m3, moves@, QUIESCENCE);
            lemma_appended_trans(*self, m0, m2, moves@, QUIESCENCE);
        }
        let seventh = Bitboard(pawns.0 & not_pinned & r7.0);
        if seventh.0 != 0 {
            let ghost m4 = moves@;
            let s_up = seventh.shift(up);
            let s_w = seventh.shift(west);
            let s_e = seventh.shift(east);
            let qp = Bitboard(s_up.0 & quiet_mask.0);
            let pw = Bitboard(s_w.0 & capture_mask.0);
            let pe = Bitboard(s_e.0 & capture_mask.0);
            proof {
                assert forall|t: int| #[trigger] bit(qp.0, t) implies 0 <= t - up.offset() < 64 && forall|j: int| 0 <= j < 4 ==> self.target_ok(t - up.offset(), t, #[trigger] promotion_code(j, false)) by {
                    assert(s_up.has(t));
                    assert(seventh.has(t - up.offset()));
                    assert(pawns.has(t - up.offset()));
                    lemma_promotion_targets(*self, t - up.offset(), t, false);
                }
                assert forall|t: int| #[trigger] bit(pw.0, t) implies 0 <= t - west.offset() < 64 && forall|j: int| 0 <= j < 4 ==> self.target_ok(t - west.offset(), t, #[trigger] promotion_code(j, true)) by {
                    assert(s_w.has(t));
                    assert(seventh.has(t - west.offset()));
                    assert(pawns.has(t - west.offset()));
                    lemma_promotion_targets(*self, t - west.offset(), t, true);
                }
                assert forall|t: int| #[trigger] bit(pe.0, t) implies 0 <= t - east.offset() < 64 && forall|j: int| 0 <= j < 4 ==> self.target_ok(t - east.offset(), t, #[trigger] promotion_code(j, true)) by {
                    assert(s_e.has(t));
                    assert(seventh.has(t - east.offset()));
                    assert(pawns.has(t - east.offset()));
                    lemma_promotion_targets(*self, t - east.offset(), t, true);
                }
            }
            self.push_promotions_shifted::<QUIESCENCE>(moves, qp, up, false);
            let ghost m5 = moves@;
            self.push_promotions_shifted::<QUIESCENCE>(moves, pw, west, true);
            let ghost m6 = moves@;
            self.push_promotions_shifted::<QUIESCENCE>(moves, pe, east, true);
            proof {
                lemma_appended_trans(*self, m5, m6, moves@, QUIESCENCE);
                lemma_appended_trans(*self, m4, m5, moves@, QUIESCENCE);
                lemma_appended_trans(*self, old(moves)@, m4, moves@, QUIESCENCE);
            }
        }
    }

    /// Appends the castling moves that the rights allow with their path empty and the king's
    /// path out of `danger`; none in quiescence.
    fn push_castling_moves<const QUIESCENCE: bool>(&self, moves: &mut MoveList, all: Bitboard, danger: Bitboard)
        requires
            self.wf(),
            all.0 == self.occupancy(),
        ensures
            self.appended_ok(old(moves)@, final(moves)@, QUIESCENCE),
    {
        proof {
            lemma_appended_none(*self, moves@, QUIESCENCE);
        }
        if QUIESCENCE {
            return;
        }
        let us = self.ctm;
        let rights = self.history[self.ply].rights;
        let oo_path = CastlingRights::oo_path(us);
        if rights.contains(CastlingRights::oo(us)) && all.0 & oo_path.0 == 0 && danger.0 & CastlingRights::oo_king_path(us).0 == 0 {
            let m = match us {
                Color::White => Move::new(SQ::E1, SQ::G1, MoveFlags::OO),
                Color::Black => Move::new(SQ::E8, SQ::G8, MoveFlags::OO),
            };
            proof {
                let p = oo_path.0;
                assert(bit(p, rel(5, us)) && bit(p, rel(6, us))) by {
                    lemma_castling_path_bits();
                }
                assert(!bit(all.0 & p, rel(5, us)) && !bit(all.0 & p, rel(6, us)));
                assert(rights == self.current().rights);
                assert(all.has(rel(5, us)) == (self.squares()[rel(5, us)] is Some));
                assert(all.has(rel(6, us)) == (self.squares()[rel(6, us)] is Some));
                assert(self.generated_ok(m));
                lemma_appended_push(*self, moves@, m, QUIESCENCE);
            }
            moves.push(m);
        }
        let ghost m1 = moves@;
        let ooo_path = CastlingRights::ooo_path(us);
        if rights.contains(CastlingRights::ooo(us)) && all.0 & ooo_path.0 == 0 && danger.0 & CastlingRights::ooo_king_path(us).0 == 0 {
            let m = match us {
                Color::White => Move::new(SQ::E1, SQ::C1, MoveFlags::OOO),
                Color::Black => Move::new(SQ::E8, SQ::C8, MoveFlags::OOO),
            };
            proof {
                let p = ooo_path.0;
                assert(bit(p, rel(2, us)) && bit(p, rel(3, us))) by {
                    lemma_castling_path_bits();
                }
                assert(!bit(all.0 & p, rel(2, us)) && !bit(all.0 & p, rel(3, us)));
                assert(rights == self.current().rights);
                assert(all.has(rel(2, us)) == (self.squares()[rel(2, us)] is Some));
                assert(all.has(rel(3, us)) == (self.squares()[rel(3, us)] is Some));
                assert(self.generated_ok(m));
                lemma_appended_push(*self, moves@, m, QUIESCENCE);
                lemma_appended_trans(*self, old(moves)@, m1, moves@.push(m), QUIESCENCE);
            }
            moves.push(m);
        }
    }

    /// Appends the en passant captures: those of pawns that are not pinned, unless taking both
    /// pawns off the king's rank would open it to a rook or queen, and that of a pawn pinned along
    /// the line of the en passant square and the king.
    fn push_ep_moves(&self, moves: &mut MoveList, all: Bitboard, pinned: Bitboard, our_king: SQ)
        requires
            self.wf(),
            all.0 == self.occupancy(),
        ensures
            self.appended_ok(old(moves)@, final(moves)@, true),
            forall|f: int| #[trigger] self.ep_pawn(f) && !bit(pinned.0, f) && self.rank_clear(our_king.idx()) ==> exists|j: int|
                old(moves)@.len() <= j < final(moves)@.len() && is_move(final(moves)@[j], f, self.current().epsq->0.idx(), 5),
    {
        proof {
            lemma_appended_none(*self, moves@, true);
        }
        let epsq = match self.history[self.ply].epsq {
            Some(e) => e,
            None => return,
        };
        let us = self.ctm;
        let them = us.not();
        let pawns = self.bitboard_of(us, PieceType::Pawn);
        let pa_ep = pawn_attacks_sq(epsq, them);
        let epsq_attackers = Bitboard(pa_ep.0 & pawns.0);
        let unpinned = Bitboard(epsq_attackers.0 & !pinned.0);
        let sqs = unpinned.squares();
        let them_orth = self.orthogonal_sliders_c(them);
        let behind = epsq.bb().shift(Direction::South.relative(us));
        let king_rank = our_king.rank().bb();
        proof {
            lemma_squares_of(unpinned.0);
            assert forall|t: int| #[trigger] bit(unpinned.0, t) implies color_on(self.squares(), t, us.idx()) by {
                assert(epsq_attackers.has(t));
                assert(pawns.has(t));
            }
            assert forall|t: int| #[trigger] bit(unpinned.0, t) implies self.squares()[t] == Some(piece_of(us, PieceType::Pawn)) by {
                assert(epsq_attackers.has(t));
                assert(pawns.has(t));
                self.squares()[t]->0.lemma_parts();
            }
            assert forall|t: int| #[trigger] bit(unpinned.0, t) implies pawn_sq(t, us, epsq.idx()) by {
                assert(epsq_attackers.has(t));
                assert(pa_ep.has(t));
                assert(them.other() == us);
                lemma_pawn_sym(epsq.idx(), them, t);
            }
        }
        let mut i: usize = 0;
        while i < sqs.len()
            invariant
                self.wf(),
                i <= sqs@.len(),
                us == self.side(),
                self.current().epsq == Some(epsq),
                sqs@.len() == squares_of(unpinned.0).len(),
                forall|k: int| 0 <= k < sqs@.len() ==> (#[trigger] sqs@[k]).idx() == squares_of(unpinned.0)[k],
                forall|k: int| 0 <= k < squares_of(unpinned.0).len() ==> bit(unpinned.0, #[trigger] squares_of(unpinned.0)[k]),
                forall|t: int| #[trigger] bit(unpinned.0, t) ==> color_on(self.squares(), t, us.idx()),
                forall|t: int| #[trigger] bit(unpinned.0, t) ==> pawn_sq(t, us, epsq.idx()),
                forall|t: int| #[trigger] bit(unpinned.0, t) ==> self.squares()[t] == Some(piece_of(us, PieceType::Pawn)),
                self.appended_ok(old(moves)@, moves@, true),
                forall|t: int| #[trigger] bit(king_rank.0, t) <==> 0 <= t < 64 && t / 8 == our_king.idx() / 8,
                forall|t: int| #[trigger] them_orth.has(t) == self.orth_slider(t, us.other()),
                self.rank_clear(our_king.idx()) ==> forall|k: int| 0 <= k < i ==> exists|j: int|
                    old(moves)@.len() <= j < moves@.len() && is_move(moves@[j], #[trigger] sqs@[k].idx(), epsq.idx(), 5),
            decreases sqs@.len() - i,
        {
            let sq = sqs[i];
            assert(bit(unpinned.0, sq.idx()));
            let ghost before = moves@;
            let occ = Bitboard(all.0 ^ sq.bb().0 ^ behind.0);
            let att = rook_attacks(our_king, occ).0 & king_rank.0;
            if att & them_orth.0 == 0 {
                let m = Move::new(sq, epsq, MoveFlags::EnPassant);
                proof {
                    lemma_ep_target(*self, sq.idx(), epsq.idx());
                    assert(is_move(m, sq.idx(), epsq.idx(), 5));
                    lemma_appended_push(*self, moves@, m, true);
                    lemma_appended_trans(*self, old(moves)@, moves@, moves@.push(m), true);
                }
                moves.push(m);
                proof {
                    if self.rank_clear(our_king.idx()) {
                        assert forall|k: int| 0 <= k < i + 1 implies exists|j: int|
                            old(moves)@.len() <= j < moves@.len() && is_move(moves@[j], #[trigger] sqs@[k].idx(), epsq.idx(), 5) by {
                            if k == i {
                                assert(is_move(moves@[before.len() as int], sqs@[k].idx(), epsq.idx(), 5));
                            } else {
                                let j = choose|j: int| old(moves)@.len() <= j < before.len() && is_move(before[j], sqs@[k].idx(), epsq.idx(), 5);
                                assert(moves@[j] == before[j]);
                            }
                        }
                    }
                }
            } else {
                proof {
                    if self.rank_clear(our_king.idx()) {
                        broadcast use crate::bitboard::lemma_bit_and;
                        lemma_zero_iff_no_bits(att & them_orth.0);
                        let t = choose|t: int| 0 <= t < 64 && bit(att & them_orth.0, t);
                        assert(bit(king_rank.0, t));
                        assert(them_orth.has(t));
                        assert(same_rank(our_king.idx(), t));
                        assert(false);
                    }
                }
            }
            i = i + 1;
        }
        let ghost after_loop = moves@;
        proof {
            if self.rank_clear(our_king.idx()) {
                assert forall|f: int| #[trigger] self.ep_pawn(f) && !bit(pinned.0, f) implies exists|j: int|
                    old(moves)@.len() <= j < moves@.len() && is_move(moves@[j], f, epsq.idx(), 5) by {
                    assert(pawn_sq(f, us, epsq.idx()));
                    lemma_pawn_sym(f, us, epsq.idx());
                    assert(pa_ep.has(f));
                    assert(pawns.has(f));
                    assert(bit(unpinned.0, f));
                    let k = choose|k: int| 0 <= k < squares_of(unpinned.0).len() && #[trigger] squares_of(unpinned.0)[k] == f;
                    assert(sqs@[k].idx() == f);
                }
            }
        }
        let pinned_attackers = Bitboard(epsq_attackers.0 & pinned.0 & Bitboard::line(epsq, our_king).0);
        if pinned_attackers.0 != 0 {
            let from_sq = pinned_attackers.lsb();
            let m = Move::new(from_sq, epsq, MoveFlags::EnPassant);
            proof {
                assert(pinned_attackers.has(from_sq.idx()));
                assert(pawns.has(from_sq.idx()));
                self.squares()[from_sq.idx()]->0.lemma_parts();
                assert(epsq_attackers.has(from_sq.idx()));
                assert(pa_ep.has(from_sq.idx()));
                assert(them.other() == us);
                lemma_pawn_sym(epsq.idx(), them, from_sq.idx());
                lemma_ep_target(*self, from_sq.idx(), epsq.idx());
                assert(is_move(m, from_sq.idx(), epsq.idx(), 5));
                lemma_appended_push(*self, moves@, m, true);
                lemma_appended_trans(*self, old(moves)@, moves@, moves@.push(m), true);
            }
            moves.push(m);
            proof {
                assert forall|f: int| #[trigger] self.ep_pawn(f) && !bit(pinned.0, f) && self.rank_clear(our_king.idx()) implies exists|j: int|
                    old(moves)@.len() <= j < moves@.len() && is_move(moves@[j], f, epsq.idx(), 5) by {
                    let j = choose|j: int| old(moves)@.len() <= j < after_loop.len() && is_move(after_loop[j], f, epsq.idx(), 5);
                    assert(moves@[j] == after_loop[j]);
                }
            }
        }
    }

    /// Appends, for each piece of `sources` from the lowest, its captures into `capture_mask`
    /// and, out of quiescence, its moves into `quiet_mask`, attacking as a knight (`lines == 0`),
    /// along diagonals (`lines == 1`) or along ranks and files (`lines == 2`).
    fn push_attack_moves<const QUIESCENCE: bool>(
        &self,
        moves: &mut MoveList,
        sources: Bitboard,
        lines: u8,
        all: Bitboard,
        quiet_mask: Bitboard,
        capture_mask: Bitboard,
    )
        requires
            self.wf(),
            lines < 3,
            all.0 == self.occupancy(),
            forall|s: int| #[trigger] bit(sources.0, s) ==> color_on(self.squares(), s, self.side().idx()),
            forall|s: int| #[trigger] bit(sources.0, s) ==> slides_as_piece(self.squares()[s], lines),
            forall|s: int| #[trigger] bit(quiet_mask.0, s) ==> 0 <= s < 64 && self.squares()[s] is None,
            forall|s: int| #[trigger] bit(capture_mask.0, s) ==> color_on(self.squares(), s, self.side().other().idx()),
        ensures
            self.appended_ok(old(moves)@, final(moves)@, QUIESCENCE),
    {
        let sqs = sources.squares();
        proof {
            lemma_squares_of(sources.0);
            lemma_appended_none(*self, moves@, QUIESCENCE);
        }
        let mut i: usize = 0;
        while i < sqs.len()
            invariant
                self.wf(),
                lines < 3,
                all.0 == self.occupancy(),
                forall|s: int| #[trigger] bit(sources.0, s) ==> slides_as_piece(self.squares()[s], lines),
                i <= sqs@.len(),
                sqs@.len() == squares_of(sources.0).len(),
                forall|k: int| 0 <= k < sqs@.len() ==> (#[trigger] sqs@[k]).idx() == squares_of(sources.0)[k],
                forall|k: int| 0 <= k < squares_of(sources.0).len() ==> bit(sources.0, #[trigger] squares_of(sources.0)[k]),
                forall|s: int| #[trigger] bit(sources.0, s) ==> color_on(self.squares(), s, self.side().idx()),
                forall|s: int| #[trigger] bit(quiet_mask.0, s) ==> 0 <= s < 64 && self.squares()[s] is None,
                forall|s: int| #[trigger] bit(capture_mask.0, s) ==> color_on(self.squares(), s, self.side().other().idx()),
                self.appended_ok(old(moves)@, moves@, QUIESCENCE),
            decreases sqs@.len() - i,
        {
            let sq = sqs[i];
            assert(bit(sources.0, sq.idx()));
            let att = if lines == 0 {
                knight_attacks(sq)
            } else if lines == 1 {
                bishop_attacks(sq, all)
            } else {
                rook_attacks(sq, all)
            };
            assert(!att.has(sq.idx()));
            let caps = Bitboard(att.0 & capture_mask.0);
            let ghost m0 = moves@;
            moves.make_c(sq, caps);
            proof {
                assert forall|t: int| bit(caps.0, t) implies self.target_ok(sq.idx(), t, 4) by {
                    assert(att.has(t));
                    lemma_capture_target(*self, sq.idx(), t);
                }
                lemma_targets(*self, m0, moves@, sq.idx(), caps.0, 4, QUIESCENCE);
                lemma_appended_trans(*self, old(moves)@, m0, moves@, QUIESCENCE);
            }
            if !QUIESCENCE {
                let quiets = Bitboard(att.0 & quiet_mask.0);
                let ghost m1 = moves@;
                moves.make_q(sq, quiets);
                proof {
                    assert forall|t: int| bit(quiets.0, t) implies self.target_ok(sq.idx(), t, 0) by {
                        assert(att.has(t));
                        lemma_quiet_target(*self, sq.idx(), t);
                    }
                    lemma_targets(*self, m1, moves@, sq.idx(), quiets.0, 0, QUIESCENCE);
                    lemma_appended_trans(*self, old(moves)@, m1, moves@, QUIESCENCE);
                }
            }
            i = i + 1;
        }
    }

    /// Appends the moves of the pinned pieces, which may only move along the line of their
    /// king and their pinner; a pinned knight never moves.
    fn push_pinned_moves<const QUIESCENCE: bool>(
        &self,
        moves: &mut MoveList,
        all: Bitboard,
        pinned: Bitboard,
        our_king: SQ,
        quiet_mask: Bitboard,
        capture_mask: Bitboard,
    )
        requires
            self.wf(),
            all.0 == self.occupancy(),
            forall|s: int| #[trigger] bit(pinned.0, s) ==> color_on(self.squares(), s, self.side().idx()),
            forall|s: int| #[trigger] bit(quiet_mask.0, s) ==> 0 <= s < 64 && self.squares()[s] is None,
            forall|s: int| #[trigger] bit(capture_mask.0, s) ==> color_on(self.squares(), s, self.side().other().idx()),
        ensures
            self.appended_ok(old(moves)@, final(moves)@, QUIESCENCE),
    {
        let us = self.ctm;
        let them_bb = self.all_pieces_c(us.not());
        let knights = self.bitboard_of(us, PieceType::Knight);
        let pawns = self.bitboard_of(us, PieceType::Pawn);
        let pinned_pieces = Bitboard(pinned.0 & !(knights.0 | pawns.0));
        let sqs = pinned_pieces.squares();
        proof {
            lemma_squares_of(pinned_pieces.0);
            lemma_appended_none(*self, moves@, QUIESCENCE);
        }
        let mut i: usize = 0;
        while i < sqs.len()
            invariant
                self.wf(),
                us == self.side(),
                all.0 == self.occupancy(),
                pinned_pieces.0 == pinned.0 & !(knights.0 | pawns.0),
                i <= sqs@.len(),
                sqs@.len() == squares_of(pinned_pieces.0).len(),
                forall|k: int| 0 <= k < sqs@.len() ==> (#[trigger] sqs@[k]).idx() == squares_of(pinned_pieces.0)[k],
                forall|k: int| 0 <= k < squares_of(pinned_pieces.0).len() ==> bit(pinned_pieces.0, #[trigger] squares_of(pinned_pieces.0)[k]),
                forall|s: int| #[trigger] bit(pinned.0, s) ==> color_on(self.squares(), s, self.side().idx()),
                forall|s: int| #[trigger] bit(quiet_mask.0, s) ==> 0 <= s < 64 && self.squares()[s] is None,
                forall|s: int| #[trigger] bit(capture_mask.0, s) ==> color_on(self.squares(), s, self.side().other().idx()),
                self.appended_ok(old(moves)@, moves@, QUIESCENCE),
            decreases sqs@.len() - i,
        {
            let sq = sqs[i];
            assert(bit(pinned_pieces.0, sq.idx()));
            assert(bit(pinned.0, sq.idx()));
            let pt = match self.piece_type_at(sq) {
                Some(pt) => pt,
                None => {
                    assert(false);
                    PieceType::Queen
                },
            };
            let att = attacks(pt, sq, all);
            assert(!att.has(sq.idx())) by {
                assert(att.has(sq.idx()) == match pt {
                    PieceType::Pawn => false,
                    PieceType::Knight => knight_sq(sq.idx(), sq.idx()),
                    PieceType::Bishop => bishop_sq(sq.idx(), all.0, sq.idx()),
                    PieceType::Rook => rook_sq(sq.idx(), all.0, sq.idx()),
                    PieceType::Queen => bishop_sq(sq.idx(), all.0, sq.idx()) || rook_sq(sq.idx(), all.0, sq.idx()),
                    PieceType::King => king_sq(sq.idx(), sq.idx()),
                });
            }
            let along = Bitboard(att.0 & Bitboard::line(our_king, sq).0);
            assert(!along.has(sq.idx()));
            if !QUIESCENCE {
                let quiets = Bitboard(along.0 & quiet_mask.0);
                let ghost m1 = moves@;
                moves.make_q(sq, quiets);
                proof {
                    assert forall|t: int| bit(quiets.0, t) implies self.target_ok(sq.idx(), t, 0) by {
                        assert(along.has(t));
                        assert(att.has(t));
                        lemma_quiet_target(*self, sq.idx(), t);
                    }
                    lemma_targets(*self, m1, moves@, sq.idx(), quiets.0, 0, QUIESCENCE);
                    lemma_appended_trans(*self, old(moves)@, m1, moves@, QUIESCENCE);
                }
            }
            let caps = Bitboard(along.0 & capture_mask.0);
            let ghost m0 = moves@;
            moves.make_c(sq, caps);
            proof {
                assert forall|t: int| bit(caps.0, t) implies self.target_ok(sq.idx(), t, 4) by {
                    assert(along.has(t));
                    assert(att.has(t));
                    lemma_capture_target(*self, sq.idx(), t);
                }
                lemma_targets(*self, m0, moves@, sq.idx(), caps.0, 4, QUIESCENCE);
                lemma_appended_trans(*self, old(moves)@, m0, moves@, QUIESCENCE);
            }
            i = i + 1;
        }
        let ghost mid = moves@;
        let pinned_pawns = Bitboard(pinned.0 & pawns.0);
        let psqs = pinned_pawns.squares();
        let r7 = Rank::Seven.relative(us);
        let r3 = Rank::Three.relative(us).bb();
        let up = Direction::North.relative(us);
        proof {
            lemma_squares_of(pinned_pawns.0);
            assert(up.offset() == forward(us));
        }
        let mut j: usize = 0;
        while j < psqs.len()
            invariant
                self.wf(),
                us == self.side(),
                all.0 == self.occupancy(),
                up.offset() == forward(us),
                r7.idx() == (if us == Color::White { 6int } else { 1 }),
                forall|i: int| #[trigger] bit(r3.0, i) <==> 0 <= i < 64 && i / 8 == (if us == Color::White { 2int } else { 5 }),
                forall|s: int| #[trigger] them_bb.has(s) == color_on(self.squares(), s, us.other().idx()),
                forall|s: int| #[trigger] pawns.has(s) == self.holds(s, us, PieceType::Pawn),
                j <= psqs@.len(),
                psqs@.len() == squares_of(pinned_pawns.0).len(),
                forall|k: int| 0 <= k < psqs@.len() ==> (#[trigger] psqs@[k]).idx() == squares_of(pinned_pawns.0)[k],
                forall|k: int| 0 <= k < squares_of(pinned_pawns.0).len() ==> bit(pinned_pawns.0, #[trigger] squares_of(pinned_pawns.0)[k]),
                forall|s: int| #[trigger] bit(pinned_pawns.0, s) ==> pawns.has(s),
                forall|s: int| #[trigger] bit(capture_mask.0, s) ==> color_on(self.squares(), s, self.side().other().idx()),
                self.appended_ok(old(moves)@, moves@, QUIESCENCE),
            decreases psqs@.len() - j,
        {
            let sq = psqs[j];
            assert(bit(pinned_pawns.0, sq.idx()));
            assert(pawns.has(sq.idx()));
            proof {
                self.squares()[sq.idx()]->0.lemma_parts();
            }
            let pa = pawn_attacks_sq(sq, us);
            if sq.rank() == r7 {
                let targets = Bitboard(pa.0 & capture_mask.0 & Bitboard::line(our_king, sq).0);
                let ghost m0 = moves@;
                moves.make_pc(sq, targets);
                proof {
                    lemma_squares_of(targets.0);
                    assert forall|k: int| m0.len() <= k < moves@.len() implies self.generated_ok(#[trigger] moves@[k]) && (QUIESCENCE ==> moves@[k].flag_code() >= 4) by {
                        let d = k - m0.len();
                        let a = d / 4;
                        let b = d % 4;
                        assert(k == m0.len() + 4 * a + b);
                        assert(is_move(moves@[m0.len() + 4 * a + b], sq.idx(), squares_of(targets.0)[a], promotion_code(b, true)));
                        let t = squares_of(targets.0)[a];
                        assert(bit(targets.0, t));
                        assert(pa.has(t));
                        lemma_promotion_targets(*self, sq.idx(), t, true);
                        assert(self.target_ok(sq.idx(), t, promotion_code(b, true)));
                    }
                    lemma_appended_trans(*self, old(moves)@, m0, moves@, QUIESCENCE);
                }
            } else {
                let caps = Bitboard(pa.0 & them_bb.0 & Bitboard::line(sq, our_king).0);
                let ghost m0 = moves@;
                moves.make_c(sq, caps);
                proof {
                    assert forall|t: int| bit(caps.0, t) implies self.target_ok(sq.idx(), t, 4) by {
                        assert(them_bb.has(t));
                        assert(pa.has(t));
                        lemma_capture_target(*self, sq.idx(), t);
                    }
                    lemma_targets(*self, m0, moves@, sq.idx(), caps.0, 4, QUIESCENCE);
                    lemma_appended_trans(*self, old(moves)@, m0, moves@, QUIESCENCE);
                }
                if !QUIESCENCE {
                    let line = Bitboard::line(our_king, sq);
                    let ahead = sq.bb().shift(up);
                    let single = Bitboard(ahead.0 & !all.0 & line.0);
                    let ahead2 = Bitboard(single.0 & r3.0).shift(up);
                    let double = Bitboard(ahead2.0 & !all.0 & line.0);
                    proof {
                        assert(!single.has(sq.idx()));
                    }
                    let ghost m1 = moves@;
                    moves.make_q(sq, single);
                    proof {
                        assert forall|t: int| bit(single.0, t) implies self.target_ok(sq.idx(), t, 0) by {
                            assert(ahead.has(t));
                            lemma_quiet_target(*self, sq.idx(), t);
                        }
                        lemma_targets(*self, m1, moves@, sq.idx(), single.0, 0, QUIESCENCE);
                        lemma_appended_trans(*self, old(moves)@, m1, moves@, QUIESCENCE);
                    }
                    let ghost m2 = moves@;
                    moves.make_dp(sq, double);
                    proof {
                        assert forall|t: int| bit(double.0, t) implies self.target_ok(sq.idx(), t, 1) by {
                            assert(ahead2.has(t));
                            assert(single.has(t - up.offset()));
                            assert(ahead.has(t - up.offset()));
                            lemma_double_push_target(*self, sq.idx(), t);
                        }
                        lemma_targets(*self, m2, moves@, sq.idx(), double.0, 1, QUIESCENCE);
                        lemma_appended_trans(*self, old(moves)@, m2, moves@, QUIESCENCE);
                    }
                }
            }
            j = j + 1;
        }
    }

    /// The squares that the side not to move attacks, looking through our king so that it
    /// cannot step back along a slider's line.
    fn danger_squares(&self, our_king: SQ, their_king: SQ, all: Bitboard) -> (r: Bitboard)
        requires
            self.wf(),
        ensures
            forall|s: int| #[trigger] r.has(s) == self.danger_spec(our_king.idx(), their_king.idx(), all.0, s),
    {
        let them = self.ctm.not();
        let pawns = self.bitboard_of(them, PieceType::Pawn);
        let pa = pawn_attacks_bb(pawns, them);
        let ka = king_attacks(their_king);
        let mut danger = pa.0 | ka.0;
        let no_king = Bitboard(all.0 ^ our_king.bb().0);
        let ghost nk = no_king.0;
        proof {
            assert(nk == all.0 ^ (1u64 << (our_king.idx() as u64)));
        }
        let kb = self.bitboard_of(them, PieceType::Knight);
        let knights = kb.squares();
        let mut i: usize = 0;
        while i < knights.len()
            invariant
                i <= knights@.len(),
                forall|k: int| 0 <= k < knights@.len() ==> kb.has((#[trigger] knights@[k]).idx()),
                forall|a: int| kb.has(a) ==> exists|k: int| 0 <= k < knights@.len() && (#[trigger] knights@[k]).idx() == a,
                forall|a: int| #[trigger] kb.has(a) == self.holds(a, them, PieceType::Knight),
                forall|s: int| #[trigger] bit(danger, s) == (pa.has(s) || ka.has(s) || exists|k: int|
                    0 <= k < i && knight_sq((#[trigger] knights@[k]).idx(), s)),
            decreases knights@.len() - i,
        {
            let att = knight_attacks(knights[i]);
            let ghost old_d = danger;
            danger = danger | att.0;
            proof {
                assert forall|s: int| #[trigger] bit(danger, s) == (pa.has(s) || ka.has(s) || exists|k: int|
                    0 <= k < i + 1 && knight_sq((#[trigger] knights@[k]).idx(), s)) by {
                    lemma_bit_or(old_d, att.0, s);
                    assert(att.has(s) == knight_sq(knights@[i as int].idx(), s));
                    if exists|k: int| 0 <= k < i + 1 && knight_sq((#[trigger] knights@[k]).idx(), s) {
                        let k = choose|k: int| 0 <= k < i + 1 && knight_sq((#[trigger] knights@[k]).idx(), s);
                        if k < i {
                            assert(bit(old_d, s));
                        }
                    }
                }
            }
            i = i + 1;
        }
        let ghost d1 = danger;
        let db = self.diagonal_sliders_c(them);
        let diag = db.squares();
        let mut j: usize = 0;
        while j < diag.len()
            invariant
                j <= diag@.len(),
                forall|k: int| 0 <= k < diag@.len() ==> db.has((#[trigger] diag@[k]).idx()),
                forall|a: int| db.has(a) ==> exists|k: int| 0 <= k < diag@.len() && (#[trigger] diag@[k]).idx() == a,
                forall|s: int| #[trigger] bit(danger, s) == (bit(d1, s) || exists|k: int|
                    0 <= k < j && bishop_sq((#[trigger] diag@[k]).idx(), nk, s)),
                no_king.0 == nk,
            decreases diag@.len() - j,
        {
            let att = bishop_attacks(diag[j], no_king);
            let ghost old_d = danger;
            danger = danger | att.0;
            proof {
                assert forall|s: int| #[trigger] bit(danger, s) == (bit(d1, s) || exists|k: int|
                    0 <= k < j + 1 && bishop_sq((#[trigger] diag@[k]).idx(), nk, s)) by {
                    lemma_bit_or(old_d, att.0, s);
                    assert(att.has(s) == bishop_sq(diag@[j as int].idx(), nk, s));
                    if exists|k: int| 0 <= k < j + 1 && bishop_sq((#[trigger] diag@[k]).idx(), nk, s) {
                        let k = choose|k: int| 0 <= k < j + 1 && bishop_sq((#[trigger] diag@[k]).idx(), nk, s);
                        if k < j {
                            assert(bit(old_d, s));
                        }
                    }
                }
            }
            j = j + 1;
        }
        let ghost d2 = danger;
        let ob = self.orthogonal_sliders_c(them);
        let orth = ob.squares();
        let mut k: usize = 0;
        while k < orth.len()
            invariant
                k <= orth@.len(),
                forall|x: int| 0 <= x < orth@.len() ==> ob.has((#[trigger] orth@[x]).idx()),
                forall|a: int| ob.has(a) ==> exists|x: int| 0 <= x < orth@.len() && (#[trigger] orth@[x]).idx() == a,
                forall|s: int| #[trigger] bit(danger, s) == (bit(d2, s) || exists|x: int|
                    0 <= x < k && rook_sq((#[trigger] orth@[x]).idx(), nk, s)),
                no_king.0 == nk,
            decreases orth@.len() - k,
        {
            let att = rook_attacks(orth[k], no_king);
            let ghost old_d = danger;
            danger = danger | att.0;
            proof {
                assert forall|s: int| #[trigger] bit(danger, s) == (bit(d2, s) || exists|x: int|
                    0 <= x < k + 1 && rook_sq((#[trigger] orth@[x]).idx(), nk, s)) by {
                    lemma_bit_or(old_d, att.0, s);
                    assert(att.has(s) == rook_sq(orth@[k as int].idx(), nk, s));
                    if exists|x: int| 0 <= x < k + 1 && rook_sq((#[trigger] orth@[x]).idx(), nk, s) {
                        let x = choose|x: int| 0 <= x < k + 1 && rook_sq((#[trigger] orth@[x]).idx(), nk, s);
                        if x < k {
                            assert(bit(old_d, s));
                        }
                    }
                }
            }
            k = k + 1;
        }
        proof {
            assert forall|s: int| #[trigger] bit(danger, s) == self.danger_spec(our_king.idx(), their_king.idx(), all.0, s) by {
                assert(ka.has(s) == king_sq(their_king.idx(), s));
                if pa.has(s) {
                    let a = choose|a: int| #[trigger] pawns.has(a) && pawn_sq(a, them, s);
                    assert(self.holds(a, them, PieceType::Pawn) && pawn_sq(a, them, s));
                }
                if exists|a: int| #[trigger] self.holds(a, them, PieceType::Pawn) && pawn_sq(a, them, s) {
                    let a = choose|a: int| #[trigger] self.holds(a, them, PieceType::Pawn) && pawn_sq(a, them, s);
                    assert(pawns.has(a));
                }
                if exists|x: int| 0 <= x < knights@.len() && knight_sq((#[trigger] knights@[x]).idx(), s) {
                    let x = choose|x: int| 0 <= x < knights@.len() && knight_sq((#[trigger] knights@[x]).idx(), s);
                    assert(self.holds(knights@[x].idx(), them, PieceType::Knight));
                }
                if exists|a: int| #[trigger] self.holds(a, them, PieceType::Knight) && knight_sq(a, s) {
                    let a = choose|a: int| #[trigger] self.holds(a, them, PieceType::Knight) && knight_sq(a, s);
                    assert(kb.has(a));
                    let x = choose|x: int| 0 <= x < knights@.len() && (#[trigger] knights@[x]).idx() == a;
                    assert(knight_sq(knights@[x].idx(), s));
                }
                if exists|x: int| 0 <= x < diag@.len() && bishop_sq((#[trigger] diag@[x]).idx(), nk, s) {
                    let x = choose|x: int| 0 <= x < diag@.len() && bishop_sq((#[trigger] diag@[x]).idx(), nk, s);
                    assert(db.has(diag@[x].idx()));
                    assert(self.diag_slider(diag@[x].idx(), them));
                }
                if exists|a: int| #[trigger] self.diag_slider(a, them) && bishop_sq(a, nk, s) {
                    let a = choose|a: int| #[trigger] self.diag_slider(a, them) && bishop_sq(a, nk, s);
                    assert(db.has(a));
                    let x = choose|x: int| 0 <= x < diag@.len() && (#[trigger] diag@[x]).idx() == a;
                    assert(bishop_sq(diag@[x].idx(), nk, s));
                }
                if exists|x: int| 0 <= x < orth@.len() && rook_sq((#[trigger] orth@[x]).idx(), nk, s) {
                    let x = choose|x: int| 0 <= x < orth@.len() && rook_sq((#[trigger] orth@[x]).idx(), nk, s);
                    assert(ob.has(orth@[x].idx()));
                    assert(self.orth_slider(orth@[x].idx(), them));
                }
                if exists|a: int| #[trigger] self.orth_slider(a, them) && rook_sq(a, nk, s) {
                    let a = choose|a: int| #[trigger] self.orth_slider(a, them) && rook_sq(a, nk, s);
                    assert(ob.has(a));
                    let x = choose|x: int| 0 <= x < orth@.len() && (#[trigger] orth@[x]).idx() == a;
                    assert(rook_sq(orth@[x].idx(), nk, s));
                }
            }
        }
        Bitboard(danger)
    }

    /// The pieces of the side not to move that check our king on `our_king`, and the pieces of
    /// ours pinned to it. Knights and pawns check by attacking it; a rook, bishop or queen that
    /// sees the king past the other side's pieces checks when nothing of ours stands between,
    /// and pins the one piece of ours that stands between.
    fn checkers_and_pinned(&self, our_king: SQ) -> (r: (Bitboard, Bitboard))
        requires
            self.wf(),
        ensures
            forall|s: int| #[trigger] bit(r.0.0, s) ==> color_on(self.squares(), s, self.side().other().idx()) && (
            type_on(self.squares(), s, 0) || type_on(self.squares(), s, 1) || forall|t: int|
                between_sq(our_king.idx(), s, t) ==> self.squares()[t] is None),
            forall|s: int| #[trigger] bit(r.1.0, s) ==> color_on(self.squares(), s, self.side().idx()),
            forall|s: int| #[trigger] bit(r.0.0, s) == self.checker_spec(our_king.idx(), s),
            forall|s: int| #[trigger] bit(r.1.0, s) ==> exists|a: int| self.slider_line_through(our_king.idx(), a, s),
    {
        let us = self.ctm;
        let them = us.not();
        let us_bb = self.all_pieces_c(us);
        let them_bb = self.all_pieces_c(them);
        let kn = knight_attacks(our_king);
        let their_knights = self.bitboard_of(them, PieceType::Knight);
        let pa = pawn_attacks_sq(our_king, us);
        let their_pawns = self.bitboard_of(them, PieceType::Pawn);
        let mut checkers = Bitboard((kn.0 & their_knights.0) | (pa.0 & their_pawns.0));
        let ra = rook_attacks(our_king, them_bb);
        let ba = bishop_attacks(our_king, them_bb);
        let orth = self.orthogonal_sliders_c(them);
        let diag = self.diagonal_sliders_c(them);
        let candidates = Bitboard((ra.0 & orth.0) | (ba.0 & diag.0));
        let mut pinned = Bitboard(0);
        let sqs = candidates.squares();
        proof {
            lemma_squares_of(candidates.0);
            assert forall|s: int| #[trigger] bit(checkers.0, s) implies color_on(self.squares(), s, them.idx()) && (
                type_on(self.squares(), s, 0) || type_on(self.squares(), s, 1) || forall|t: int|
                    between_sq(our_king.idx(), s, t) ==> self.squares()[t] is None) by {
                assert(kn.has(s) && their_knights.has(s) || pa.has(s) && their_pawns.has(s));
            }
        }
        let ghost init = checkers.0;
        proof {
            assert forall|s: int| #[trigger] bit(init, s) == (self.holds(s, them, PieceType::Knight) && knight_sq(our_king.idx(), s)
                || self.holds(s, them, PieceType::Pawn) && pawn_sq(our_king.idx(), us, s)) by {
                assert(kn.has(s) == knight_sq(our_king.idx(), s));
                assert(pa.has(s) == pawn_sq(our_king.idx(), us, s));
                assert(their_knights.has(s) == self.holds(s, them, PieceType::Knight));
                assert(their_pawns.has(s) == self.holds(s, them, PieceType::Pawn));
            }
        }
        let mut i: usize = 0;
        while i < sqs.len()
            invariant
                forall|s: int| #[trigger] bit(init, s) == (self.holds(s, them, PieceType::Knight) && knight_sq(our_king.idx(), s)
                    || self.holds(s, them, PieceType::Pawn) && pawn_sq(our_king.idx(), us, s)),
                forall|s: int| #[trigger] bit(checkers.0, s) == (bit(init, s) || exists|j: int|
                    0 <= j < i && (#[trigger] sqs@[j]).idx() == s && forall|t: int|
                        between_sq(our_king.idx(), s, t) ==> !color_on(self.squares(), t, us.idx())),
                forall|k1: int, k2: int| 0 <= k1 < k2 < sqs@.len() ==> sqs@[k1].idx() < sqs@[k2].idx(),
                forall|c: int| candidates.has(c) ==> exists|k: int| 0 <= k < sqs@.len() && (#[trigger] sqs@[k]).idx() == c,
                them_bb.0 == self.color_bits(them),
                self.wf(),
                us == self.side(),
                them == us.other(),
                i <= sqs@.len(),
                sqs@.len() == squares_of(candidates.0).len(),
                forall|k: int| 0 <= k < sqs@.len() ==> (#[trigger] sqs@[k]).idx() == squares_of(candidates.0)[k],
                forall|k: int| 0 <= k < squares_of(candidates.0).len() ==> bit(candidates.0, #[trigger] squares_of(candidates.0)[k]),
                candidates.0 == (ra.0 & orth.0) | (ba.0 & diag.0),
                forall|s: int| #[trigger] ra.has(s) <==> rook_sq(our_king.idx(), them_bb.0, s),
                forall|s: int| #[trigger] ba.has(s) <==> bishop_sq(our_king.idx(), them_bb.0, s),
                forall|s: int| #[trigger] orth.has(s) == (self.holds(s, them, PieceType::Rook) || self.holds(s, them, PieceType::Queen)),
                forall|s: int| #[trigger] diag.has(s) == (self.holds(s, them, PieceType::Bishop) || self.holds(s, them, PieceType::Queen)),
                forall|s: int| #[trigger] us_bb.has(s) == color_on(self.squares(), s, us.idx()),
                forall|s: int| #[trigger] them_bb.has(s) == color_on(self.squares(), s, them.idx()),
                forall|s: int| #[trigger] bit(checkers.0, s) ==> color_on(self.squares(), s, them.idx()) && (
                    type_on(self.squares(), s, 0) || type_on(self.squares(), s, 1) || forall|t: int|
                        between_sq(our_king.idx(), s, t) ==> self.squares()[t] is None),
                forall|s: int| #[trigger] bit(pinned.0, s) ==> color_on(self.squares(), s, us.idx()),
                forall|s: int| #[trigger] bit(pinned.0, s) ==> exists|a: int| self.slider_line_through(our_king.idx(), a, s),
            decreases sqs@.len() - i,
        {
            let sq = sqs[i];
            assert(bit(candidates.0, sq.idx()));
            let btw = Bitboard::between(our_king, sq);
            let potentially_pinned = Bitboard(btw.0 & us_bb.0);
            if potentially_pinned.0 == 0 {
                proof {
                    lemma_zero_iff_no_bits(potentially_pinned.0);
                    assert(ra.has(sq.idx()) && orth.has(sq.idx()) || ba.has(sq.idx()) && diag.has(sq.idx()));
                    assert forall|t: int| between_sq(our_king.idx(), sq.idx(), t) implies self.squares()[t] is None by {
                        assert(btw.has(t));
                        assert(!bit(potentially_pinned.0, t));
                        assert(!us_bb.has(t));
                        assert(!them_bb.has(t));
                        if self.squares()[t] is Some {
                            let pc = self.squares()[t]->0;
                            assert(pc.color_of_spec().idx() == us.idx() || pc.color_of_spec().idx() == them.idx());
                        }
                    }
                }
                let ghost old_checkers = checkers;
                checkers = Bitboard(checkers.0 ^ sq.bb().0);
                proof {
                    assert(!bit(init, sq.idx()));
                    assert forall|s: int| #[trigger] bit(checkers.0, s) == (bit(init, s) || exists|j: int|
                        0 <= j < i + 1 && (#[trigger] sqs@[j]).idx() == s && forall|t: int|
                            between_sq(our_king.idx(), s, t) ==> !color_on(self.squares(), t, us.idx())) by {
                        if s == sq.idx() {
                            assert(!bit(old_checkers.0, s));
                            assert(sqs@[i as int].idx() == s);
                            assert forall|t: int| between_sq(our_king.idx(), s, t) implies !color_on(self.squares(), t, us.idx()) by {
                                assert(btw.has(t));
                                assert(!bit(potentially_pinned.0, t));
                            }
                        } else {
                            if exists|j: int| 0 <= j < i + 1 && (#[trigger] sqs@[j]).idx() == s && forall|t: int|
                                between_sq(our_king.idx(), s, t) ==> !color_on(self.squares(), t, us.idx()) {
                                let j = choose|j: int| 0 <= j < i + 1 && (#[trigger] sqs@[j]).idx() == s && forall|t: int|
                                    between_sq(our_king.idx(), s, t) ==> !color_on(self.squares(), t, us.idx());
                                assert(j != i);
                            }
                        }
                    }
                    assert forall|s: int| #[trigger] bit(checkers.0, s) implies color_on(self.squares(), s, them.idx()) && (
                        type_on(self.squares(), s, 0) || type_on(self.squares(), s, 1) || forall|t: int|
                            between_sq(our_king.idx(), s, t) ==> self.squares()[t] is None) by {
                        if s != sq.idx() {
                            assert(bit(old_checkers.0, s));
                        }
                    }
                }
            } else {
                proof {
                    lemma_zero_iff_no_bits(potentially_pinned.0);
                    let t = choose|t: int| 0 <= t < 64 && bit(potentially_pinned.0, t);
                    assert(btw.has(t) && us_bb.has(t));
                    assert forall|s: int| #[trigger] bit(checkers.0, s) == (bit(init, s) || exists|j: int|
                        0 <= j < i + 1 && (#[trigger] sqs@[j]).idx() == s && forall|t2: int|
                            between_sq(our_king.idx(), s, t2) ==> !color_on(self.squares(), t2, us.idx())) by {
                        if exists|j: int| 0 <= j < i + 1 && (#[trigger] sqs@[j]).idx() == s && forall|t2: int|
                            between_sq(our_king.idx(), s, t2) ==> !color_on(self.squares(), t2, us.idx()) {
                            let j = choose|j: int| 0 <= j < i + 1 && (#[trigger] sqs@[j]).idx() == s && forall|t2: int|
                                between_sq(our_king.idx(), s, t2) ==> !color_on(self.squares(), t2, us.idx());
                            if j == i {
                                assert(between_sq(our_king.idx(), s, t));
                            }
                        }
                    }
                }
            }
            if potentially_pinned.0 != 0 && potentially_pinned.is_single() {
                let ghost old_pinned = pinned;
                pinned = Bitboard(pinned.0 ^ potentially_pinned.0);
                proof {
                    assert forall|s: int| #[trigger] bit(pinned.0, s) implies color_on(self.squares(), s, us.idx()) by {
                        if !bit(old_pinned.0, s) {
                            assert(us_bb.has(s));
                        }
                    }
                    assert forall|s: int| #[trigger] bit(pinned.0, s) implies exists|a: int| self.slider_line_through(our_king.idx(), a, s) by {
                        if !bit(old_pinned.0, s) {
                            assert(btw.has(s));
                            assert(between_sq(our_king.idx(), sq.idx(), s));
                            assert(ra.has(sq.idx()) && orth.has(sq.idx()) || ba.has(sq.idx()) && diag.has(sq.idx()));
                            assert(self.slider_line_through(our_king.idx(), sq.idx(), s));
                        }
                    }
                }
            }
            i = i + 1;
        }
        proof {
            assert forall|s: int| #[trigger] bit(checkers.0, s) == self.checker_spec(our_king.idx(), s) by {
                assert(ra.has(s) == rook_sq(our_king.idx(), them_bb.0, s));
                assert(ba.has(s) == bishop_sq(our_king.idx(), them_bb.0, s));
                assert(candidates.has(s) == ((ra.has(s) && orth.has(s)) || (ba.has(s) && diag.has(s))));
                if exists|j: int| 0 <= j < sqs@.len() && (#[trigger] sqs@[j]).idx() == s && forall|t: int|
                    between_sq(our_king.idx(), s, t) ==> !color_on(self.squares(), t, us.idx()) {
                    let j = choose|j: int| 0 <= j < sqs@.len() && (#[trigger] sqs@[j]).idx() == s && forall|t: int|
                        between_sq(our_king.idx(), s, t) ==> !color_on(self.squares(), t, us.idx());
                    assert(candidates.has(sqs@[j].idx()));
                }
                if candidates.has(s) && forall|t: int| between_sq(our_king.idx(), s, t) ==> !color_on(self.squares(), t, us.idx()) {
                    let k = choose|k: int| 0 <= k < sqs@.len() && (#[trigger] sqs@[k]).idx() == s;
                }
            }
        }
        (checkers, pinned)
    }

    /// Appends the legal moves of the side to move; in quiescence only the captures, the en
    /// passant captures and the promotions (the queen's alone). Both sides must have a king.
    #[verifier::rlimit(60)]
    #[verifier::spinoff_prover]
    pub fn generate_legal_moves<const QUIESCENCE: bool>(&self, moves: &mut MoveList)
        requires
            self.wf(),
            self.has_king(self.side()),
            self.has_king(self.side().other()),
        ensures
            self.appended_ok(old(moves)@, final(moves)@, QUIESCENCE),
            forall|f: int| #[trigger] self.ep_owed(f) ==> exists|j: int|
                old(moves)@.len() <= j < final(moves)@.len() && is_move(final(moves)@[j], f, self.current().epsq->0.idx(), 5),
            !QUIESCENCE ==> forall|t: int| #[trigger] self.safe_king_step(t) ==> exists|i: int|
                old(moves)@.len() <= i < final(moves)@.len() && is_move(
                    final(moves)@[i],
                    self.lowest_king(self.side()),
                    t,
                    self.step_flag(t),
                ),
    {
        let us = self.ctm;
        let them = us.not();
        let us_bb = self.all_pieces_c(us);
        let them_bb = self.all_pieces_c(them);
        let all = self.all_pieces();
        let our_kings = self.bitboard_of(us, PieceType::King);
        let their_kings = self.bitboard_of(them, PieceType::King);
        proof {
            lemma_appended_none(*self, moves@, QUIESCENCE);
            let k1 = choose|k: int| self.holds(k, us, PieceType::King);
            assert(our_kings.has(k1));
            let k2 = choose|k: int| self.holds(k, them, PieceType::King);
            assert(their_kings.has(k2));
            assert forall|s: int| 0 <= s < 64 && !us_bb.has(s) && !them_bb.has(s) implies self.squares()[s] is None by {
                if self.squares()[s] is Some {
                    let pc = self.squares()[s]->0;
                    assert(pc.color_of_spec().idx() == us.idx() || pc.color_of_spec().idx() == them.idx());
                }
            }
        }
        let our_king = our_kings.lsb();
        let their_king = their_kings.lsb();
        assert(color_on(self.squares(), our_king.idx(), us.idx()));
        let danger = self.danger_squares(our_king, their_king, all);
        let ka = king_attacks(our_king);
        let king_targets = Bitboard(ka.0 & !(us_bb.0 | danger.0));
        let ghost m0 = moves@;
        if !QUIESCENCE {
            let quiets = Bitboard(king_targets.0 & !them_bb.0);
            moves.make_q(our_king, quiets);
            proof {
                assert forall|t: int| bit(quiets.0, t) implies self.target_ok(our_king.idx(), t, 0) by {
                    assert(ka.has(t));
                    assert(our_kings.has(our_king.idx()));
                    lemma_quiet_target(*self, our_king.idx(), t);
                }
                lemma_targets(*self, m0, moves@, our_king.idx(), quiets.0, 0, QUIESCENCE);
            }
        }
        let ghost m1 = moves@;
        let caps = Bitboard(king_targets.0 & them_bb.0);
        moves.make_c(our_king, caps);
        proof {
            assert forall|t: int| bit(caps.0, t) implies self.target_ok(our_king.idx(), t, 4) by {
                assert(ka.has(t));
                assert(our_kings.has(our_king.idx()));
                lemma_capture_target(*self, our_king.idx(), t);
            }
            lemma_targets(*self, m1, moves@, our_king.idx(), caps.0, 4, QUIESCENCE);
            lemma_appended_trans(*self, old(moves)@, m1, moves@, QUIESCENCE);
        }
        let ghost mk = moves@;
        proof {
            reveal(Board::safe_king_step);
            lemma_appended_none(*self, mk, QUIESCENCE);
            lemma_squares_of(quiets_word(ka.0, us_bb.0, danger.0, them_bb.0));
            lemma_squares_of(caps.0);
            assert(our_kings.has(our_king.idx()));
            assert forall|j: int| 0 <= j < our_king.idx() implies !self.holds(j, us, PieceType::King) by {
                assert(!our_kings.has(j));
            }
            assert(their_kings.has(their_king.idx()));
            assert forall|j: int| 0 <= j < their_king.idx() implies !self.holds(j, them, PieceType::King) by {
                assert(!their_kings.has(j));
            }
            lemma_lowest_king(*self, us, our_king.idx());
            lemma_lowest_king(*self, them, their_king.idx());
            assert forall|t: int| #[trigger] self.safe_king_step(t) && !QUIESCENCE implies exists|i: int|
                old(moves)@.len() <= i < mk.len() && is_move(mk[i], self.lowest_king(self.side()), t, self.step_flag(t)) by {
                assert(ka.has(t));
                assert(danger.has(t) == self.danger_spec(our_king.idx(), their_king.idx(), all.0, t));
                assert(!us_bb.has(t));
                if them_bb.has(t) {
                    assert(bit(caps.0, t));
                    let k = choose|k: int| 0 <= k < squares_of(caps.0).len() && #[trigger] squares_of(caps.0)[k] == t;
                    assert(is_move(mk[m1.len() + k], our_king.idx(), t, 4));
                    assert(self.squares()[t] is Some);
                } else {
                    assert(bit(quiets_word(ka.0, us_bb.0, danger.0, them_bb.0), t));
                    let k = choose|k: int| 0 <= k < squares_of(quiets_word(ka.0, us_bb.0, danger.0, them_bb.0)).len()
                        && #[trigger] squares_of(quiets_word(ka.0, us_bb.0, danger.0, them_bb.0))[k] == t;
                    assert(is_move(m1[m0.len() + k], our_king.idx(), t, 0));
                    assert(m1[m0.len() + k] == mk[m0.len() + k]);
                    assert(self.squares()[t] is None);
                }
            }
        }
        let (checkers, pinned) = self.checkers_and_pinned(our_king);
        let not_pinned = !pinned.0;
        let n = checkers.pop_count();
        proof {
            if exists|f: int| #[trigger] self.ep_owed(f) {
                let f = choose|f: int| #[trigger] self.ep_owed(f);
                assert(self.no_checker(our_king.idx()));
                assert forall|t: int| 0 <= t < 64 implies !bit(checkers.0, t) by {
                    assert(!self.checker_spec(our_king.idx(), t));
                }
                lemma_zero_iff_no_bits(checkers.0);
                crate::bitboard::lemma_popcount_basics(checkers.0);
            }
        }
        let ghost mut ep_list = moves@;
        let capture_mask: Bitboard;
        let quiet_mask: Bitboard;
        if n == 2 {
            return;
        } else if n == 1 {
            proof {
                lemma_zero_iff_no_bits(checkers.0);
                crate::bitboard::lemma_popcount_basics(checkers.0);
            }
            let checker_square = checkers.lsb();
            assert(bit(checkers.0, checker_square.idx()));
            let pt = match self.piece_type_at(checker_square) {
                Some(pt) => pt,
                None => {
                    assert(false);
                    PieceType::Pawn
                },
            };
            if pt == PieceType::Pawn || pt == PieceType::Knight {
                if pt == PieceType::Pawn {
                    match self.history[self.ply].epsq {
                        Some(epsq) => {
                            if checkers.0 == epsq.bb().shift(Direction::South.relative(us)).0 {
                                let pa = pawn_attacks_sq(epsq, them);
                                let ours = self.bitboard_of(us, PieceType::Pawn);
                                let pawns = Bitboard(pa.0 & ours.0 & not_pinned);
                                let sqs = pawns.squares();
                                proof {
                                    lemma_squares_of(pawns.0);
                                    assert forall|t: int| #[trigger] bit(pawns.0, t) implies color_on(self.squares(), t, us.idx()) by {
                                        assert(ours.has(t));
                                    }
                                    assert forall|t: int| #[trigger] bit(pawns.0, t) implies self.squares()[t] == Some(piece_of(us, PieceType::Pawn)) by {
                                        assert(ours.has(t));
                                        self.squares()[t]->0.lemma_parts();
                                    }
                                    assert forall|t: int| #[trigger] bit(pawns.0, t) implies pawn_sq(t, us, epsq.idx()) by {
                                        assert(pa.has(t));
                                        assert(them.other() == us);
                                        lemma_pawn_sym(epsq.idx(), them, t);
                                    }
                                }
                                let mut i: usize = 0;
                                while i < sqs.len()
                                    invariant
                                        self.wf(),
                                        us == self.side(),
                                        self.current().epsq == Some(epsq),
                                        i <= sqs@.len(),
                                        sqs@.len() == squares_of(pawns.0).len(),
                                        forall|k: int| 0 <= k < sqs@.len() ==> (#[trigger] sqs@[k]).idx() == squares_of(pawns.0)[k],
                                        forall|k: int| 0 <= k < squares_of(pawns.0).len() ==> bit(pawns.0, #[trigger] squares_of(pawns.0)[k]),
                                        forall|t: int| #[trigger] bit(pawns.0, t) ==> color_on(self.squares(), t, us.idx()),
                                        forall|t: int| #[trigger] bit(pawns.0, t) ==> pawn_sq(t, us, epsq.idx()),
                                        forall|t: int| #[trigger] bit(pawns.0, t) ==> self.squares()[t] == Some(piece_of(us, PieceType::Pawn)),
                                        self.appended_ok(mk, moves@, QUIESCENCE),
                                    decreases sqs@.len() - i,
                                {
                                    let sq = sqs[i];
                                    assert(bit(pawns.0, sq.idx()));
                                    let m = Move::new(sq, epsq, MoveFlags::EnPassant);
                                    proof {
                                        lemma_ep_target(*self, sq.idx(), epsq.idx());
                                        assert(is_move(m, sq.idx(), epsq.idx(), 5));
                                        lemma_appended_push(*self, moves@, m, QUIESCENCE);
                                        lemma_appended_trans(*self, mk, moves@, moves@.push(m), QUIESCENCE);
                                    }
                                    moves.push(m);
                                    i = i + 1;
                                }
                            }
                        },
                        None => {},
                    }
                }
                let afc = self.attackers_from_c(checker_square, all, us);
                let attackers = Bitboard(afc.0 & not_pinned);
                let sqs = attackers.squares();
                proof {
                    lemma_squares_of(attackers.0);
                    assert forall|t: int| #[trigger] bit(attackers.0, t) implies color_on(self.squares(), t, us.idx()) by {
                        assert(afc.has(t));
                    }
                    assert forall|t: int| #[trigger] bit(attackers.0, t) implies self.attacker_from_spec(checker_square.idx(), all.0, us, t) by {
                        assert(afc.has(t));
                    }
                }
                let mut i: usize = 0;
                while i < sqs.len()
                    invariant
                        self.wf(),
                        us == self.side(),
                        i <= sqs@.len(),
                        color_on(self.squares(), checker_square.idx(), us.other().idx()),
                        sqs@.len() == squares_of(attackers.0).len(),
                        forall|k: int| 0 <= k < sqs@.len() ==> (#[trigger] sqs@[k]).idx() == squares_of(attackers.0)[k],
                        forall|k: int| 0 <= k < squares_of(attackers.0).len() ==> bit(attackers.0, #[trigger] squares_of(attackers.0)[k]),
                        forall|t: int| #[trigger] bit(attackers.0, t) ==> color_on(self.squares(), t, us.idx()),
                        forall|t: int| #[trigger] bit(attackers.0, t) ==> self.attacker_from_spec(checker_square.idx(), all.0, us, t),
                        all.0 == self.occupancy(),
                        0 <= checker_square.idx() < 64,
                        self.appended_ok(mk, moves@, QUIESCENCE),
                    decreases sqs@.len() - i,
                {
                    let sq = sqs[i];
                    assert(bit(attackers.0, sq.idx()));
                    proof {
                        assert(self.attacker_from_spec(checker_square.idx(), all.0, us, sq.idx()));
                        assert(us.other().other() == us);
                        lemma_pawn_sym(checker_square.idx(), us.other(), sq.idx());
                        lemma_attack_sym(checker_square.idx(), sq.idx(), all.0);
                    }
                    let ghost before = moves@;
                    if self.piece_type_at(sq) == Some(PieceType::Pawn) && sq.rank().relative(us) == Rank::Seven {
                        proof {
                            self.squares()[sq.idx()]->0.lemma_parts();
                            lemma_promotion_targets(*self, sq.idx(), checker_square.idx(), true);
                        }
                        moves.make_promotions::<QUIESCENCE>(sq, checker_square, true);
                        proof {
                            assert forall|k: int| before.len() <= k < moves@.len() implies self.generated_ok(#[trigger] moves@[k]) && (QUIESCENCE ==> moves@[k].flag_code() >= 4) by {
                                let j = k - before.len();
                                assert(is_move(moves@[before.len() + j], sq.idx(), checker_square.idx(), promotion_code(j, true)));
                                assert(self.target_ok(sq.idx(), checker_square.idx(), promotion_code(j, true)));
                            }
                            lemma_appended_trans(*self, mk, before, moves@, QUIESCENCE);
                        }
                    } else {
                        let m = Move::new(sq, checker_square, MoveFlags::Capture);
                        proof {
                            lemma_capture_target(*self, sq.idx(), checker_square.idx());
                            assert(is_move(m, sq.idx(), checker_square.idx(), 4));
                            lemma_appended_push(*self, moves@, m, QUIESCENCE);
                            lemma_appended_trans(*self, mk, moves@, moves@.push(m), QUIESCENCE);
                        }
                        moves.push(m);
                    }
                    i = i + 1;
                }
                proof {
                    lemma_appended_trans(*self, old(moves)@, mk, moves@, QUIESCENCE);
                    if !QUIESCENCE {
                        lemma_steps_kept(*self, old(moves)@.len() as int, mk, moves@);
                    }
                }
                return;
            } else {
                capture_mask = checkers;
                let btw = Bitboard::between(our_king, checker_square);
                quiet_mask = btw;
                proof {
                    assert forall|s: int| #[trigger] bit(capture_mask.0, s) implies color_on(self.squares(), s, self.side().other().idx()) by {}
                    assert forall|s: int| #[trigger] bit(quiet_mask.0, s) implies 0 <= s < 64 && self.squares()[s] is None by {
                        assert(btw.has(s));
                    }
                }
            }
        } else {
            capture_mask = them_bb;
            quiet_mask = Bitboard(!all.0);
            let ghost m2 = moves@;
            self.push_ep_moves(moves, all, pinned, our_king);
            let ghost m3 = moves@;
            proof {
                ep_list = m3;
                assert forall|f: int| #[trigger] self.ep_owed(f) implies exists|j: int|
                    old(moves)@.len() <= j < ep_list.len() && is_move(ep_list[j], f, self.current().epsq->0.idx(), 5) by {
                    if bit(pinned.0, f) {
                        let a = choose|a: int| self.slider_line_through(our_king.idx(), a, f);
                        assert(!self.slider_line_through(self.lowest_king(self.side()), a, f));
                    }
                    assert(self.ep_pawn(f) && !bit(pinned.0, f) && self.rank_clear(our_king.idx()));
                }
            }
            self.push_castling_moves::<QUIESCENCE>(moves, all, danger);
            let ghost m4 = moves@;
            proof {
                assert forall|s: int| #[trigger] bit(quiet_mask.0, s) implies 0 <= s < 64 && self.squares()[s] is None by {
                    assert(!all.has(s));
                }
            }
            self.push_pinned_moves::<QUIESCENCE>(moves, all, pinned, our_king, quiet_mask, capture_mask);
            proof {
                assert(self.appended_ok(m2, m3, QUIESCENCE));
                lemma_appended_trans(*self, m2, m3, m4, QUIESCENCE);
                lemma_appended_trans(*self, m2, m4, moves@, QUIESCENCE);
                lemma_appended_trans(*self, mk, m2, moves@, QUIESCENCE);
                lemma_appended_trans(*self, m3, m4, moves@, QUIESCENCE);
            }
        }
        let ghost m5 = moves@;
        proof {
            if n != 0 {
                ep_list = m5;
                lemma_appended_none(*self, m5, QUIESCENCE);
            }
        }
        let kb = self.bitboard_of(us, PieceType::Knight);
        let db = self.diagonal_sliders_c(us);
        let ob = self.orthogonal_sliders_c(us);
        let knights = Bitboard(kb.0 & not_pinned);
        let diag = Bitboard(db.0 & not_pinned);
        let orth = Bitboard(ob.0 & not_pinned);
        proof {
            assert forall|t: int| #[trigger] bit(knights.0, t) implies color_on(self.squares(), t, us.idx()) && slides_as_piece(self.squares()[t], 0) by {
                assert(kb.has(t));
            }
            assert forall|t: int| #[trigger] bit(diag.0, t) implies color_on(self.squares(), t, us.idx()) && slides_as_piece(self.squares()[t], 1) by {
                assert(db.has(t));
            }
            assert forall|t: int| #[trigger] bit(orth.0, t) implies color_on(self.squares(), t, us.idx()) && slides_as_piece(self.squares()[t], 2) by {
                assert(ob.has(t));
            }
        }
        self.push_attack_moves::<QUIESCENCE>(moves, knights, 0, all, quiet_mask, capture_mask);
        let ghost m6 = moves@;
        self.push_attack_moves::<QUIESCENCE>(moves, diag, 1, all, quiet_mask, capture_mask);
        let ghost m7 = moves@;
        self.push_attack_moves::<QUIESCENCE>(moves, orth, 2, all, quiet_mask, capture_mask);
        let ghost m8 = moves@;
        self.push_pawn_moves::<QUIESCENCE>(moves, all, pinned, quiet_mask, capture_mask);
        proof {
            lemma_appended_trans(*self, m7, m8, moves@, QUIESCENCE);
            lemma_appended_trans(*self, m6, m7, moves@, QUIESCENCE);
            lemma_appended_trans(*self, m5, m6, moves@, QUIESCENCE);
            lemma_appended_trans(*self, mk, m5, moves@, QUIESCENCE);
            lemma_appended_trans(*self, old(moves)@, mk, moves@, QUIESCENCE);
            if !QUIESCENCE {
                lemma_steps_kept(*self, old(moves)@.len() as int, mk, moves@);
            }
            lemma_appended_trans(*self, ep_list, m5, moves@, QUIESCENCE);
            assert forall|f: int| #[trigger] self.ep_owed(f) implies exists|j: int|
                old(moves)@.len() <= j < moves@.len() && is_move(moves@[j], f, self.current().epsq->0.idx(), 5) by {
                let j = choose|j: int| old(moves)@.len() <= j < ep_list.len() && is_move(ep_list[j], f, self.current().epsq->0.idx(), 5);
                assert(moves@[j] == ep_list[j]);
            }
        }
    }

    /// Plays the legal move whose UCI name is the bytes `name`; an error, with the board
    /// unchanged, when no legal move has that name.
    pub fn push_bytes(&mut self, name: &[u8]) -> (r: Result<(), &'static str>)
        requires
            old(self).wf(),
            old(self).has_king(old(self).side()),
            old(self).has_king(old(self).side().other()),
            old(self).position_sound(),
            old(self).ply_spec() + 1 < N_HISTORIES,
            old(self).current().half_move_counter < u16::MAX,
            old(self).current().plies_from_null < u16::MAX,
        ensures
            final(self).wf(),
            r is Err ==> *final(self) == *old(self),
            r matches Err(e) ==> e@ == "Invalid move."@,
            r is Ok ==> exists|m: Move| m.uci() == name@ && old(self).flag_fits(m) && reversible(old(self).squares(), old(self).side(), m)
                && #[trigger] Board::pushed(*old(self), *final(self), m),
            (exists|t: int| #[trigger] old(self).safe_king_step(t) && name@ == uci_name(
                old(self).lowest_king(old(self).side()),
                t,
                None,
            )) ==> r is Ok,
    {
        let moves = MoveList::from::<false>(self);
        let mut i: usize = 0;
        while i < moves.len()
            invariant
                forall|j: int| 0 <= j < i ==> (#[trigger] moves@[j]).uci() != name@,
                self.wf(),
                *self == *old(self),
                self.position_sound(),
                self.ply_spec() + 1 < N_HISTORIES,
                self.current().half_move_counter < u16::MAX,
                self.current().plies_from_null < u16::MAX,
                self.appended_ok(Seq::empty(), moves@, false),
                i <= moves@.len(),
            decreases moves@.len() - i,
        {
            let m = match moves.get(i) {
                Some(m) => *m,
                None => {
                    assert(false);
                    return Err("Invalid move.");
                },
            };
            let u = m.uci_bytes();
            if bytes_equal(&u, name) {
                proof {
                    assert(self.generated_ok(m));
                }
                self.push(m);
                return Ok(());
            }
            i = i + 1;
        }
        proof {
            if exists|t: int| #[trigger] old(self).safe_king_step(t) && name@ == uci_name(
                old(self).lowest_king(old(self).side()),
                t,
                None,
            ) {
                let t = choose|t: int| #[trigger] old(self).safe_king_step(t) && name@ == uci_name(
                    old(self).lowest_king(old(self).side()),
                    t,
                    None,
                );
                let k = choose|k: int| 0 <= k < moves@.len() && is_move(moves@[k], self.lowest_king(self.side()), t, self.step_flag(t));
                assert(moves@[k].uci() == name@);
            }
        }
        Err("Invalid move.")
    }

    /// The byte strings of `moves`.
    pub open spec fn names_of(moves: Seq<Vec<u8>>) -> Seq<Seq<u8>> {
        moves.map_values(|v: Vec<u8>| v@)
    }

    /// Whether `b` is `b0` with the moves named by `names` played in turn.
    pub open spec fn played(b0: Board, names: Seq<Seq<u8>>, b: Board) -> bool
        decreases names.len(),
    {
        if names.len() == 0 {
            b == b0
        } else {
            exists|m: Move, bm: Board| #[trigger] Board::pushed(bm, b, m) && m.uci() == names.last() && Board::played(
                b0,
                names.drop_last(),
                bm,
            )
        }
    }

    /// The board of a `position` command: the FEN `fen`, or the start position when there is
    /// none, with the moves named by `moves` played in turn. The error is the FEN's, or, for
    /// the first move that is not legal or that cannot be played because a king is missing
    /// or the history is full, "Invalid move.".
    pub fn from_position(fen: Option<&str>, moves: &Vec<Vec<u8>>) -> (r: Result<Board, &'static str>)
        requires
            fen matches Some(f) ==> !fen_panics(f.spec_bytes(), N_HISTORIES as int),
        ensures
            fen matches Some(f) && !fen_ok(f.spec_bytes(), N_HISTORIES as int) ==> r is Err,
            moves@.len() == 0 ==> (r is Ok <==> (fen matches Some(f) ==> fen_ok(f.spec_bytes(), N_HISTORIES as int))),
            r matches Ok(b) ==> b.wf() && exists|b0: Board|
                (fen is None ==> Board::is_start(b0)) && (fen matches Some(f) ==> Board::from_fen(b0, f.spec_bytes()))
                    && #[trigger] Board::played(b0, Board::names_of(moves@), b),
    {
        let mut board = Board::new();
        match fen {
            Some(f) => {
                let parsed = board.set_fen(f);
                if parsed.is_err() {
                    return Err(parsed.unwrap_err());
                }
            },
            None => {},
        }
        let ghost b0 = board;
        let ghost names = Board::names_of(moves@);
        let mut i: usize = 0;
        while i < moves.len()
            invariant
                board.wf(),
                i <= moves@.len(),
                names == Board::names_of(moves@),
                Board::played(b0, names.subrange(0, i as int), board),
            decreases moves@.len() - i,
        {
            if !board.push_ready() {
                return Err("Invalid move.");
            }
            let ghost before = board;
            let pushed = board.push_bytes(moves[i].as_slice());
            if pushed.is_err() {
                return Err("Invalid move.");
            }
            proof {
                let m = choose|m: Move| m.uci() == moves@[i as int]@ && reversible(before.squares(), before.side(), m)
                    && #[trigger] Board::pushed(before, board, m);
                assert(names.subrange(0, i + 1).drop_last() =~= names.subrange(0, i as int));
                assert(names.subrange(0, i + 1).last() == moves@[i as int]@);
                assert(Board::pushed(before, board, m) && m.uci() == names.subrange(0, i + 1).last() && Board::played(
                    b0,
                    names.subrange(0, i + 1).drop_last(),
                    before,
                ));
            }
            i = i + 1;
        }
        proof {
            assert(names.subrange(0, moves@.len() as int) =~= names);
        }
        Ok(board)
    }

    /// Plays the legal move whose UCI name is `move_str`; an error, with the board unchanged,
    /// when no legal move has that name.
    pub fn push_str(&mut self, move_str: &str) -> (r: Result<(), &'static str>)
        requires
            old(self).wf(),
            old(self).has_king(old(self).side()),
            old(self).has_king(old(self).side().other()),
            old(self).position_sound(),
            old(self).ply_spec() + 1 < N_HISTORIES,
            old(self).current().half_move_counter < u16::MAX,
            old(self).current().plies_from_null < u16::MAX,
        ensures
            final(self).wf(),
            r is Err ==> *final(self) == *old(self),
            r matches Err(e) ==> e@ == "Invalid move."@,
            r is Ok ==> exists|m: Move| m.uci() == move_str.spec_bytes() && old(self).flag_fits(m) && reversible(old(self).squares(), old(self).side(), m)
                && #[trigger] Board::pushed(*old(self), *final(self), m),
            (exists|t: int| #[trigger] old(self).safe_king_step(t) && move_str.spec_bytes() == uci_name(
                old(self).lowest_king(old(self).side()),
                t,
                None,
            )) ==> r is Ok,
    {
        self.push_bytes(move_str.as_bytes())
    }

    /// The FEN placement field of the position, as bytes.
    fn placement_bytes(&self) -> (r: Vec<u8>)
        requires
            self.wf(),
        ensures
            r@ == placement_text(self.squares(), 7),
    {
        let ghost sq = self.squares();
        let mut v: Vec<u8> = Vec::new();
        let mut r: usize = 8;
        while r > 0
            invariant
                self.wf(),
                sq == self.squares(),
                r <= 8,
                0 < r < 8 ==> v@ + placement_text(sq, r - 1) == placement_text(sq, 7),
                r == 0 ==> v@ == placement_text(sq, 7),
                r == 8 ==> v@.len() == 0,
            decreases r,
        {
            r = r - 1;
            let ghost before = v@;
            assert(before + placement_text(sq, r as int) == placement_text(sq, 7)) by {
                if r == 7 {
                    assert(before =~= Seq::<u8>::empty());
                    assert(before + placement_text(sq, 7) =~= placement_text(sq, 7));
                }
            }
            let mut run: u8 = 0;
            let mut f: usize = 0;
            while f < 8
                invariant
                    self.wf(),
                    sq == self.squares(),
                    r < 8,
                    f <= 8,
                    run <= f,
                    v@ + rank_text(sq, r as int, f as int, run as int) == before + rank_text(sq, r as int, 0, 0),
                decreases 8 - f,
            {
                match self.board[8 * r + f] {
                    None => {
                        run = run + 1;
                    },
                    Some(pc) => {
                        if run > 0 {
                            v.push(48 + run);
                        }
                        v.push(pc.to_char() as u8);
                        run = 0;
                    },
                }
                f = f + 1;
            }
            if run > 0 {
                v.push(48 + run);
            }
            assert(v@ == before + rank_text(sq, r as int, 0, 0));
            if r > 0 {
                v.push(47);
            }
            proof {
                if r > 0 {
                    assert(placement_text(sq, r as int) == rank_text(sq, r as int, 0, 0) + seq![47u8] + placement_text(sq, r - 1));
                    assert(v@ + placement_text(sq, r - 1) =~= before + placement_text(sq, r as int));
                } else {
                    assert(v@ =~= before + placement_text(sq, 0));
                }
            }
        }
        v
    }

    /// The FEN of the position, as bytes.
    #[verifier::spinoff_prover]
    #[verifier::rlimit(40)]
    pub fn fen_bytes(&self) -> (r: Vec<u8>)
        requires
            self.wf(),
        ensures
            r@ == self.fen_text(),
    {
        let ghost sq = self.squares();
        let mut v = self.placement_bytes();
        let e = self.history[self.ply];
        let ghost placed = v@;
        assert(placed == placement_text(sq, 7));
        v.push(32);
        v.push(if self.ctm == Color::White { 119 } else { 98 });
        v.push(32);
        let rights = e.rights.to_letters();
        let mut i: usize = 0;
        let ghost base = v@;
        while i < rights.len()
            invariant
                i <= rights@.len(),
                v@ == base + rights@.subrange(0, i as int),
            decreases rights@.len() - i,
        {
            v.push(rights[i]);
            i = i + 1;
        }
        v.push(32);
        match e.epsq {
            Some(sqr) => {
                let (fc, rc) = sqr.to_chars();
                v.push(fc as u8);
                v.push(rc as u8);
            },
            None => {
                v.push(45);
            },
        }
        assert(rights@.subrange(0, rights@.len() as int) =~= rights@);
        v.push(32);
        let hm = decimal_bytes(e.half_move_counter as u64);
        let mut j: usize = 0;
        let ghost base2 = v@;
        while j < hm.len()
            invariant
                j <= hm@.len(),
                v@ == base2 + hm@.subrange(0, j as int),
            decreases hm@.len() - j,
        {
            v.push(hm[j]);
            j = j + 1;
        }
        assert(hm@.subrange(0, hm@.len() as int) =~= hm@);
        v.push(32);
        let fm = decimal_bytes((self.ply / 2 + 1) as u64);
        let mut k: usize = 0;
        let ghost base3 = v@;
        while k < fm.len()
            invariant
                k <= fm@.len(),
                v@ == base3 + fm@.subrange(0, k as int),
            decreases fm@.len() - k,
        {
            v.push(fm[k]);
            k = k + 1;
        }
        assert(fm@.subrange(0, fm@.len() as int) =~= fm@);
        assert(v@ =~= self.fen_text());
        v
    }

    /// The FEN of the position.
    pub fn to_fen(&self) -> (r: String)
        requires
            self.wf(),
        ensures
            r@ == Seq::new(self.fen_text().len(), |i: int| self.fen_text()[i] as char),
    {
        let v = self.fen_bytes();
        proof {
            lemma_placement_text_ascii(self.squares(), 7);
            lemma_decimal_ascii(self.current().half_move_counter as nat);
            lemma_decimal_ascii((self.ply_spec() / 2 + 1) as nat);
            let rt = rights_text(self.current().rights.bits());
            assert(all_ascii(rt));
            let a = placement_text(self.squares(), 7);
            let b = seq![32u8, if self.side() == Color::White { 119u8 } else { 98u8 }, 32u8];
            let c = seq![32u8];
            let d = match self.current().epsq {
                Some(e) => square_text(e.idx()),
                None => seq![45u8],
            };
            assert(all_ascii(d));
            let h = decimal(self.current().half_move_counter as nat);
            let f = decimal((self.ply_spec() / 2 + 1) as nat);
            assert(self.fen_text() == a + b + rt + c + d + c + h + c + f);
            assert(all_ascii(a + b + rt + c + d + c + h + c + f));
        }
        ascii_string(v)
    }

    /// The bishops and queens of both sides.
    pub fn diagonal_sliders(&self) -> (r: Bitboard)
        requires
            self.wf(),
        ensures
            forall|s: int| r.has(s) == (type_on(self.squares(), s, 2) || type_on(self.squares(), s, 4)),
    {
        let b = self.bitboard_of_pt(PieceType::Bishop);
        let q = self.bitboard_of_pt(PieceType::Queen);
        let r = Bitboard(b.0 | q.0);
        assert forall|s: int| r.has(s) == (b.has(s) || q.has(s)) by {}
        r
    }

    /// The rooks and queens of both sides.
    pub fn orthogonal_sliders(&self) -> (r: Bitboard)
        requires
            self.wf(),
        ensures
            forall|s: int| r.has(s) == (type_on(self.squares(), s, 3) || type_on(self.squares(), s, 4)),
    {
        let b = self.bitboard_of_pt(PieceType::Rook);
        let q = self.bitboard_of_pt(PieceType::Queen);
        let r = Bitboard(b.0 | q.0);
        assert forall|s: int| r.has(s) == (b.has(s) || q.has(s)) by {}
        r
    }

    /// The bishops and queens of side `c`.
    pub fn diagonal_sliders_c(&self, c: Color) -> (r: Bitboard)
        requires
            self.wf(),
        ensures
            forall|s: int| r.has(s) == (self.holds(s, c, PieceType::Bishop) || self.holds(s, c, PieceType::Queen)),
    {
        let b = self.bitboard_of(c, PieceType::Bishop);
        let q = self.bitboard_of(c, PieceType::Queen);
        let r = Bitboard(b.0 | q.0);
        assert forall|s: int| r.has(s) == (b.has(s) || q.has(s)) by {}
        r
    }

    /// The rooks and queens of side `c`.
    pub fn orthogonal_sliders_c(&self, c: Color) -> (r: Bitboard)
        requires
            self.wf(),
        ensures
            forall|s: int| r.has(s) == (self.holds(s, c, PieceType::Rook) || self.holds(s, c, PieceType::Queen)),
    {
        let b = self.bitboard_of(c, PieceType::Rook);
        let q = self.bitboard_of(c, PieceType::Queen);
        let r = Bitboard(b.0 | q.0);
        assert forall|s: int| r.has(s) == (b.has(s) || q.has(s)) by {}
        r
    }
}

} // verus!
