use vstd::prelude::*;
use crate::bitboard::{bit, lemma_bit_xor, lemma_bits_ext};
use crate::zobrist::piece_key;
use crate::square::SQ;
use crate::board::{
    after_pop, after_push, ep_victim, hash_after_pop, hash_after_push, moved, moved_hash, piece_of, pop_ok, promoted, rel,
    reversible, toggled, Board,
};
use crate::color::Color;
use crate::moov::Move;
use crate::piece::{Piece, PieceType};

verus! {

/// The hash of the pieces on the first `n` squares of `s`: the keys of the pieces, combined.
pub open spec fn squares_hash(s: Seq<Option<Piece>>, n: int) -> u64
    decreases n,
{
    if n <= 0 {
        0
    } else {
        toggled(squares_hash(s, n - 1), s[n - 1], n - 1)
    }
}

/// The hash of all the pieces of `s`.
pub open spec fn pieces_hash(s: Seq<Option<Piece>>) -> u64 {
    squares_hash(s, 64)
}

/// Putting on or taking off two pieces may be done in either order.
proof fn lemma_toggle_swap(h: u64, p: Option<Piece>, i: int, q: Option<Piece>, j: int)
    ensures
        toggled(toggled(h, p, i), q, j) == toggled(toggled(h, q, j), p, i),
{
    broadcast use lemma_bit_xor;

    let a = toggled(toggled(h, p, i), q, j);
    let b = toggled(toggled(h, q, j), p, i);
    assert forall|k: int| 0 <= k < 64 implies bit(a, k) == bit(b, k) by {}
    lemma_bits_ext(a, b);
}

/// Putting a piece on and taking it off again changes nothing.
proof fn lemma_toggle_twice(h: u64, p: Option<Piece>, i: int)
    ensures
        toggled(toggled(h, p, i), p, i) == h,
{
    broadcast use lemma_bit_xor;

    let a = toggled(toggled(h, p, i), p, i);
    assert forall|k: int| 0 <= k < 64 implies bit(a, k) == bit(h, k) by {}
    lemma_bits_ext(a, h);
}

/// Changing square `i` of `s` to `p` takes the old piece's key out of the hash and puts the
/// new one's in.
pub proof fn lemma_update_hash(s: Seq<Option<Piece>>, i: int, p: Option<Piece>, n: int)
    requires
        0 <= i < s.len(),
        n <= s.len(),
    ensures
        squares_hash(s.update(i, p), n) == (if n <= i {
            squares_hash(s, n)
        } else {
            toggled(toggled(squares_hash(s, n), s[i], i), p, i)
        }),
    decreases n,
{
    let t = s.update(i, p);
    if n <= 0 {
    } else {
        lemma_update_hash(s, i, p, n - 1);
        if n - 1 < i {
            assert(t[n - 1] == s[n - 1]);
        } else if n - 1 == i {
            lemma_toggle_twice(squares_hash(s, i), s[i], i);
        } else {
            assert(t[n - 1] == s[n - 1]);
            let h = squares_hash(s, n - 1);
            lemma_toggle_swap(toggled(h, s[i], i), p, i, s[n - 1], n - 1);
            lemma_toggle_swap(h, s[i], i, s[n - 1], n - 1);
        }
    }
}

/// The hash of `s` with square `i` changed to `p`.
proof fn lemma_set(s: Seq<Option<Piece>>, i: int, p: Option<Piece>)
    requires
        s.len() == 64,
        0 <= i < 64,
    ensures
        pieces_hash(s.update(i, p)) == toggled(toggled(pieces_hash(s), s[i], i), p, i),
{
    lemma_update_hash(s, i, p, 64);
}

/// The hash of a board without pieces is zero.
pub proof fn lemma_empty_hash(s: Seq<Option<Piece>>, n: int)
    requires
        n <= s.len(),
        forall|i: int| 0 <= i < s.len() ==> s[i] is None,
    ensures
        squares_hash(s, n) == 0,
    decreases n,
{
    if n > 0 {
        lemma_empty_hash(s, n - 1);
    }
}

/// Putting `pc` on the empty square `sq` adds its key to the hash of the pieces.
pub proof fn lemma_put_hash(s: Seq<Option<Piece>>, sq: SQ, pc: Piece)
    requires
        s.len() == 64,
        s[sq.idx()] is None,
    ensures
        pieces_hash(s.update(sq.idx(), Some(pc))) == pieces_hash(s) ^ piece_key(pc, sq),
{
    lemma_set(s, sq.idx(), Some(pc));
}

/// Taking the piece off `sq` takes its key out of the hash of the pieces.
pub proof fn lemma_take_hash(s: Seq<Option<Piece>>, sq: SQ)
    requires
        s.len() == 64,
    ensures
        pieces_hash(s.update(sq.idx(), None)) == match s[sq.idx()] {
            Some(pc) => pieces_hash(s) ^ piece_key(pc, sq),
            None => pieces_hash(s),
        },
{
    lemma_set(s, sq.idx(), None);
}

/// Moving the piece on `a` to the empty square `b` moves its key.
proof fn lemma_move_hash(s: Seq<Option<Piece>>, a: int, b: int)
    requires
        s.len() == 64,
        0 <= a < 64,
        0 <= b < 64,
        a != b,
        s[a] is Some,
        s[b] is None,
    ensures
        pieces_hash(moved(s, a, b)) == moved_hash(pieces_hash(s), s[a]->0, a, b),
{
    broadcast use lemma_bit_xor;

    let s1 = s.update(b, s[a]);
    lemma_set(s, b, s[a]);
    lemma_set(s1, a, None);
    assert(s1[a] == s[a]);
    let x = pieces_hash(moved(s, a, b));
    let y = moved_hash(pieces_hash(s), s[a]->0, a, b);
    assert forall|k: int| 0 <= k < 64 implies bit(x, k) == bit(y, k) by {}
    lemma_bits_ext(x, y);
}

/// Playing a move that may be played changes the hash of the pieces as the push computes it:
/// the hash kept up move by move stays the hash of the pieces.
pub proof fn lemma_push_hash(s: Seq<Option<Piece>>, us: Color, m: Move)
    requires
        reversible(s, us, m),
    ensures
        hash_after_push(s, us, m, pieces_hash(s)) == pieces_hash(after_push(s, us, m)),
{
    broadcast use lemma_bit_xor;

    reveal(after_push);
    reveal(hash_after_push);
    let f = m.from_idx();
    let t = m.to_idx();
    let k = m.flag_code();
    let h = pieces_hash(s);
    if k == 0 || k == 1 {
        lemma_move_hash(s, f, t);
    } else if k == 2 {
        let s1 = moved(s, rel(4, us), rel(6, us));
        lemma_move_hash(s, rel(4, us), rel(6, us));
        assert(s1[rel(7, us)] == s[rel(7, us)] && s1[rel(5, us)] == s[rel(5, us)]);
        lemma_move_hash(s1, rel(7, us), rel(5, us));
    } else if k == 3 {
        let s1 = moved(s, rel(4, us), rel(2, us));
        lemma_move_hash(s, rel(4, us), rel(2, us));
        assert(s1[rel(0, us)] == s[rel(0, us)] && s1[rel(3, us)] == s[rel(3, us)]);
        lemma_move_hash(s1, rel(0, us), rel(3, us));
    } else if k == 4 {
        let s1 = s.update(t, s[f]);
        lemma_set(s, t, s[f]);
        lemma_set(s1, f, None);
        assert(s1[f] == s[f]);
        let x = pieces_hash(moved(s, f, t));
        let y = moved_hash(toggled(h, s[t], t), s[f]->0, f, t);
        assert forall|j: int| 0 <= j < 64 implies bit(x, j) == bit(y, j) by {}
        lemma_bits_ext(x, y);
    } else if k == 5 {
        let s1 = moved(s, f, t);
        lemma_move_hash(s, f, t);
        lemma_set(s1, ep_victim(t, us), None);
        let x = pieces_hash(s1.update(ep_victim(t, us), None));
        let y = toggled(moved_hash(h, s[f]->0, f, t), s1[ep_victim(t, us)], ep_victim(t, us));
        assert forall|j: int| 0 <= j < 64 implies bit(x, j) == bit(y, j) by {}
        lemma_bits_ext(x, y);
    } else {
        let s1 = s.update(f, None);
        lemma_set(s, f, None);
        lemma_set(s1, t, Some(promoted(m, us)));
        if k < 12 {
            assert(s1[t] == s[t]);
            let x = pieces_hash(s1.update(t, Some(promoted(m, us))));
            let y = toggled(toggled(h, s[f], f), Some(promoted(m, us)), t);
            assert forall|j: int| 0 <= j < 64 implies bit(x, j) == bit(y, j) by {}
            lemma_bits_ext(x, y);
        } else {
            let x = pieces_hash(s1.update(t, Some(promoted(m, us))));
            let y = toggled(toggled(toggled(h, s[t], t), s.update(t, None)[f], f), Some(promoted(m, us)), t);
            if f == t {
                assert(s1[t] == None::<Piece>);
            } else {
                assert(s1[t] == s[t]);
                assert(s.update(t, None)[f] == s[f]);
            }
            assert forall|j: int| 0 <= j < 64 implies bit(x, j) == bit(y, j) by {}
            lemma_bits_ext(x, y);
        }
    }
}

/// A board whose material hash is the hash of its pieces keeps it so when a move that may be
/// played is pushed.
pub proof fn lemma_pushed_hash(b0: Board, b1: Board, m: Move)
    requires
        reversible(b0.squares(), b0.side(), m),
        Board::pushed(b0, b1, m),
        b0.mat_hash() == pieces_hash(b0.squares()),
    ensures
        b1.mat_hash() == pieces_hash(b1.squares()),
{
    lemma_push_hash(b0.squares(), b0.side(), m);
}

/// Taking back a move as the take-back allows changes the hash of the pieces as the pop
/// computes it.
pub proof fn lemma_pop_hash(s: Seq<Option<Piece>>, mover: Color, m: Move, captured: Option<Piece>)
    requires
        s.len() == 64,
        0 <= m.from_idx() < 64,
        0 <= m.to_idx() < 64,
        pop_ok(s, mover, m, captured),
    ensures
        hash_after_pop(s, mover, m, captured, pieces_hash(s)) == pieces_hash(after_pop(s, mover, m, captured)),
{
    broadcast use lemma_bit_xor;

    reveal(after_pop);
    reveal(hash_after_pop);
    let f = m.from_idx();
    let t = m.to_idx();
    let k = m.flag_code();
    let h = pieces_hash(s);
    let pawn = Some(piece_of(mover, PieceType::Pawn));
    if k == 0 || k == 1 {
        lemma_move_hash(s, t, f);
    } else if k == 2 {
        let s1 = moved(s, rel(6, mover), rel(4, mover));
        lemma_move_hash(s, rel(6, mover), rel(4, mover));
        assert(s1[rel(5, mover)] == s[rel(5, mover)] && s1[rel(7, mover)] == s[rel(7, mover)]);
        lemma_move_hash(s1, rel(5, mover), rel(7, mover));
    } else if k == 3 {
        let s1 = moved(s, rel(2, mover), rel(4, mover));
        lemma_move_hash(s, rel(2, mover), rel(4, mover));
        assert(s1[rel(3, mover)] == s[rel(3, mover)] && s1[rel(0, mover)] == s[rel(0, mover)]);
        lemma_move_hash(s1, rel(3, mover), rel(0, mover));
    } else if k == 4 {
        let s1 = moved(s, t, f);
        lemma_move_hash(s, t, f);
        lemma_set(s1, t, captured);
        let x = pieces_hash(s1.update(t, captured));
        let y = toggled(moved_hash(h, s[t]->0, t, f), captured, t);
        assert forall|j: int| 0 <= j < 64 implies bit(x, j) == bit(y, j) by {}
        lemma_bits_ext(x, y);
    } else if k == 5 {
        let v = ep_victim(t, mover);
        let other = Some(piece_of(mover.other(), PieceType::Pawn));
        let s1 = moved(s, t, f);
        lemma_move_hash(s, t, f);
        lemma_set(s1, v, other);
        assert(s1[v] == s[v]);
        let x = pieces_hash(s1.update(v, other));
        let y = toggled(moved_hash(h, s[t]->0, t, f), other, v);
        assert forall|j: int| 0 <= j < 64 implies bit(x, j) == bit(y, j) by {}
        lemma_bits_ext(x, y);
    } else {
        let s1 = s.update(t, None);
        let s2 = s1.update(f, pawn);
        lemma_set(s, t, None);
        lemma_set(s1, f, pawn);
        if k < 12 {
            let x = pieces_hash(s2);
            let y = toggled(toggled(h, s[t], t), pawn, f);
            assert forall|j: int| 0 <= j < 64 implies bit(x, j) == bit(y, j) by {}
            lemma_bits_ext(x, y);
        } else {
            lemma_set(s2, t, captured);
            assert(s2[t] == None::<Piece>);
            let x = pieces_hash(s2.update(t, captured));
            let y = toggled(toggled(toggled(h, s[t], t), pawn, f), captured, t);
            assert forall|j: int| 0 <= j < 64 implies bit(x, j) == bit(y, j) by {}
            lemma_bits_ext(x, y);
        }
    }
}

/// A board whose material hash is the hash of its pieces keeps it so when a pushed move is
/// taken back.
pub proof fn lemma_popped_hash(b1: Board, b2: Board, r: Option<Move>)
    requires
        b1.squares().len() == 64,
        b1.mat_hash() == pieces_hash(b1.squares()),
        Board::popped(b1, b2, r),
        r matches Some(m) ==> 0 <= m.from_idx() < 64 && 0 <= m.to_idx() < 64 && pop_ok(
            b1.squares(),
            b1.side().other(),
            m,
            b1.current().captured,
        ),
    ensures
        b2.mat_hash() == pieces_hash(b2.squares()),
{
    match r {
        Some(m) => {
            lemma_pop_hash(b1.squares(), b1.side().other(), m, b1.current().captured);
        },
        None => {},
    }
}

} // verus!
