use vstd::prelude::*;
use crate::bitboard::{
    between_sq, bit, lemma_bit_or, lemma_bit_single, same_anti, same_diag, same_file, same_rank,
    Bitboard,
};
use crate::color::Color;
use crate::piece::PieceType;
use crate::bitboard::{lemma_bit_zero, step_ok};
use crate::square::{Direction, SQ};

verus! {

broadcast use crate::bitboard::group_bit_lemmas;

/// The distance between two numbers.
pub open spec fn dist(x: int, y: int) -> int {
    if x >= y {
        x - y
    } else {
        y - x
    }
}

/// Whether a knight on `a` attacks `s`.
pub open spec fn knight_sq(a: int, s: int) -> bool {
    0 <= s < 64 && ((dist(a / 8, s / 8) == 1 && dist(a % 8, s % 8) == 2) || (dist(a / 8, s / 8)
        == 2 && dist(a % 8, s % 8) == 1))
}

/// Whether a king on `a` attacks `s`.
pub open spec fn king_sq(a: int, s: int) -> bool {
    0 <= s < 64 && s != a && dist(a / 8, s / 8) <= 1 && dist(a % 8, s % 8) <= 1
}

/// Whether a pawn of `color` on `a` attacks `s`: one rank forward for its side, one file to
/// either side.
pub open spec fn pawn_sq(a: int, color: Color, s: int) -> bool {
    0 <= s < 64 && dist(a % 8, s % 8) == 1 && if color == Color::White {
        s / 8 == a / 8 + 1
    } else {
        s / 8 == a / 8 - 1
    }
}

/// Whether a rook on `a` attacks `s` when the squares of `occ` are occupied: they share a rank
/// or file and no occupied square stands strictly between them.
pub open spec fn rook_sq(a: int, occ: u64, s: int) -> bool {
    0 <= s < 64 && s != a && (same_rank(a, s) || same_file(a, s)) && forall|t: int|
        between_sq(a, s, t) ==> !bit(occ, t)
}

/// Whether a bishop on `a` attacks `s` when the squares of `occ` are occupied.
pub open spec fn bishop_sq(a: int, occ: u64, s: int) -> bool {
    0 <= s < 64 && s != a && !(same_rank(a, s) || same_file(a, s)) && (same_diag(a, s)
        || same_anti(a, s)) && forall|t: int| between_sq(a, s, t) ==> !bit(occ, t)
}

/// Whether `s` is the square `dr` ranks and `df` files away from `a`, on the board.
pub open spec fn jump_sq(a: int, dr: int, df: int, s: int) -> bool {
    0 <= a / 8 + dr < 8 && 0 <= a % 8 + df < 8 && s == (a / 8 + dr) * 8 + (a % 8 + df)
}

/// The square `dr` ranks and `df` files away from `a` as a set: empty off the board.
fn jump(a: i8, dr: i8, df: i8) -> (r: u64)
    requires
        0 <= a < 64,
        -2 <= dr <= 2,
        -2 <= df <= 2,
    ensures
        forall|s: int| bit(r, s) <==> jump_sq(a as int, dr as int, df as int, s),
{
    let r = a / 8 + dr;
    let f = a % 8 + df;
    if r < 0 || r > 7 || f < 0 || f > 7 {
        proof {
            assert forall|s: int| bit(0u64, s) <==> jump_sq(a as int, dr as int, df as int, s) by {
                lemma_bit_zero(s);
            }
        }
        0
    } else {
        let t = (r * 8 + f) as u64;
        proof {
            assert forall|s: int| bit(1u64 << t, s) <==> jump_sq(a as int, dr as int, df as int, s) by {
                lemma_bit_single(t, s);
            }
        }
        1u64 << t
    }
}

/// The squares a knight on `sq` attacks.
pub fn knight_attacks(sq: SQ) -> (r: Bitboard)
    ensures
        forall|s: int| r.has(s) <==> knight_sq(sq.idx(), s),
{
    let a = sq.index() as i8;
    let j1 = jump(a, 1, 2);
    let j2 = jump(a, 2, 1);
    let j3 = jump(a, 2, -1);
    let j4 = jump(a, 1, -2);
    let j5 = jump(a, -1, -2);
    let j6 = jump(a, -2, -1);
    let j7 = jump(a, -2, 1);
    let j8 = jump(a, -1, 2);
    let x = j1 | j2 | j3 | j4 | j5 | j6 | j7 | j8;
    proof {
        let ag = a as int;
        assert forall|s: int| bit(x, s) <==> knight_sq(ag, s) by {
            lemma_bit_or(j1 | j2 | j3 | j4 | j5 | j6 | j7, j8, s);
            lemma_bit_or(j1 | j2 | j3 | j4 | j5 | j6, j7, s);
            lemma_bit_or(j1 | j2 | j3 | j4 | j5, j6, s);
            lemma_bit_or(j1 | j2 | j3 | j4, j5, s);
            lemma_bit_or(j1 | j2 | j3, j4, s);
            lemma_bit_or(j1 | j2, j3, s);
            lemma_bit_or(j1, j2, s);
            assert(bit(j1, s) == jump_sq(ag, 1, 2, s));
            assert(bit(j2, s) == jump_sq(ag, 2, 1, s));
            assert(bit(j3, s) == jump_sq(ag, 2, -1, s));
            assert(bit(j4, s) == jump_sq(ag, 1, -2, s));
            assert(bit(j5, s) == jump_sq(ag, -1, -2, s));
            assert(bit(j6, s) == jump_sq(ag, -2, -1, s));
            assert(bit(j7, s) == jump_sq(ag, -2, 1, s));
            assert(bit(j8, s) == jump_sq(ag, -1, 2, s));
            if 0 <= s < 64 {
                assert(s == (s / 8) * 8 + s % 8);
            }
        }
    }
    Bitboard(x)
}

/// The squares a king on `sq` attacks.
pub fn king_attacks(sq: SQ) -> (r: Bitboard)
    ensures
        forall|s: int| r.has(s) <==> king_sq(sq.idx(), s),
{
    let a = sq.index() as i8;
    let j1 = jump(a, 1, 0);
    let j2 = jump(a, 1, 1);
    let j3 = jump(a, 0, 1);
    let j4 = jump(a, -1, 1);
    let j5 = jump(a, -1, 0);
    let j6 = jump(a, -1, -1);
    let j7 = jump(a, 0, -1);
    let j8 = jump(a, 1, -1);
    let x = j1 | j2 | j3 | j4 | j5 | j6 | j7 | j8;
    proof {
        let ag = a as int;
        assert forall|s: int| bit(x, s) <==> king_sq(ag, s) by {
            lemma_bit_or(j1 | j2 | j3 | j4 | j5 | j6 | j7, j8, s);
            lemma_bit_or(j1 | j2 | j3 | j4 | j5 | j6, j7, s);
            lemma_bit_or(j1 | j2 | j3 | j4 | j5, j6, s);
            lemma_bit_or(j1 | j2 | j3 | j4, j5, s);
            lemma_bit_or(j1 | j2 | j3, j4, s);
            lemma_bit_or(j1 | j2, j3, s);
            lemma_bit_or(j1, j2, s);
            assert(bit(j1, s) == jump_sq(ag, 1, 0, s));
            assert(bit(j2, s) == jump_sq(ag, 1, 1, s));
            assert(bit(j3, s) == jump_sq(ag, 0, 1, s));
            assert(bit(j4, s) == jump_sq(ag, -1, 1, s));
            assert(bit(j5, s) == jump_sq(ag, -1, 0, s));
            assert(bit(j6, s) == jump_sq(ag, -1, -1, s));
            assert(bit(j7, s) == jump_sq(ag, 0, -1, s));
            assert(bit(j8, s) == jump_sq(ag, 1, -1, s));
            if 0 <= s < 64 {
                assert(s == (s / 8) * 8 + s % 8);
            }
        }
    }
    Bitboard(x)
}

/// The squares a pawn of `color` on `sq` attacks.
pub fn pawn_attacks_sq(sq: SQ, color: Color) -> (r: Bitboard)
    ensures
        forall|s: int| r.has(s) <==> pawn_sq(sq.idx(), color, s),
{
    let a = sq.index() as i8;
    let forward: i8 = match color {
        Color::White => 1,
        Color::Black => -1,
    };
    let j1 = jump(a, forward, 1);
    let j2 = jump(a, forward, -1);
    let x = j1 | j2;
    proof {
        let ag = a as int;
        assert forall|s: int| bit(x, s) <==> pawn_sq(ag, color, s) by {
            lemma_bit_or(j1, j2, s);
            assert(bit(j1, s) == jump_sq(ag, forward as int, 1, s));
            assert(bit(j2, s) == jump_sq(ag, forward as int, -1, s));
            if 0 <= s < 64 {
                assert(s == (s / 8) * 8 + s % 8);
            }
        }
    }
    Bitboard(x)
}

/// The squares the pawns `bb` of `color` attack together.
pub fn pawn_attacks_bb(bb: Bitboard, color: Color) -> (r: Bitboard)
    ensures
        forall|s: int| r.has(s) <==> exists|a: int| #[trigger] bb.has(a) && pawn_sq(a, color, s),
{
    let (d1, d2) = match color {
        Color::White => (Direction::NorthEast, Direction::NorthWest),
        Color::Black => (Direction::SouthEast, Direction::SouthWest),
    };
    let l = bb.shift(d1);
    let h = bb.shift(d2);
    let x = l.0 | h.0;
    proof {
        assert forall|s: int| bit(x, s) <==> exists|a: int| #[trigger] bb.has(a) && pawn_sq(a, color, s) by {
            lemma_bit_or(l.0, h.0, s);
            assert(l.has(s) == (0 <= s - d1.offset() < 64 && step_ok(d1, s - d1.offset()) && bb.has(s - d1.offset())));
            assert(h.has(s) == (0 <= s - d2.offset() < 64 && step_ok(d2, s - d2.offset()) && bb.has(s - d2.offset())));
            if exists|a: int| #[trigger] bb.has(a) && pawn_sq(a, color, s) {
                let a = choose|a: int| #[trigger] bb.has(a) && pawn_sq(a, color, s);
                assert(0 <= a < 64);
                assert(a == (a / 8) * 8 + a % 8);
                assert(s == (s / 8) * 8 + s % 8);
            }
            if bit(x, s) {
                if l.has(s) {
                    let a = s - d1.offset();
                    assert(a == (a / 8) * 8 + a % 8);
                    assert(bb.has(a) && pawn_sq(a, color, s));
                } else {
                    let a = s - d2.offset();
                    assert(a == (a / 8) * 8 + a % 8);
                    assert(bb.has(a) && pawn_sq(a, color, s));
                }
            }
        }
    }
    Bitboard(x)
}

/// `k` steps in the direction `d`, one of -1, 0 and 1.
pub open spec fn step(k: int, d: int) -> int {
    if d > 0 {
        k
    } else if d < 0 {
        -k
    } else {
        0
    }
}

/// Whether the square `k` steps from `a`, rank by `dr` and file by `df` each step, stands on
/// the board.
pub open spec fn ray_on_board(a: int, dr: int, df: int, k: int) -> bool {
    0 <= a / 8 + step(k, dr) < 8 && 0 <= a % 8 + step(k, df) < 8
}

/// The square `k` steps from `a`, rank by `dr` and file by `df` each step.
pub open spec fn ray_at(a: int, dr: int, df: int, k: int) -> int {
    (a / 8 + step(k, dr)) * 8 + (a % 8 + step(k, df))
}

/// Whether `s` is the square `k >= 1` steps from `a` in that direction, on the board, with no
/// square of `occ` on the steps before it.
pub open spec fn ray_hit(a: int, occ: u64, dr: int, df: int, k: int, s: int) -> bool {
    &&& 1 <= k
    &&& ray_on_board(a, dr, df, k)
    &&& s == ray_at(a, dr, df, k)
    &&& forall|j: int| 1 <= j < k ==> !bit(occ, #[trigger] ray_at(a, dr, df, j))
}

/// Whether a slider on `a` moving rank by `dr` and file by `df` each step attacks `s` when the
/// squares of `occ` are occupied.
pub open spec fn ray_sq(a: int, occ: u64, dr: int, df: int, s: int) -> bool {
    exists|k: int| #[trigger] ray_hit(a, occ, dr, df, k, s)
}

/// The squares a slider on `sq` attacks in one direction, rank by `dr` and file by `df` each
/// step: up to the first occupied square, which it attacks too, or the edge of the board.
fn ray_attacks(sq: SQ, occ: Bitboard, dr: i8, df: i8) -> (r: Bitboard)
    requires
        -1 <= dr <= 1,
        -1 <= df <= 1,
        dr != 0 || df != 0,
    ensures
        forall|s: int| r.has(s) <==> ray_sq(sq.idx(), occ.0, dr as int, df as int, s),
{
    let a = sq.index() as i8;
    let ghost ag = a as int;
    let mut r: i8 = a / 8;
    let mut f: i8 = a % 8;
    let mut x: u64 = 0;
    let ghost mut k: int = 0;
    loop
        invariant_except_break
            0 <= k <= 7,
            ag == sq.idx(),
            0 <= ag < 64,
            r == ag / 8 + step(k, dr as int),
            f == ag % 8 + step(k, df as int),
            0 <= r < 8,
            0 <= f < 8,
            -1 <= dr <= 1,
            -1 <= df <= 1,
            dr != 0 || df != 0,
            forall|j: int| 1 <= j <= k ==> !bit(occ.0, #[trigger] ray_at(ag, dr as int, df as int, j)),
            forall|s: int| bit(x, s) <==> exists|j: int| 1 <= j <= k && #[trigger] ray_hit(ag, occ.0, dr as int, df as int, j, s),
        ensures
            forall|s: int| bit(x, s) <==> ray_sq(sq.idx(), occ.0, dr as int, df as int, s),
        decreases 8 - k,
    {
        let nr = r + dr;
        let nf = f + df;
        if nr < 0 || nr > 7 || nf < 0 || nf > 7 {
            proof {
                assert forall|s: int| bit(x, s) <==> ray_sq(ag, occ.0, dr as int, df as int, s) by {
                    if ray_sq(ag, occ.0, dr as int, df as int, s) {
                        let j = choose|j: int| #[trigger] ray_hit(ag, occ.0, dr as int, df as int, j, s);
                        if j > k {
                            assert(ray_on_board(ag, dr as int, df as int, j));
                            assert(!ray_on_board(ag, dr as int, df as int, k + 1));
                            assert(false);
                        }
                    }
                }
            }
            break;
        }
        let s = (nr * 8 + nf) as u64;
        let ghost old_x = x;
        x = x | (1u64 << s);
        proof {
            assert(s as int == ray_at(ag, dr as int, df as int, k + 1));
            assert(ray_on_board(ag, dr as int, df as int, k + 1));
            assert(ray_hit(ag, occ.0, dr as int, df as int, k + 1, s as int));
            assert forall|t: int| bit(x, t) <==> exists|j: int| 1 <= j <= k + 1 && #[trigger] ray_hit(ag, occ.0, dr as int, df as int, j, t) by {
                lemma_bit_or(old_x, 1u64 << s, t);
                lemma_bit_single(s, t);
                if exists|j: int| 1 <= j <= k + 1 && #[trigger] ray_hit(ag, occ.0, dr as int, df as int, j, t) {
                    let j = choose|j: int| 1 <= j <= k + 1 && #[trigger] ray_hit(ag, occ.0, dr as int, df as int, j, t);
                    if j <= k {
                        assert(bit(old_x, t));
                    }
                }
            }
            k = k + 1;
        }
        if (occ.0 >> s) & 1u64 == 1u64 {
            proof {
                assert(bit(occ.0, ray_at(ag, dr as int, df as int, k)));
                assert forall|t: int| bit(x, t) <==> ray_sq(ag, occ.0, dr as int, df as int, t) by {
                    if ray_sq(ag, occ.0, dr as int, df as int, t) {
                        let j = choose|j: int| #[trigger] ray_hit(ag, occ.0, dr as int, df as int, j, t);
                        if j > k {
                            assert(!bit(occ.0, ray_at(ag, dr as int, df as int, k)));
                        }
                    }
                }
            }
            break;
        }
        r = nr;
        f = nf;
    }
    Bitboard(x)
}

/// The number of steps from `a` to `t` along the direction, rank by `dr` and file by `df` each
/// step, when `t` lies on that line.
pub open spec fn ray_steps(a: int, dr: int, df: int, t: int) -> int {
    if dr != 0 {
        step(t / 8 - a / 8, dr)
    } else {
        step(t % 8 - a % 8, df)
    }
}

/// The squares strictly between a square and a square on one of its rays are the steps of the
/// ray before it.
proof fn lemma_between_on_ray(a: int, dr: int, df: int, k: int, t: int)
    requires
        0 <= a < 64,
        -1 <= dr <= 1,
        -1 <= df <= 1,
        dr != 0 || df != 0,
        1 <= k,
        ray_on_board(a, dr, df, k),
    ensures
        between_sq(a, ray_at(a, dr, df, k), t) <==> (0 <= t < 64 && 1 <= ray_steps(a, dr, df, t) < k && t == ray_at(
            a,
            dr,
            df,
            ray_steps(a, dr, df, t),
        )),
{
    let s = ray_at(a, dr, df, k);
    assert(s / 8 == a / 8 + step(k, dr) && s % 8 == a % 8 + step(k, df));
    if 0 <= t < 64 {
        assert(t == (t / 8) * 8 + t % 8);
        let j = ray_steps(a, dr, df, t);
        if 1 <= j < k && t == ray_at(a, dr, df, j) {
            assert(t / 8 == a / 8 + step(j, dr) && t % 8 == a % 8 + step(j, df));
        }
    }
}

/// A rook attacks along the four straight rays.
pub proof fn lemma_rook_rays(a: int, occ: u64, s: int)
    requires
        0 <= a < 64,
    ensures
        rook_sq(a, occ, s) <==> (ray_sq(a, occ, 1, 0, s) || ray_sq(a, occ, -1, 0, s) || ray_sq(a, occ, 0, 1, s)
            || ray_sq(a, occ, 0, -1, s)),
{
    lemma_ray_dir(a, occ, 1, 0, s);
    lemma_ray_dir(a, occ, -1, 0, s);
    lemma_ray_dir(a, occ, 0, 1, s);
    lemma_ray_dir(a, occ, 0, -1, s);
    if rook_sq(a, occ, s) {
        assert(s == (s / 8) * 8 + s % 8);
    }
}

/// A bishop attacks along the four diagonal rays.
pub proof fn lemma_bishop_rays(a: int, occ: u64, s: int)
    requires
        0 <= a < 64,
    ensures
        bishop_sq(a, occ, s) <==> (ray_sq(a, occ, 1, 1, s) || ray_sq(a, occ, -1, -1, s) || ray_sq(a, occ, 1, -1, s)
            || ray_sq(a, occ, -1, 1, s)),
{
    lemma_ray_dir(a, occ, 1, 1, s);
    lemma_ray_dir(a, occ, -1, -1, s);
    lemma_ray_dir(a, occ, 1, -1, s);
    lemma_ray_dir(a, occ, -1, 1, s);
    if bishop_sq(a, occ, s) {
        assert(s == (s / 8) * 8 + s % 8);
    }
}

/// `s` is attacked along one ray exactly when it lies on that ray, on the board, with nothing
/// of `occ` strictly between.
proof fn lemma_ray_dir(a: int, occ: u64, dr: int, df: int, s: int)
    requires
        0 <= a < 64,
        -1 <= dr <= 1,
        -1 <= df <= 1,
        dr != 0 || df != 0,
    ensures
        ray_sq(a, occ, dr, df, s) <==> (0 <= s < 64 && 1 <= ray_steps(a, dr, df, s) && ray_on_board(a, dr, df, ray_steps(a, dr, df, s))
            && s == ray_at(a, dr, df, ray_steps(a, dr, df, s)) && forall|t: int| between_sq(a, s, t) ==> !bit(occ, t)),
{
    if ray_sq(a, occ, dr, df, s) {
        let k = choose|k: int| #[trigger] ray_hit(a, occ, dr, df, k, s);
        assert(s / 8 == a / 8 + step(k, dr) && s % 8 == a % 8 + step(k, df));
        assert(ray_steps(a, dr, df, s) == k);
        assert forall|t: int| between_sq(a, s, t) implies !bit(occ, t) by {
            lemma_between_on_ray(a, dr, df, k, t);
            assert(!bit(occ, ray_at(a, dr, df, ray_steps(a, dr, df, t))));
        }
    }
    let k = ray_steps(a, dr, df, s);
    if 0 <= s < 64 && 1 <= k && ray_on_board(a, dr, df, k) && s == ray_at(a, dr, df, k) && forall|t: int| between_sq(a, s, t) ==> !bit(occ, t) {
        assert forall|j: int| 1 <= j < k implies !bit(occ, #[trigger] ray_at(a, dr, df, j)) by {
            let t = ray_at(a, dr, df, j);
            assert(ray_on_board(a, dr, df, j));
            assert(0 <= t < 64);
            assert(t / 8 == a / 8 + step(j, dr) && t % 8 == a % 8 + step(j, df));
            assert(ray_steps(a, dr, df, t) == j);
            lemma_between_on_ray(a, dr, df, k, t);
        }
        assert(ray_hit(a, occ, dr, df, k, s));
    }
}

/// The squares a rook on `sq` attacks when the squares of `occ` are occupied.
pub fn rook_attacks(sq: SQ, occ: Bitboard) -> (r: Bitboard)
    ensures
        forall|s: int| r.has(s) <==> rook_sq(sq.idx(), occ.0, s),
{
    let n = ray_attacks(sq, occ, 1, 0);
    let so = ray_attacks(sq, occ, -1, 0);
    let e = ray_attacks(sq, occ, 0, 1);
    let w = ray_attacks(sq, occ, 0, -1);
    let x = n.0 | so.0 | e.0 | w.0;
    proof {
        assert forall|s: int| bit(x, s) <==> rook_sq(sq.idx(), occ.0, s) by {
            lemma_bit_or(n.0 | so.0 | e.0, w.0, s);
            lemma_bit_or(n.0 | so.0, e.0, s);
            lemma_bit_or(n.0, so.0, s);
            assert(n.has(s) == ray_sq(sq.idx(), occ.0, 1, 0, s));
            assert(so.has(s) == ray_sq(sq.idx(), occ.0, -1, 0, s));
            assert(e.has(s) == ray_sq(sq.idx(), occ.0, 0, 1, s));
            assert(w.has(s) == ray_sq(sq.idx(), occ.0, 0, -1, s));
            lemma_rook_rays(sq.idx(), occ.0, s);
        }
    }
    Bitboard(x)
}

/// The squares a bishop on `sq` attacks when the squares of `occ` are occupied.
pub fn bishop_attacks(sq: SQ, occ: Bitboard) -> (r: Bitboard)
    ensures
        forall|s: int| r.has(s) <==> bishop_sq(sq.idx(), occ.0, s),
{
    let ne = ray_attacks(sq, occ, 1, 1);
    let sw = ray_attacks(sq, occ, -1, -1);
    let nw = ray_attacks(sq, occ, 1, -1);
    let se = ray_attacks(sq, occ, -1, 1);
    let x = ne.0 | sw.0 | nw.0 | se.0;
    proof {
        assert forall|s: int| bit(x, s) <==> bishop_sq(sq.idx(), occ.0, s) by {
            lemma_bit_or(ne.0 | sw.0 | nw.0, se.0, s);
            lemma_bit_or(ne.0 | sw.0, nw.0, s);
            lemma_bit_or(ne.0, sw.0, s);
            assert(ne.has(s) == ray_sq(sq.idx(), occ.0, 1, 1, s));
            assert(sw.has(s) == ray_sq(sq.idx(), occ.0, -1, -1, s));
            assert(nw.has(s) == ray_sq(sq.idx(), occ.0, 1, -1, s));
            assert(se.has(s) == ray_sq(sq.idx(), occ.0, -1, 1, s));
            lemma_bishop_rays(sq.idx(), occ.0, s);
        }
    }
    Bitboard(x)
}

/// The squares a piece of type `pt` on `sq` attacks when the squares of `occ` are occupied;
/// pawns, whose attacks depend on their color, attack nothing here.
pub fn attacks(pt: PieceType, sq: SQ, occ: Bitboard) -> (r: Bitboard)
    ensures
        forall|s: int| r.has(s) <==> match pt {
            PieceType::Pawn => false,
            PieceType::Knight => knight_sq(sq.idx(), s),
            PieceType::Bishop => bishop_sq(sq.idx(), occ.0, s),
            PieceType::Rook => rook_sq(sq.idx(), occ.0, s),
            PieceType::Queen => bishop_sq(sq.idx(), occ.0, s) || rook_sq(sq.idx(), occ.0, s),
            PieceType::King => king_sq(sq.idx(), s),
        },
{
    proof {
        broadcast use lemma_bit_or, crate::bitboard::lemma_bit_zero;

    }
    match pt {
        PieceType::Pawn => Bitboard(0),
        PieceType::Knight => knight_attacks(sq),
        PieceType::Bishop => bishop_attacks(sq, occ),
        PieceType::Rook => rook_attacks(sq, occ),
        PieceType::Queen => {
            let b = bishop_attacks(sq, occ);
            let r = rook_attacks(sq, occ);
            let q = b | r;
            assert forall|s: int| q.has(s) <==> bishop_sq(sq.idx(), occ.0, s) || rook_sq(sq.idx(), occ.0, s) by {
                lemma_bit_or(b.0, r.0, s);
                assert(b.has(s) == bishop_sq(sq.idx(), occ.0, s));
                assert(r.has(s) == rook_sq(sq.idx(), occ.0, s));
            }
            q
        },
        PieceType::King => king_attacks(sq),
    }
}

} // verus!
