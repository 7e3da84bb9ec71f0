use vstd::prelude::*;
use crate::square::{Direction, SQ};
use crate::color::Color;
use vstd::std_specs::bits::{u64_trailing_zeros, u64_leading_zeros, axiom_u64_trailing_zeros, axiom_u64_leading_zeros};

verus! {

/// Whether bit `i` of `x` is set, for a square number `i` in `0..64`.
pub open spec fn bit(x: u64, i: int) -> bool {
    0 <= i < 64 && (x >> (i as u64)) & 1u64 == 1u64
}

/// The number of set bits of `x`.
pub open spec fn popcount(x: u64) -> nat
    decreases x,
{
    if x == 0 {
        0
    } else {
        (x % 2) as nat + popcount(x / 2)
    }
}

/// The bit `j` of the bitwise operations and of the constant words, as the bit-vector solver
/// reads them.
proof fn lemma_word_bits(a: u64, b: u64, k: u64, j: u64)
    by (bit_vector)
    requires
        j < 64,
    ensures
        ((a & b) >> j) & 1u64 == 1u64 <==> ((a >> j) & 1u64 == 1u64 && (b >> j) & 1u64 == 1u64),
        ((a | b) >> j) & 1u64 == 1u64 <==> ((a >> j) & 1u64 == 1u64 || (b >> j) & 1u64 == 1u64),
        ((a ^ b) >> j) & 1u64 == 1u64 <==> ((a >> j) & 1u64 == 1u64) != ((b >> j) & 1u64 == 1u64),
        ((!a) >> j) & 1u64 == 1u64 <==> !((a >> j) & 1u64 == 1u64),
        k < 64 ==> (((1u64 << k) >> j) & 1u64 == 1u64 <==> j == k),
        (0u64 >> j) & 1u64 != 1u64,
        (0xffff_ffff_ffff_ffffu64 >> j) & 1u64 == 1u64,
{
}

pub broadcast proof fn lemma_bit_and(a: u64, b: u64, i: int)
    ensures
        #[trigger] bit(a & b, i) == (bit(a, i) && bit(b, i)),
{
    if 0 <= i < 64 {
        let j = i as u64;
        lemma_word_bits(a, b, 0, j);
    }
}

pub broadcast proof fn lemma_bit_or(a: u64, b: u64, i: int)
    ensures
        #[trigger] bit(a | b, i) == (bit(a, i) || bit(b, i)),
{
    if 0 <= i < 64 {
        let j = i as u64;
        lemma_word_bits(a, b, 0, j);
    }
}

pub broadcast proof fn lemma_bit_xor(a: u64, b: u64, i: int)
    ensures
        #[trigger] bit(a ^ b, i) == (0 <= i < 64 && bit(a, i) != bit(b, i)),
{
    if 0 <= i < 64 {
        let j = i as u64;
        lemma_word_bits(a, b, 0, j);
    }
}

pub broadcast proof fn lemma_bit_not(a: u64, i: int)
    ensures
        #[trigger] bit(!a, i) == (0 <= i < 64 && !bit(a, i)),
{
    if 0 <= i < 64 {
        let j = i as u64;
        lemma_word_bits(a, 0, 0, j);
    }
}

pub broadcast proof fn lemma_bit_single(k: u64, i: int)
    requires
        k < 64,
    ensures
        #[trigger] bit(1u64 << k, i) == (i == k),
{
    if 0 <= i < 64 {
        let j = i as u64;
        lemma_word_bits(0, 0, k, j);
    }
}

pub broadcast proof fn lemma_bit_zero(i: int)
    ensures
        !#[trigger] bit(0u64, i),
{
    if 0 <= i < 64 {
        let j = i as u64;
        lemma_word_bits(0, 0, 0, j);
    }
}

pub broadcast proof fn lemma_bit_all(i: int)
    ensures
        #[trigger] bit(0xffff_ffff_ffff_ffffu64, i) == (0 <= i < 64),
{
    if 0 <= i < 64 {
        let j = i as u64;
        lemma_word_bits(0, 0, 0, j);
    }
}

pub broadcast group group_bit_lemmas {
    lemma_bit_and,
    lemma_bit_or,
    lemma_bit_xor,
    lemma_bit_not,
    lemma_bit_single,
    lemma_bit_zero,
    lemma_bit_all,
}

/// Two words with the same bits are equal.
pub proof fn lemma_bits_ext(a: u64, b: u64)
    requires
        forall|i: int| 0 <= i < 64 ==> bit(a, i) == bit(b, i),
    ensures
        a == b,
{
    let x = a ^ b;
    if x != 0 {
        axiom_u64_trailing_zeros(x);
        let t = u64_trailing_zeros(x) as u64;
        assert(bit(x, t as int));
        lemma_bit_xor(a, b, t as int);
        assert(bit(a, t as int) == bit(b, t as int));
    }
    assert(a ^ b == 0u64 ==> a == b) by (bit_vector);
}

/// No bit outside the board is ever set.
pub proof fn lemma_bit_outside(x: u64)
    ensures
        forall|i: int| !(0 <= i < 64) ==> !bit(x, i),
{
}

/// A word is zero exactly when it has no bit set.
pub proof fn lemma_zero_iff_no_bits(a: u64)
    ensures
        a == 0 <==> forall|i: int| 0 <= i < 64 ==> !bit(a, i),
{
    broadcast use lemma_bit_zero;
    if forall|i: int| 0 <= i < 64 ==> !bit(a, i) {
        lemma_bits_ext(a, 0);
    }
}

/// Clearing the lowest set bit with `x & (x - 1)` removes exactly that bit, the one that
/// `trailing_zeros` finds.
pub proof fn lemma_clear_lowest(x: u64)
    requires
        x != 0,
    ensures
        u64_trailing_zeros(x) < 64,
        bit(x, u64_trailing_zeros(x) as int),
        forall|j: int| 0 <= j < u64_trailing_zeros(x) ==> !bit(x, j),
        x & ((x - 1) as u64) == x ^ (1u64 << (u64_trailing_zeros(x) as u64)),
{
    axiom_u64_trailing_zeros(x);
    let t = u64_trailing_zeros(x) as u64;
    assert(x << ((64 - t) as u64) == 0);
    assert(x & ((x - 1) as u64) == x ^ (1u64 << t)) by (bit_vector)
        requires
            x != 0,
            t < 64,
            (x >> t) & 1u64 == 1u64,
            x << ((64 - t) as u64) == 0,
    ;
    assert forall|j: int| 0 <= j < u64_trailing_zeros(x) implies !bit(x, j) by {
        let k = j as u64;
        assert((x >> k) & 1u64 == 0u64);
    }
}


/// Clearing the lowest set bit makes a nonzero word smaller.
pub proof fn lemma_clear_lowest_smaller(x: u64)
    by (bit_vector)
    ensures
        x != 0 ==> x & ((x - 1) as u64) < x,
{
}

/// The numbers of the set bits of `x`, lowest first.
pub open spec fn squares_of(x: u64) -> Seq<int>
    decreases x,
{
    if x == 0 {
        Seq::empty()
    } else {
        proof {
            lemma_clear_lowest_smaller(x);
        }
        seq![u64_trailing_zeros(x) as int] + squares_of(x & ((x - 1) as u64))
    }
}

/// The numbers that `squares_of` lists are the set bits of `x`, each once.
pub proof fn lemma_squares_of(x: u64)
    ensures
        forall|k: int| 0 <= k < squares_of(x).len() ==> bit(x, #[trigger] squares_of(x)[k]),
        forall|i: int| bit(x, i) ==> exists|k: int| 0 <= k < squares_of(x).len() && #[trigger] squares_of(x)[k] == i,
    decreases x,
{
    broadcast use lemma_bit_xor, lemma_bit_single, lemma_bit_zero;
    if x != 0 {
        let y = x & ((x - 1) as u64);
        lemma_clear_lowest(x);
        lemma_clear_lowest_smaller(x);
        lemma_squares_of(y);
        let t = u64_trailing_zeros(x) as int;
        assert(squares_of(x) == seq![t] + squares_of(y));
        assert forall|k: int| 0 <= k < squares_of(x).len() implies bit(x, #[trigger] squares_of(x)[k]) by {
            if k > 0 {
                assert(squares_of(x)[k] == squares_of(y)[k - 1]);
                assert(bit(y, squares_of(y)[k - 1]));
            }
        }
        assert forall|i: int| bit(x, i) implies exists|k: int| 0 <= k < squares_of(x).len() && #[trigger] squares_of(x)[k] == i by {
            if i == t {
                assert(squares_of(x)[0] == i);
            } else {
                let tt = u64_trailing_zeros(x) as u64;
                assert(y == x ^ (1u64 << tt));
                lemma_bit_xor(x, 1u64 << tt, i);
                lemma_bit_single(tt, i);
                assert(bit(y, i));
                let k = choose|k: int| 0 <= k < squares_of(y).len() && #[trigger] squares_of(y)[k] == i;
                assert(squares_of(x)[k + 1] == i);
            }
        }
    }
}

/// `x & (x - 1)` has one set bit less than `x`.
pub proof fn lemma_popcount_clear_lowest(x: u64)
    requires
        x != 0,
    ensures
        popcount(x & ((x - 1) as u64)) + 1 == popcount(x),
    decreases x,
{
    if x % 2 == 1 {
        assert(x & ((x - 1) as u64) == (x - 1) as u64) by (bit_vector)
            requires
                x % 2 == 1,
        ;
        let y = (x - 1) as u64;
        assert(y % 2 == 0 && y / 2 == x / 2);
        if y != 0 {
            assert(popcount(y) == popcount(y / 2));
        } else {
            assert(x == 1);
            assert(popcount(1) == 1 + popcount(0));
        }
    } else {
        let h = x / 2;
        assert(h != 0);
        assert(x & ((x - 1) as u64) == (((h & ((h - 1) as u64)) * 2) as u64)) by (bit_vector)
            requires
                x % 2 == 0,
                x != 0,
                h == x / 2,
        ;
        lemma_popcount_clear_lowest(h);
        let z = h & ((h - 1) as u64);
        assert(z <= h) by (bit_vector)
            requires
                z == h & ((h - 1) as u64),
        ;
        let w = ((z * 2) as u64);
        assert(w / 2 == z && w % 2 == 0);
        if w != 0 {
            assert(popcount(w) == popcount(z));
        } else {
            assert(z == 0);
        }
    }
}

/// Clearing a set bit takes one from the count of set bits.
pub proof fn lemma_popcount_clear_bit(x: u64, k: u64)
    requires
        k < 64,
        bit(x, k as int),
    ensures
        popcount(x ^ (1u64 << k)) + 1 == popcount(x),
    decreases x,
{
    broadcast use lemma_bit_xor, lemma_bit_single, lemma_bit_and;

    lemma_zero_iff_no_bits(x);
    lemma_clear_lowest(x);
    lemma_popcount_clear_lowest(x);
    let t = u64_trailing_zeros(x) as u64;
    if t == k {
        assert(x & ((x - 1) as u64) == x ^ (1u64 << k));
    } else {
        let y = x & ((x - 1) as u64);
        assert(y == x ^ (1u64 << t));
        assert(t < k);
        lemma_clear_lowest_smaller(x);
        assert(bit(y, k as int));
        lemma_popcount_clear_bit(y, k);
        let z = x ^ (1u64 << k);
        assert(z != 0) by {
            assert(bit(z, t as int));
            lemma_zero_iff_no_bits(z);
        }
        lemma_clear_lowest(z);
        lemma_popcount_clear_lowest(z);
        let tz = u64_trailing_zeros(z) as u64;
        assert(tz == t) by {
            assert(bit(z, t as int));
            if tz < t {
                assert(bit(z, tz as int));
                assert(!bit(x, tz as int));
            }
        }
        assert(z ^ (1u64 << t) == y ^ (1u64 << k)) by {
            assert forall|i: int| 0 <= i < 64 implies bit(z ^ (1u64 << t), i) == bit(y ^ (1u64 << k), i) by {}
            lemma_bits_ext(z ^ (1u64 << t), y ^ (1u64 << k));
        }
    }
}

/// A word with no bit at or above position `k` has at most `k` set bits.
pub proof fn lemma_popcount_le(x: u64, k: u64)
    requires
        k <= 64,
        x >> k == 0,
    ensures
        popcount(x) <= k,
    decreases k,
{
    if k == 0 {
        assert(x >> 0u64 == x) by (bit_vector);
    } else if x != 0 {
        let h = x / 2;
        assert((x / 2) >> ((k - 1) as u64) == 0) by (bit_vector)
            requires
                1 <= k <= 64,
                x >> k == 0,
        ;
        lemma_popcount_le(h, (k - 1) as u64);
    }
}

/// A word has at most 64 set bits, and none exactly when it is zero.
pub proof fn lemma_popcount_basics(x: u64)
    ensures
        popcount(x) <= 64,
        popcount(x) == 0 <==> x == 0,
{
    assert(x >> 64u64 == 0) by (bit_vector);
    lemma_popcount_le(x, 64);
    if x != 0 {
        lemma_popcount_clear_lowest(x);
    }
}

/// The number of set bits of a word, counted by clearing the lowest one until none is left.
fn u64_count_ones(x: u64) -> (r: u32)
    ensures
        r == popcount(x),
{
    proof {
        lemma_popcount_basics(x);
    }
    let mut y = x;
    let mut n: u32 = 0;
    while y != 0
        invariant
            n + popcount(y) == popcount(x),
            popcount(x) <= 64,
        decreases y,
    {
        proof {
            lemma_popcount_clear_lowest(y);
            lemma_clear_lowest_smaller(y);
        }
        y = y & (y - 1);
        n = n + 1;
    }
    n
}

/// The word with the bits of `x` in reverse order: bit `i` of `x` becomes bit `63 - i`.
fn u64_reverse_bits(x: u64) -> (r: u64)
    ensures
        forall|i: int| 0 <= i < 64 ==> bit(r, i) == bit(x, 63 - i),
{
    broadcast use lemma_bit_or, lemma_bit_zero;
    let mut r: u64 = 0;
    let mut i: u64 = 0;
    while i < 64
        invariant
            i <= 64,
            forall|j: int| 0 <= j < 64 ==> bit(r, j) == (63 - j < i && bit(x, 63 - j)),
        decreases 64 - i,
    {
        let set = (x >> i) & 1 == 1;
        assert(set == bit(x, i as int));
        if set {
            let k: u64 = 63 - i;
            let r2 = r | (1u64 << k);
            assert forall|j: int| 0 <= j < 64 implies bit(r2, j) == (63 - j < i + 1 && bit(x, 63 - j)) by {
                lemma_bit_single(k, j);
                lemma_bit_or(r, 1u64 << k, j);
            }
            r = r2;
        }
        i = i + 1;
    }
    r
}

/// A set of squares: bit `i` stands for the square numbered `i`.
#[derive(Clone, Copy, PartialEq, Eq, Structural, Debug, Default)]
pub struct Bitboard(pub u64);

impl Bitboard {
    /// Whether the square numbered `i` is in the set.
    pub open spec fn has(self, i: int) -> bool {
        bit(self.0, i)
    }
}

/// Whether a step in the direction `dir` from the square `j` stays on the board.
pub open spec fn step_ok(dir: Direction, j: int) -> bool {
    match dir {
        Direction::North => j / 8 < 7,
        Direction::South => j / 8 > 0,
        Direction::NorthNorth => j / 8 < 6,
        Direction::SouthSouth => j / 8 > 1,
        Direction::East => j % 8 < 7,
        Direction::West => j % 8 > 0,
        Direction::NorthEast => j / 8 < 7 && j % 8 < 7,
        Direction::NorthWest => j / 8 < 7 && j % 8 > 0,
        Direction::SouthEast => j / 8 > 0 && j % 8 < 7,
        Direction::SouthWest => j / 8 > 0 && j % 8 > 0,
    }
}

/// The word that shifting the set `x` one step in the direction `dir` gives.
pub open spec fn shifted(x: u64, dir: Direction) -> u64 {
    match dir {
        Direction::North => x << 8u64,
        Direction::South => x >> 8u64,
        Direction::NorthNorth => x << 16u64,
        Direction::SouthSouth => x >> 16u64,
        Direction::East => (x << 1u64) & !0x0101_0101_0101_0101u64,
        Direction::West => (x >> 1u64) & !0x8080_8080_8080_8080u64,
        Direction::NorthEast => (x & !0x8080_8080_8080_8080u64) << 9u64,
        Direction::NorthWest => (x & !0x0101_0101_0101_0101u64) << 7u64,
        Direction::SouthEast => (x & !0x8080_8080_8080_8080u64) >> 7u64,
        Direction::SouthWest => (x & !0x0101_0101_0101_0101u64) >> 9u64,
    }
}

/// The bits of `x` shifted one step towards higher squares, as the bit-vector solver reads
/// them.
proof fn lemma_shift_bits_up(x: u64, j: u64)
    by (bit_vector)
    requires
        j < 64,
    ensures
        ((x << 8u64) >> j) & 1u64 == 1u64 <==> (j >= 8u64 && ((j - 8u64) as u64) / 8 < 7 && (x >> ((j - 8u64) as u64)) & 1u64 == 1u64),
        ((x << 16u64) >> j) & 1u64 == 1u64 <==> (j >= 16u64 && ((j - 16u64) as u64) / 8 < 6 && (x >> ((j - 16u64) as u64)) & 1u64 == 1u64),
        (((x << 1u64) & !0x0101_0101_0101_0101u64) >> j) & 1u64 == 1u64 <==> (j >= 1u64 && ((j - 1u64) as u64) % 8 < 7 && (x >> ((j - 1u64) as u64)) & 1u64 == 1u64),
        (((x & !0x8080_8080_8080_8080u64) << 9u64) >> j) & 1u64 == 1u64 <==> (j >= 9u64 && ((j - 9u64) as u64) / 8 < 7 && ((j - 9u64) as u64) % 8 < 7 && (x >> ((j - 9u64) as u64)) & 1u64 == 1u64),
        (((x & !0x0101_0101_0101_0101u64) << 7u64) >> j) & 1u64 == 1u64 <==> (j >= 7u64 && ((j - 7u64) as u64) / 8 < 7 && ((j - 7u64) as u64) % 8 > 0 && (x >> ((j - 7u64) as u64)) & 1u64 == 1u64),
{
}

/// The bits of `x` shifted one step towards lower squares, as the bit-vector solver reads
/// them.
proof fn lemma_shift_bits_down(x: u64, j: u64)
    by (bit_vector)
    requires
        j < 64,
    ensures
        ((x >> 8u64) >> j) & 1u64 == 1u64 <==> (j + 8u64 < 64 && (j + 8u64) / 8 > 0 && (x >> (j + 8u64)) & 1u64 == 1u64),
        ((x >> 16u64) >> j) & 1u64 == 1u64 <==> (j + 16u64 < 64 && (j + 16u64) / 8 > 1 && (x >> (j + 16u64)) & 1u64 == 1u64),
        (((x >> 1u64) & !0x8080_8080_8080_8080u64) >> j) & 1u64 == 1u64 <==> (j + 1u64 < 64 && (j + 1u64) % 8 > 0 && (x >> (j + 1u64)) & 1u64 == 1u64),
        (((x & !0x8080_8080_8080_8080u64) >> 7u64) >> j) & 1u64 == 1u64 <==> (j + 7u64 < 64 && (j + 7u64) / 8 > 0 && (j + 7u64) % 8 < 7 && (x >> (j + 7u64)) & 1u64 == 1u64),
        (((x & !0x0101_0101_0101_0101u64) >> 9u64) >> j) & 1u64 == 1u64 <==> (j + 9u64 < 64 && (j + 9u64) / 8 > 0 && (j + 9u64) % 8 > 0 && (x >> (j + 9u64)) & 1u64 == 1u64),
{
}


/// A square is in the shifted set exactly when the square one step back is in the set
/// and the step from it stays on the board.
pub proof fn lemma_shifted(x: u64, dir: Direction, i: int)
    ensures
        bit(shifted(x, dir), i) == (0 <= i - dir.offset() < 64 && step_ok(dir, i - dir.offset())
            && bit(x, i - dir.offset())),
{
    if 0 <= i < 64 {
        let j = i as u64;
        lemma_shift_bits_up(x, j);
        lemma_shift_bits_down(x, j);
        match dir {
            Direction::North => {
                if j >= 8 {
                    let k = (j - 8) as u64;
                    assert(k == i - 8);
                }
            },
            Direction::South => {},
            Direction::NorthNorth => {
                if j >= 16 {
                    let k = (j - 16) as u64;
                    assert(k == i - 16);
                }
            },
            Direction::SouthSouth => {},
            Direction::East => {
                if j >= 1 {
                    let k = (j - 1) as u64;
                    assert(k == i - 1);
                }
            },
            Direction::West => {},
            Direction::NorthEast => {
                if j >= 9 {
                    let k = (j - 9) as u64;
                    assert(k == i - 9);
                }
            },
            Direction::NorthWest => {
                if j >= 7 {
                    let k = (j - 7) as u64;
                    assert(k == i - 7);
                }
            },
            Direction::SouthEast => {},
            Direction::SouthWest => {},
        }
    }
}

/// Whether squares `a` and `b` share a rank.
pub open spec fn same_rank(a: int, b: int) -> bool {
    a / 8 == b / 8
}

/// Whether squares `a` and `b` share a file.
pub open spec fn same_file(a: int, b: int) -> bool {
    a % 8 == b % 8
}

/// Whether squares `a` and `b` share a diagonal running towards H8.
pub open spec fn same_diag(a: int, b: int) -> bool {
    a / 8 - a % 8 == b / 8 - b % 8
}

/// Whether squares `a` and `b` share a diagonal running towards A8.
pub open spec fn same_anti(a: int, b: int) -> bool {
    a / 8 + a % 8 == b / 8 + b % 8
}

/// Whether `x` lies strictly between `p` and `q`.
pub open spec fn strictly_between(p: int, x: int, q: int) -> bool {
    (p < x < q) || (q < x < p)
}

/// The squares of `Bitboard::between(a, b)`: those strictly between two aligned squares; for a
/// square and itself, the rest of its rank and file.
pub open spec fn between_sq(a: int, b: int, s: int) -> bool {
    0 <= s < 64 && if same_file(a, b) || same_rank(a, b) {
        if a == b {
            s != a && (same_rank(s, a) || same_file(s, a))
        } else if same_rank(a, b) {
            same_rank(s, a) && strictly_between(a % 8, s % 8, b % 8)
        } else {
            same_file(s, a) && strictly_between(a / 8, s / 8, b / 8)
        }
    } else if same_diag(a, b) {
        same_diag(s, a) && strictly_between(a / 8, s / 8, b / 8)
    } else if same_anti(a, b) {
        same_anti(s, a) && strictly_between(a / 8, s / 8, b / 8)
    } else {
        false
    }
}

/// The squares of `Bitboard::line(a, b)`: the whole line through two aligned squares; for a
/// square and itself, its rank and file.
pub open spec fn line_sq(a: int, b: int, s: int) -> bool {
    0 <= s < 64 && if same_file(a, b) || same_rank(a, b) {
        if a == b {
            same_rank(s, a) || same_file(s, a)
        } else if same_rank(a, b) {
            same_rank(s, a)
        } else {
            same_file(s, a)
        }
    } else if same_diag(a, b) {
        same_diag(s, a)
    } else if same_anti(a, b) {
        same_anti(s, a)
    } else {
        false
    }
}

fn between_pred(a: u8, b: u8, s: u8) -> (r: bool)
    requires
        a < 64,
        b < 64,
        s < 64,
    ensures
        r == between_sq(a as int, b as int, s as int),
{
    let (ar, af) = ((a / 8) as i16, (a % 8) as i16);
    let (br, bf) = ((b / 8) as i16, (b % 8) as i16);
    let (sr, sf) = ((s / 8) as i16, (s % 8) as i16);
    let strictly = |p: i16, x: i16, q: i16| -> (r: bool)
        ensures
            r == strictly_between(p as int, x as int, q as int),
        { (p < x && x < q) || (q < x && x < p) };
    if af == bf || ar == br {
        if a == b {
            s != a && (sr == ar || sf == af)
        } else if ar == br {
            sr == ar && strictly(af, sf, bf)
        } else {
            sf == af && strictly(ar, sr, br)
        }
    } else if ar - af == br - bf {
        sr - sf == ar - af && strictly(ar, sr, br)
    } else if ar + af == br + bf {
        sr + sf == ar + af && strictly(ar, sr, br)
    } else {
        false
    }
}

fn line_pred(a: u8, b: u8, s: u8) -> (r: bool)
    requires
        a < 64,
        b < 64,
        s < 64,
    ensures
        r == line_sq(a as int, b as int, s as int),
{
    let (ar, af) = ((a / 8) as i16, (a % 8) as i16);
    let (br, bf) = ((b / 8) as i16, (b % 8) as i16);
    let (sr, sf) = ((s / 8) as i16, (s % 8) as i16);
    if af == bf || ar == br {
        if a == b {
            sr == ar || sf == af
        } else if ar == br {
            sr == ar
        } else {
            sf == af
        }
    } else if ar - af == br - bf {
        sr - sf == ar - af
    } else if ar + af == br + bf {
        sr + sf == ar + af
    } else {
        false
    }
}

impl Bitboard {
    pub const ALL_BITS: u64 = 0xffff_ffff_ffff_ffff;
    pub const LIGHT_SQUARES: u64 = 0x55AA_55AA_55AA_55AA;
    pub const DARK_SQUARES: u64 = 0xAA55_AA55_AA55_AA55;
    pub const WHITE_OO_MASK: u64 = 0x90;
    pub const WHITE_OOO_MASK: u64 = 0x11;
    pub const WHITE_OO_BLOCKERS_AND_ATTACKERS_MASK: u64 = 0x60;
    pub const WHITE_OOO_BLOCKERS_AND_ATTACKERS_MASK: u64 = 0xe;
    pub const BLACK_OO_MASK: u64 = 0x9000_0000_0000_0000;
    pub const BLACK_OOO_MASK: u64 = 0x1100_0000_0000_0000;
    pub const BLACK_OO_BLOCKERS_AND_ATTACKERS_MASK: u64 = 0x6000_0000_0000_0000;
    pub const BLACK_OOO_BLOCKERS_AND_ATTACKERS_MASK: u64 = 0x0E00_0000_0000_0000;
    pub const ALL_CASTLING_MASK: u64 = 0x9100_0000_0000_0091;
    pub const WHITE_OOO_DANGER: u64 = 0x2;
    pub const BLACK_OOO_DANGER: u64 = 0x0200_0000_0000_0000;
    pub const CENTER: u64 = 0x18_1800_0000;

    /// The empty set.
    pub fn zero() -> (r: Bitboard)
        ensures
            r.0 == 0,
            forall|i: int| !r.has(i),
    {
        proof {
            broadcast use lemma_bit_zero;

        }
        Bitboard(0)
    }

    /// The set of all 64 squares.
    pub fn all() -> (r: Bitboard)
        ensures
            r.0 == 0xffff_ffff_ffff_ffffu64,
            forall|i: int| r.has(i) <==> 0 <= i < 64,
    {
        proof {
            broadcast use lemma_bit_all;

        }
        Bitboard(0xffff_ffff_ffff_ffff)
    }

    /// The lowest square of a non-empty set.
    pub fn lsb(&self) -> (r: SQ)
        requires
            self.0 != 0,
        ensures
            r.idx() == u64_trailing_zeros(self.0),
            self.has(r.idx()),
            forall|j: int| 0 <= j < r.idx() ==> !self.has(j),
    {
        proof {
            lemma_clear_lowest(self.0);
        }
        SQ::from_u8(self.0.trailing_zeros() as u8)
    }

    /// The highest square of a non-empty set.
    pub fn msb(&self) -> (r: SQ)
        requires
            self.0 != 0,
        ensures
            self.has(r.idx()),
            forall|j: int| r.idx() < j < 64 ==> !self.has(j),
    {
        let x = self.0;
        let lz = x.leading_zeros();
        proof {
            axiom_u64_leading_zeros(x);
            let t = (63 - lz) as u64;
            assert((x >> t) & 1u64 != 0u64);
            assert((x >> t) & 1u64 != 0u64 ==> (x >> t) & 1u64 == 1u64) by (bit_vector);
            assert forall|j: int| t < j < 64 implies !bit(x, j) by {
                let k = j as u64;
                assert((x >> k) & 1u64 == 0u64);
            }
        }
        SQ::from_u8((63 - lz) as u8)
    }

    /// Removes the lowest square of a non-empty set and returns it.
    pub fn pop_lsb(&mut self) -> (r: SQ)
        requires
            old(self).0 != 0,
        ensures
            r.idx() == u64_trailing_zeros(old(self).0),
            old(self).has(r.idx()),
            forall|j: int| 0 <= j < r.idx() ==> !old(self).has(j),
            final(self).0 == old(self).0 & ((old(self).0 - 1) as u64),
            forall|i: int| final(self).has(i) <==> (old(self).has(i) && i != r.idx()),
    {
        let s = self.lsb();
        proof {
            lemma_clear_lowest(self.0);
            broadcast use lemma_bit_xor, lemma_bit_single;

        }
        self.0 = self.0 & (self.0 - 1);
        s
    }

    /// Whether the set holds two squares or more.
    pub fn is_several(&self) -> (r: bool)
        ensures
            r == (popcount(self.0) >= 2),
    {
        let x = self.0;
        proof {
            lemma_popcount_basics(x);
            if x != 0 {
                lemma_popcount_clear_lowest(x);
                lemma_popcount_basics(x & ((x - 1) as u64));
            } else {
                assert(0u64 & 0u64.wrapping_sub(1) == 0) by (bit_vector);
            }
        }
        x & x.wrapping_sub(1) != 0
    }

    /// Whether the set holds exactly one square.
    pub fn is_single(&self) -> (r: bool)
        ensures
            r == (popcount(self.0) == 1),
    {
        proof {
            lemma_popcount_basics(self.0);
        }
        self.0 != 0 && !self.is_several()
    }

    /// The number of squares of the set.
    pub fn pop_count(&self) -> (r: i32)
        ensures
            r == popcount(self.0),
    {
        proof {
            lemma_popcount_basics(self.0);
        }
        u64_count_ones(self.0) as i32
    }

    /// The set moved one step in the direction `dir`; squares that would leave the board drop
    /// out.
    pub fn shift(self, dir: Direction) -> (r: Bitboard)
        ensures
            r.0 == shifted(self.0, dir),
            forall|i: int| #[trigger] r.has(i) == (0 <= i - dir.offset() < 64 && step_ok(dir, i - dir.offset())
                && self.has(i - dir.offset())),
    {
        let x = self.0;
        let v = match dir {
            Direction::North => x << 8u64,
            Direction::South => x >> 8u64,
            Direction::NorthNorth => x << 16u64,
            Direction::SouthSouth => x >> 16u64,
            Direction::East => (x << 1u64) & !0x0101_0101_0101_0101u64,
            Direction::West => (x >> 1u64) & !0x8080_8080_8080_8080u64,
            Direction::NorthEast => (x & !0x8080_8080_8080_8080u64) << 9u64,
            Direction::NorthWest => (x & !0x0101_0101_0101_0101u64) << 7u64,
            Direction::SouthEast => (x & !0x8080_8080_8080_8080u64) >> 7u64,
            Direction::SouthWest => (x & !0x0101_0101_0101_0101u64) >> 9u64,
        };
        proof {
            assert forall|i: int| #[trigger] bit(v, i) == (0 <= i - dir.offset() < 64 && step_ok(dir, i - dir.offset())
                && bit(x, i - dir.offset())) by {
                lemma_shifted(x, dir, i);
            }
        }
        Bitboard(v)
    }

    /// The set mirrored end to end: square `i` goes to square `63 - i`.
    pub fn reverse(self) -> (r: Bitboard)
        ensures
            forall|i: int| 0 <= i < 64 ==> r.has(i) == self.has(63 - i),
    {
        Bitboard(u64_reverse_bits(self.0))
    }

    /// The set together with its copies one, two and four ranks further in the direction
    /// `dir`, which must be north or south.
    pub fn fill(self, dir: Direction) -> (r: Bitboard)
        requires
            dir == Direction::North || dir == Direction::South,
        ensures
            dir == Direction::North ==> r.0 == self.0 | (self.0 << 8u64) | (self.0 << 16u64) | (
            self.0 << 32u64),
            dir == Direction::South ==> r.0 == self.0 | (self.0 >> 8u64) | (self.0 >> 16u64) | (
            self.0 >> 32u64),
    {
        let x = self.0;
        match dir {
            Direction::North => Bitboard(x | (x << 8u64) | (x << 16u64) | (x << 32u64)),
            _ => Bitboard(x | (x >> 8u64) | (x >> 16u64) | (x >> 32u64)),
        }
    }

    /// The squares on the line through `sq1` and `sq2`; empty when they are not aligned.
    pub fn line(sq1: SQ, sq2: SQ) -> (r: Bitboard)
        ensures
            forall|s: int| r.has(s) <==> line_sq(sq1.idx(), sq2.idx(), s),
    {
        let a = sq1.index() as u8;
        let b = sq2.index() as u8;
        let mut x: u64 = 0;
        let mut s: u8 = 0;
        proof {
            broadcast use group_bit_lemmas;

        }
        while s < 64
            invariant
                s <= 64,
                a < 64,
                b < 64,
                a == sq1.idx(),
                b == sq2.idx(),
                forall|t: int| 0 <= t < s ==> (bit(x, t) <==> line_sq(a as int, b as int, t)),
                forall|t: int| s <= t < 64 ==> !bit(x, t),
            decreases 64 - s,
        {
            proof {
                broadcast use lemma_bit_or, lemma_bit_single;

            }
            if line_pred(a, b, s) {
                x = x | (1u64 << (s as u64));
            }
            s = s + 1;
        }
        proof {
            assert forall|t: int| bit(x, t) <==> line_sq(a as int, b as int, t) by {
                if !(0 <= t < 64) {
                    assert(!bit(x, t));
                }
            }
        }
        Bitboard(x)
    }

    /// The squares strictly between two aligned squares; empty when they are not aligned.
    pub fn between(sq1: SQ, sq2: SQ) -> (r: Bitboard)
        ensures
            forall|s: int| r.has(s) <==> between_sq(sq1.idx(), sq2.idx(), s),
    {
        let a = sq1.index() as u8;
        let b = sq2.index() as u8;
        let mut x: u64 = 0;
        let mut s: u8 = 0;
        proof {
            broadcast use group_bit_lemmas;

        }
        while s < 64
            invariant
                s <= 64,
                a < 64,
                b < 64,
                a == sq1.idx(),
                b == sq2.idx(),
                forall|t: int| 0 <= t < s ==> (bit(x, t) <==> between_sq(a as int, b as int, t)),
                forall|t: int| s <= t < 64 ==> !bit(x, t),
            decreases 64 - s,
        {
            proof {
                broadcast use lemma_bit_or, lemma_bit_single;

            }
            if between_pred(a, b, s) {
                x = x | (1u64 << (s as u64));
            }
            s = s + 1;
        }
        proof {
            assert forall|t: int| bit(x, t) <==> between_sq(a as int, b as int, t) by {
                if !(0 <= t < 64) {
                    assert(!bit(x, t));
                }
            }
        }
        Bitboard(x)
    }

    /// The king and kingside rook home squares of `c`.
    pub fn oo_mask(c: Color) -> (r: Bitboard)
        ensures
            r.0 == (if c == Color::White { Self::WHITE_OO_MASK } else { Self::BLACK_OO_MASK }),
    {
        match c {
            Color::White => Bitboard(Self::WHITE_OO_MASK),
            Color::Black => Bitboard(Self::BLACK_OO_MASK),
        }
    }

    /// The king and queenside rook home squares of `c`.
    pub fn ooo_mask(c: Color) -> (r: Bitboard)
        ensures
            r.0 == (if c == Color::White { Self::WHITE_OOO_MASK } else { Self::BLACK_OOO_MASK }),
    {
        match c {
            Color::White => Bitboard(Self::WHITE_OOO_MASK),
            Color::Black => Bitboard(Self::BLACK_OOO_MASK),
        }
    }

    /// The squares between king and rook that kingside castling needs free and safe.
    pub fn oo_blockers_mask(c: Color) -> (r: Bitboard)
        ensures
            r.0 == (if c == Color::White {
                Self::WHITE_OO_BLOCKERS_AND_ATTACKERS_MASK
            } else {
                Self::BLACK_OO_BLOCKERS_AND_ATTACKERS_MASK
            }),
    {
        match c {
            Color::White => Bitboard(Self::WHITE_OO_BLOCKERS_AND_ATTACKERS_MASK),
            Color::Black => Bitboard(Self::BLACK_OO_BLOCKERS_AND_ATTACKERS_MASK),
        }
    }

    /// The squares between king and rook that queenside castling needs free.
    pub fn ooo_blockers_mask(c: Color) -> (r: Bitboard)
        ensures
            r.0 == (if c == Color::White {
                Self::WHITE_OOO_BLOCKERS_AND_ATTACKERS_MASK
            } else {
                Self::BLACK_OOO_BLOCKERS_AND_ATTACKERS_MASK
            }),
    {
        match c {
            Color::White => Bitboard(Self::WHITE_OOO_BLOCKERS_AND_ATTACKERS_MASK),
            Color::Black => Bitboard(Self::BLACK_OOO_BLOCKERS_AND_ATTACKERS_MASK),
        }
    }

    /// The b-file square that queenside castling may pass while attacked.
    pub fn ignore_ooo_danger(c: Color) -> (r: Bitboard)
        ensures
            r.0 == (if c == Color::White { Self::WHITE_OOO_DANGER } else { Self::BLACK_OOO_DANGER }),
    {
        match c {
            Color::White => Bitboard(Self::WHITE_OOO_DANGER),
            Color::Black => Bitboard(Self::BLACK_OOO_DANGER),
        }
    }

    /// The squares of the set, lowest first.
    pub fn squares(self) -> (r: Vec<SQ>)
        ensures
            r@.len() == popcount(self.0),
            r@.len() == squares_of(self.0).len(),
            forall|k: int| 0 <= k < r@.len() ==> (#[trigger] r@[k]).idx() == squares_of(self.0)[k],
            forall|k: int| 0 <= k < r@.len() ==> self.has((#[trigger] r@[k]).idx()),
            forall|k1: int, k2: int| 0 <= k1 < k2 < r@.len() ==> r@[k1].idx() < r@[k2].idx(),
            forall|i: int| self.has(i) ==> exists|k: int| 0 <= k < r@.len() && (#[trigger] r@[k]).idx() == i,
    {
        let mut rest = self;
        let mut v: Vec<SQ> = Vec::new();
        proof {
            lemma_popcount_basics(self.0);
        }
        while rest.0 != 0
            invariant
                popcount(rest.0) + v@.len() == popcount(self.0),
                forall|i: int| rest.has(i) ==> self.has(i),
                forall|k: int| 0 <= k < v@.len() ==> self.has((#[trigger] v@[k]).idx()),
                forall|k: int, i: int| 0 <= k < v@.len() && #[trigger] rest.has(i) ==> (#[trigger] v@[k]).idx() < i,
                forall|k1: int, k2: int| 0 <= k1 < k2 < v@.len() ==> v@[k1].idx() < v@[k2].idx(),
                forall|i: int| self.has(i) ==> rest.has(i) || exists|k: int| 0 <= k < v@.len() && (#[trigger] v@[k]).idx() == i,
                v@.len() + squares_of(rest.0).len() == squares_of(self.0).len(),
                forall|k: int| 0 <= k < v@.len() ==> (#[trigger] v@[k]).idx() == squares_of(self.0)[k],
                forall|k: int| 0 <= k < squares_of(rest.0).len() ==> #[trigger] squares_of(rest.0)[k] == squares_of(self.0)[v@.len() + k],
            decreases popcount(rest.0),
        {
            proof {
                lemma_popcount_clear_lowest(rest.0);
            }
            let ghost before = rest;
            let ghost vb = v@;
            let sq = rest.pop_lsb();
            assert(squares_of(before.0) == seq![u64_trailing_zeros(before.0) as int] + squares_of(rest.0));
            assert forall|k: int| 0 <= k < squares_of(rest.0).len() implies #[trigger] squares_of(rest.0)[k] == squares_of(self.0)[vb.len() + 1 + k] by {
                assert(squares_of(rest.0)[k] == squares_of(before.0)[k + 1]);
            }
            assert(sq.idx() == squares_of(self.0)[vb.len() as int]) by {
                assert(squares_of(before.0)[0] == sq.idx());
            }
            v.push(sq);
            assert(forall|k: int| 0 <= k < vb.len() ==> v@[k] == vb[k]);
            proof {
                assert forall|i: int| self.has(i) implies rest.has(i) || exists|k: int| 0 <= k < v@.len() && (#[trigger] v@[k]).idx() == i by {
                    if before.has(i) && i == sq.idx() {
                        assert(v@[v@.len() - 1].idx() == i);
                    } else if !before.has(i) {
                        let k = choose|k: int| 0 <= k < vb.len() && (#[trigger] vb[k]).idx() == i;
                        assert(v@[k].idx() == i);
                    }
                }
            }
        }
        proof {
            lemma_zero_iff_no_bits(rest.0);
            lemma_popcount_basics(rest.0);
        }
        v
    }
}

impl core::ops::BitAnd for Bitboard {
    type Output = Self;

    fn bitand(self, rhs: Self) -> (r: Self)
        ensures
            r.0 == self.0 & rhs.0,
    {
        Bitboard(self.0 & rhs.0)
    }
}

impl vstd::std_specs::ops::BitAndSpecImpl for Bitboard {
    open spec fn obeys_bitand_spec() -> bool {
        true
    }

    open spec fn bitand_req(self, rhs: Self) -> bool {
        true
    }

    open spec fn bitand_spec(self, rhs: Self) -> Self {
        Bitboard(self.0 & rhs.0)
    }
}

impl core::ops::BitOr for Bitboard {
    type Output = Self;

    fn bitor(self, rhs: Self) -> (r: Self)
        ensures
            r.0 == self.0 | rhs.0,
    {
        Bitboard(self.0 | rhs.0)
    }
}

impl vstd::std_specs::ops::BitOrSpecImpl for Bitboard {
    open spec fn obeys_bitor_spec() -> bool {
        true
    }

    open spec fn bitor_req(self, rhs: Self) -> bool {
        true
    }

    open spec fn bitor_spec(self, rhs: Self) -> Self {
        Bitboard(self.0 | rhs.0)
    }
}

impl core::ops::BitXor for Bitboard {
    type Output = Self;

    fn bitxor(self, rhs: Self) -> (r: Self)
        ensures
            r.0 == self.0 ^ rhs.0,
    {
        Bitboard(self.0 ^ rhs.0)
    }
}

impl vstd::std_specs::ops::BitXorSpecImpl for Bitboard {
    open spec fn obeys_bitxor_spec() -> bool {
        true
    }

    open spec fn bitxor_req(self, rhs: Self) -> bool {
        true
    }

    open spec fn bitxor_spec(self, rhs: Self) -> Self {
        Bitboard(self.0 ^ rhs.0)
    }
}

impl core::ops::Not for Bitboard {
    type Output = Self;

    fn not(self) -> (r: Self)
        ensures
            r.0 == !self.0,
    {
        Bitboard(!self.0)
    }
}

impl vstd::std_specs::ops::NotSpecImpl for Bitboard {
    open spec fn obeys_not_spec() -> bool {
        true
    }

    open spec fn not_req(self) -> bool {
        true
    }

    open spec fn not_spec(self) -> Self {
        Bitboard(!self.0)
    }
}

impl core::ops::Mul for Bitboard {
    type Output = Self;

    fn mul(self, rhs: Self) -> (r: Self)
        ensures
            r.0 == self.0.wrapping_mul(rhs.0),
    {
        Bitboard(self.0.wrapping_mul(rhs.0))
    }
}

impl vstd::std_specs::ops::MulSpecImpl for Bitboard {
    open spec fn obeys_mul_spec() -> bool {
        true
    }

    open spec fn mul_req(self, rhs: Self) -> bool {
        true
    }

    open spec fn mul_spec(self, rhs: Self) -> Self {
        Bitboard(self.0.wrapping_mul(rhs.0))
    }
}

impl core::ops::Sub for Bitboard {
    type Output = Self;

    fn sub(self, rhs: Self) -> (r: Self)
        ensures
            r.0 == self.0.wrapping_sub(rhs.0),
    {
        Bitboard(self.0.wrapping_sub(rhs.0))
    }
}

impl vstd::std_specs::ops::SubSpecImpl for Bitboard {
    open spec fn obeys_sub_spec() -> bool {
        true
    }

    open spec fn sub_req(self, rhs: Self) -> bool {
        true
    }

    open spec fn sub_spec(self, rhs: Self) -> Self {
        Bitboard(self.0.wrapping_sub(rhs.0))
    }
}

impl core::ops::Shl<u32> for Bitboard {
    type Output = Self;

    fn shl(self, rhs: u32) -> (r: Self)
        ensures
            r.0 == self.0 << rhs,
    {
        Bitboard(self.0 << rhs)
    }
}

impl vstd::std_specs::ops::ShlSpecImpl<u32> for Bitboard {
    open spec fn obeys_shl_spec() -> bool {
        true
    }

    open spec fn shl_req(self, rhs: u32) -> bool {
        rhs < 64
    }

    open spec fn shl_spec(self, rhs: u32) -> Self {
        Bitboard(self.0 << rhs)
    }
}

impl core::ops::Shr<u32> for Bitboard {
    type Output = Self;

    fn shr(self, rhs: u32) -> (r: Self)
        ensures
            r.0 == self.0 >> rhs,
    {
        Bitboard(self.0 >> rhs)
    }
}

impl vstd::std_specs::ops::ShrSpecImpl<u32> for Bitboard {
    open spec fn obeys_shr_spec() -> bool {
        true
    }

    open spec fn shr_req(self, rhs: u32) -> bool {
        rhs < 64
    }

    open spec fn shr_spec(self, rhs: u32) -> Self {
        Bitboard(self.0 >> rhs)
    }
}

impl From<u64> for Bitboard {
    fn from(value: u64) -> (r: Bitboard)
        ensures
            r.0 == value,
    {
        Bitboard(value)
    }
}

impl vstd::std_specs::convert::FromSpecImpl<u64> for Bitboard {
    open spec fn obeys_from_spec() -> bool {
        true
    }

    open spec fn from_spec(v: u64) -> Self {
        Bitboard(v)
    }
}

} // verus!
