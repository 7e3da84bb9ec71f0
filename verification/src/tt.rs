use vstd::prelude::*;
use vstd::bits::{low_bits_mask, lemma_low_bits_mask_values, lemma_u64_low_bits_mask_is_mod, lemma_u8_low_bits_mask_is_mod};
use vstd::arithmetic::power2::lemma2_to64;
use crate::moov::{valid_move_int, Move};
use crate::search::Bound;
use crate::types::{is_checkmate_value, Score};
use crate::board::Board;

verus! {

/// Whether a table word codes an entry: the low sixteen bits are no move or a move, and the
/// bound bits name a bound.
pub open spec fn entry_word_ok(x: u64) -> bool {
    let m = (x & 0xFFFFu64) as u16;
    &&& (m == 0 || valid_move_int(m))
    &&& (x >> 40u64) & 3u64 != 3
}

/// The word of the entry `TTEntry::new(hash, value, m16, depth, bound, age)`, where `m16` is
/// the code of the best move or 0.
pub open spec fn entry_word(hash: u64, value: i32, m16: u16, depth: i8, bound: u64, age: u8) -> u64 {
    (m16 as u64) | (((value as i16) as u16 as u64) << 16u64) | ((depth as u8 as u64) << 32u64) | ((
    bound as u64) << 40u64) | (((age & 0x3Fu8) as u64) << 42u64) | (((hash >> 48u64) as u16 as u64)
        << 48u64)
}

/// The code of an optional move: the move's code, or 0 for none.
pub open spec fn move_word(m: Option<Move>) -> u16 {
    match m {
        Some(mv) => mv.code_int(),
        None => 0,
    }
}

/// A transposition table entry packed in one word: best move in bits 0 to 15, value in 16 to
/// 31, depth in 32 to 39, bound in 40 and 41, age in 42 to 47, and the top sixteen bits of the
/// position hash in 48 to 63.
#[derive(Clone, Copy, PartialEq, Eq, Structural, Debug)]
pub struct TTEntry(u64);

impl TTEntry {
    pub const AGE_MASK: u64 = 0x3F;
    pub const BOUND_MASK: u64 = 0x3;
    pub const DEPTH_MASK: u64 = 0xFF;
    pub const MOVE_MASK: u64 = 0xFFFF;
    pub const VALUE_MASK: u64 = 0xFFFF;
    pub const AGE_SHIFT: u64 = 42;
    pub const BOUND_SHIFT: u64 = 40;
    pub const DEPTH_SHIFT: u64 = 32;
    pub const KEY_SHIFT: u64 = 48;
    pub const VALUE_SHIFT: u64 = 16;

    #[verifier::type_invariant]
    spec fn well_formed(self) -> bool {
        entry_word_ok(self.0)
    }

    /// The word of the entry.
    pub closed spec fn word(self) -> u64 {
        self.0
    }

    pub open spec fn key_spec(self) -> u64 {
        self.word() >> 48u64
    }

    pub open spec fn age_spec(self) -> u8 {
        ((self.word() >> 42u64) & 0x3Fu64) as u8
    }

    pub open spec fn depth_spec(self) -> i8 {
        ((self.word() >> 32u64) & 0xFFu64) as u8 as i8
    }

    pub open spec fn bound_code(self) -> u64 {
        (self.word() >> 40u64) & 3u64
    }

    pub open spec fn value_spec(self) -> i32 {
        ((self.word() >> 16u64) & 0xFFFFu64) as u16 as i16 as i32
    }

    pub open spec fn move_code(self) -> u16 {
        (self.word() & 0xFFFFu64) as u16
    }

    /// Packs an entry. The value keeps its low sixteen bits, the age its low six bits, the hash
    /// its top sixteen bits.
    pub fn new(hash: u64, value: i32, best_move: Option<Move>, depth: i8, bound: Bound, age: u8) -> (r: TTEntry)
        ensures
            r.word() == entry_word(hash, value, move_word(best_move), depth, bound.code(), age),
            r.key_spec() == hash >> 48u64,
            r.age_spec() == age & 0x3Fu8,
            r.depth_spec() == depth,
            r.bound_code() == bound.code(),
            r.value_spec() == (value as i16) as i32,
            r.move_code() == move_word(best_move),
    {
        let key16 = (hash >> 48) as u16 as u64;
        let m16: u16 = match best_move {
            Some(m) => m.move_int(),
            None => 0,
        };
        let value16 = value as i16 as u16 as u64;
        let depth8 = depth as u8 as u64;
        let b = bound.code_u64();
        let age6 = (age & 0x3F) as u64;
        let w = (m16 as u64) | (value16 << 16) | (depth8 << 32) | (b << 40) | (age6 << 42) | (key16
            << 48);
        proof {
            lemma_entry_word_fields(hash, value, m16, depth, b, age);
        }
        TTEntry(w)
    }

    /// The word of the entry.
    pub fn raw(self) -> (r: u64)
        ensures
            r == self.word(),
            entry_word_ok(r),
    {
        proof {
            use_type_invariant(self);
        }
        self.0
    }

    /// The top sixteen bits of the hash of the position the entry belongs to.
    pub fn key(self) -> (r: u64)
        ensures
            r == self.key_spec(),
    {
        self.0 >> 48
    }

    /// The age the entry was written or last found in.
    pub fn age(self) -> (r: u8)
        ensures
            r == self.age_spec(),
    {
        ((self.0 >> 42) & 0x3F) as u8
    }

    /// The search depth of the entry.
    pub fn depth(self) -> (r: i8)
        ensures
            r == self.depth_spec(),
    {
        ((self.0 >> 32) & 0xFF) as u8 as i8
    }

    /// The bound of the value.
    pub fn bound(self) -> (r: Bound)
        ensures
            r.code() == self.bound_code(),
    {
        proof {
            use_type_invariant(self);
        }
        let x = self.0;
        let c = (x >> 40) & 3;
        proof {
            lemma_low_bits_mask_values();
            lemma2_to64();
            lemma_u64_low_bits_mask_is_mod(x >> 40u64, 2);
        }
        Bound::from_code(c as u8)
    }

    /// The value, as a sixteen-bit number.
    pub fn value(self) -> (r: i32)
        ensures
            r == self.value_spec(),
    {
        ((self.0 >> 16) & 0xFFFF) as u16 as i16 as i32
    }

    /// The best move, if one was stored.
    pub fn best_move(self) -> (r: Option<Move>)
        ensures
            self.move_code() == 0 ==> r is None,
            self.move_code() != 0 ==> (r matches Some(m) && m.code_int() == self.move_code()),
    {
        proof {
            use_type_invariant(self);
        }
        let m = (self.0 & 0xFFFF) as u16;
        if m == 0 {
            None
        } else {
            Some(Move::from_int(m))
        }
    }

    /// The entry with its value replaced by the low sixteen bits of `value`.
    pub fn with_value(self, value: i32) -> (r: TTEntry)
        ensures
            r.value_spec() == (value as i16) as i32,
            r.key_spec() == self.key_spec(),
            r.age_spec() == self.age_spec(),
            r.depth_spec() == self.depth_spec(),
            r.bound_code() == self.bound_code(),
            r.move_code() == self.move_code(),
    {
        proof {
            use_type_invariant(self);
        }
        let x = self.0;
        let value16 = (value as i16 as u16 as u64) << 16;
        let cleared = x & !(0xFFFFu64 << 16);
        let w = cleared | value16;
        assert(((w >> 16u64) & 0xFFFFu64) as u16 as i16 as i32 == (value as i16) as i32 && w >> 16u64
            >> 32u64 == x >> 48u64 && (w >> 42u64) & 0x3Fu64 == (x >> 42u64) & 0x3Fu64 && (w
            >> 32u64) & 0xFFu64 == (x >> 32u64) & 0xFFu64 && (w >> 40u64) & 3u64 == (x >> 40u64)
            & 3u64 && w & 0xFFFFu64 == x & 0xFFFFu64 && w >> 48u64 == x >> 48u64) by (bit_vector)
            requires
                value16 == (value as i16 as u16 as u64) << 16u64,
                cleared == x & !(0xFFFFu64 << 16u64),
                w == cleared | value16,
        ;
        TTEntry(w)
    }

    /// The entry with its age replaced by the low six bits of `age`.
    fn with_age(self, age: u8) -> (r: TTEntry)
        ensures
            r.word() == aged(self.word(), age),
            r.age_spec() == age & 0x3Fu8,
            r.key_spec() == self.key_spec(),
            r.value_spec() == self.value_spec(),
            r.depth_spec() == self.depth_spec(),
            r.bound_code() == self.bound_code(),
            r.move_code() == self.move_code(),
    {
        proof {
            use_type_invariant(self);
        }
        let x = self.0;
        let age6 = ((age & 0x3F) as u64) << 42;
        let cleared = x & !(0x3Fu64 << 42);
        let w = cleared | age6;
        assert(((w >> 42u64) & 0x3Fu64) as u8 == age & 0x3Fu8 && w >> 48u64 == x >> 48u64 && (w
            >> 16u64) & 0xFFFFu64 == (x >> 16u64) & 0xFFFFu64 && (w >> 32u64) & 0xFFu64 == (x
            >> 32u64) & 0xFFu64 && (w >> 40u64) & 3u64 == (x >> 40u64) & 3u64 && w & 0xFFFFu64 == x
            & 0xFFFFu64) by (bit_vector)
            requires
                age6 == ((age & 0x3Fu8) as u64) << 42u64,
                cleared == x & !(0x3Fu64 << 42u64),
                w == cleared | age6,
        ;
        TTEntry(w)
    }
}

/// The fields of a packed entry word are what was packed.
proof fn lemma_entry_word_fields(hash: u64, value: i32, m16: u16, depth: i8, b: u64, age: u8)
    by (bit_vector)
    requires
        b < 3,
    ensures
        entry_word(hash, value, m16, depth, b, age) >> 48u64 == hash >> 48u64,
        ((entry_word(hash, value, m16, depth, b, age) >> 42u64) & 0x3Fu64) as u8 == age & 0x3Fu8,
        ((entry_word(hash, value, m16, depth, b, age) >> 32u64) & 0xFFu64) as u8 as i8 == depth,
        (entry_word(hash, value, m16, depth, b, age) >> 40u64) & 3u64 == b,
        ((entry_word(hash, value, m16, depth, b, age) >> 16u64) & 0xFFFFu64) as u16 as i16 as i32
            == (value as i16) as i32,
        (entry_word(hash, value, m16, depth, b, age) & 0xFFFFu64) as u16 == m16,
{
}

/// How many entries a bucket of the table holds.
pub const BUCKET_SIZE: usize = 4;

/// The empty word codes an entry: no move and the exact bound.
proof fn lemma_zero_word_ok()
    by (bit_vector)
    ensures
        (0u64 & 0xFFFFu64) as u16 == 0,
        (0u64 >> 40u64) & 3u64 != 3,
        ((0u64 >> 32u64) & 0xFFu64) as u8 as i8 == 0,
{
}

/// A mask keeps a number at most the mask.
proof fn lemma_and_le(x: usize, m: usize)
    by (bit_vector)
    ensures
        x & m <= m,
{
}

/// How much an entry is worth keeping when the table's age is `age`: its depth, less eight
/// for each age it has missed.
pub open spec fn quality(w: u64, age: u8) -> int {
    ((((w >> 32u64) & 0xFFu64) as u8 as i8) as int) - 8 * ((age.wrapping_sub(((w >> 42u64) & 0x3Fu64) as u8) & 0x3Fu8) as int)
}

/// The sort key of a slot when a victim is chosen: empty slots first, then by quality.
pub open spec fn slot_rank(w: u64, age: u8) -> (bool, int) {
    (w != 0, if w == 0 { 0 } else { quality(w, age) })
}

/// Whether the slot rank `a` sorts strictly before `b`.
pub open spec fn rank_less(a: (bool, int), b: (bool, int)) -> bool {
    (!a.0 && b.0) || (a.0 == b.0 && a.1 < b.1)
}

/// The slot of `words[base..base + 4]` that a new entry replaces: the first of those of least
/// rank, scanning slots `1..k` past slot `best`.
pub open spec fn victim_from(words: Seq<u64>, base: int, age: u8, best: int, k: int) -> int
    decreases 4 - k,
{
    if k >= 4 || k < 1 {
        best
    } else if rank_less(slot_rank(words[base + k], age), slot_rank(words[base + best], age)) {
        victim_from(words, base, age, k, k + 1)
    } else {
        victim_from(words, base, age, best, k + 1)
    }
}

/// Whether slot `j` of the bucket at `base` holds an entry with the key `key`.
pub open spec fn holds_key(words: Seq<u64>, base: int, key: u64, j: int) -> bool {
    words[base + j] != 0 && words[base + j] >> 48u64 == key
}

/// The first slot of `words[base..base + 4]` that holds an entry with key `key`, scanning
/// from slot `k`.
pub open spec fn find_from(words: Seq<u64>, base: int, key: u64, k: int) -> Option<int>
    decreases 4 - k,
{
    if k >= 4 || k < 0 {
        None
    } else if holds_key(words, base, key, k) {
        Some(k)
    } else {
        find_from(words, base, key, k + 1)
    }
}

/// What `find_from` finds: the first slot from `k` on that holds the key, or none when no
/// such slot is left.
pub proof fn lemma_find_from(words: Seq<u64>, base: int, key: u64, k: int)
    requires
        0 <= k <= 4,
    ensures
        match find_from(words, base, key, k) {
            Some(s) => k <= s < 4 && holds_key(words, base, key, s) && forall|j: int|
                k <= j < s ==> !#[trigger] holds_key(words, base, key, j),
            None => forall|j: int| k <= j < 4 ==> !#[trigger] holds_key(words, base, key, j),
        },
    decreases 4 - k,
{
    if k < 4 {
        lemma_find_from(words, base, key, k + 1);
    }
}

/// Writing a word with the key into slot `s`, when no slot from `k` up to `s` holds the key,
/// makes `find_from` find slot `s`.
pub proof fn lemma_find_after_store(words: Seq<u64>, base: int, key: u64, k: int, s: int, w: u64)
    requires
        0 <= k <= s < 4,
        0 <= base,
        base + 4 <= words.len(),
        w != 0,
        w >> 48u64 == key,
        forall|j: int| k <= j < s ==> !#[trigger] holds_key(words, base, key, j),
    ensures
        find_from(words.update(base + s, w), base, key, k) == Some(s),
    decreases s - k,
{
    let u = words.update(base + s, w);
    if k < s {
        assert(!holds_key(words, base, key, k));
        assert(u[base + k] == words[base + k]);
        assert(!holds_key(u, base, key, k));
        lemma_find_after_store(words, base, key, k + 1, s, w);
    } else {
        assert(u[base + s] == w);
        assert(holds_key(u, base, key, s));
    }
}

/// The victim is a slot of the bucket.
pub proof fn lemma_victim_range(words: Seq<u64>, base: int, age: u8, best: int, k: int)
    requires
        0 <= best < 4,
    ensures
        0 <= victim_from(words, base, age, best, k) < 4,
    decreases 4 - k,
{
    if 1 <= k < 4 {
        lemma_victim_range(words, base, age, k, k + 1);
        lemma_victim_range(words, base, age, best, k + 1);
    }
}

/// The value to store for `value` found at distance `ply` from the root: a mate value is made
/// relative to the position by moving it away from zero by `ply`.
pub open spec fn value_to_store(value: i32, ply: int) -> int {
    if is_checkmate_value(value) {
        value + (if value > 0 { ply } else { -ply })
    } else {
        value as int
    }
}

/// The value to report for a stored `value` at distance `ply` from the root: a mate value is
/// moved back towards zero by `ply`.
pub open spec fn value_to_report(value: i32, ply: int) -> int {
    if is_checkmate_value(value) {
        value - (if value > 0 { ply } else { -ply })
    } else {
        value as int
    }
}


/// The depth of the entry in the word `w`.
pub open spec fn depth_of(w: u64) -> i8 {
    ((w >> 32u64) & 0xFFu64) as u8 as i8
}

/// The age of the entry in the word `w`.
pub open spec fn age_of(w: u64) -> u8 {
    ((w >> 42u64) & 0x3Fu64) as u8
}

/// The value of the entry in the word `w`.
pub open spec fn value_of(w: u64) -> i32 {
    ((w >> 16u64) & 0xFFFFu64) as u16 as i16 as i32
}

/// The word `w` with its age replaced by `age`, as `TTEntry::with_age` makes it.
pub open spec fn aged(w: u64, age: u8) -> u64 {
    (w & !(0x3Fu64 << 42u64)) | (((age & 0x3Fu8) as u64) << 42u64)
}

/// Whether a new entry of depth `depth` and bound `bound` replaces the entry in `w` with the
/// same key: an exact bound, an entry of an earlier search, or a depth at most two below.
pub open spec fn should_replace_spec(w: u64, depth: i8, bound: Bound, age: u8) -> bool {
    bound == Bound::Exact || age != age_of(w) || depth >= depth_of(w) - 2
}

/// The smallest power of two not below `n`, searching from `p`.
pub open spec fn pow2_from(n: nat, p: nat) -> nat
    decreases (if p < n { n - p } else { 0 }),
{
    if p == 0 || p >= n {
        p
    } else {
        pow2_from(n, 2 * p)
    }
}

/// How many words among the first `n` hold an entry of age `age`.
pub open spec fn count_fresh(words: Seq<u64>, n: int, age: u8) -> nat
    decreases n,
{
    if n <= 0 {
        0
    } else {
        count_fresh(words, n - 1, age) + if words[n - 1] != 0 && age_of(words[n - 1]) == age {
            1nat
        } else {
            0
        }
    }
}

/// The transposition table: buckets of four entries, addressed by the low bits of the
/// position hash, and the age of the current search.
pub struct TT {
    table: Vec<u64>,
    age: u8,
}

impl TT {
    /// The words of the table, four per bucket.
    pub closed spec fn words(&self) -> Seq<u64> {
        self.table@
    }

    /// The age of the current search.
    pub closed spec fn age_spec(&self) -> u8 {
        self.age
    }

    /// The number of buckets.
    pub open spec fn n_buckets(&self) -> int {
        (self.words().len() / 4) as int
    }

    /// The first word of the bucket of `hash`.
    pub open spec fn base_of(&self, hash: u64) -> int {
        4 * (((hash as usize) & ((self.n_buckets() - 1) as usize)) as int)
    }

    /// The table is a whole number of buckets, a power of two of them, every word codes an
    /// entry, and the age has six bits.
    pub closed spec fn wf(&self) -> bool {
        &&& self.table@.len() % 4 == 0
        &&& self.table@.len() / 4 <= usize::MAX / 4
        &&& forall|i: int| 0 <= i < self.table@.len() ==> entry_word_ok(#[trigger] self.table@[i])
        &&& forall|i: int| 0 <= i < self.table@.len() ==> depth_of(#[trigger] self.table@[i]) >= -126
        &&& self.age < 64
    }

    /// The words after an entry for the hash `h` is stored, as `insert` does: in the first slot
    /// of the bucket with the same key, if the new entry should replace it, else in the
    /// victim slot.
    pub open spec fn insert_spec(&self, h: u64, w: u64, depth: i8, bound: Bound) -> Seq<u64> {
        let base = self.base_of(h);
        match find_from(self.words(), base, h >> 48u64, 0) {
            Some(k) => if should_replace_spec(self.words()[base + k], depth, bound, self.age_spec()) {
                self.words().update(base + k, w)
            } else {
                self.words()
            },
            None => self.words().update(base + victim_from(self.words(), base, self.age_spec(), 0, 1), w),
        }
    }

    /// A table of about `megabytes` megabytes: the largest power of two of buckets of 32 bytes
    /// that fits, and one bucket fewer than that power for a size of zero.
    pub fn new(megabytes: usize) -> (r: TT)
        requires
            megabytes * 1048576 <= usize::MAX,
        ensures
            r.wf(),
            r.words().len() == 4 * (pow2_from((megabytes * 1024 * 1024 / 32 + 1) as nat, 1) / 2),
            forall|i: int| 0 <= i < r.words().len() ==> #[trigger] r.words()[i] == 0,
            r.age_spec() == 0,
    {
        let upper_limit = megabytes * 1024 * 1024 / 32 + 1;
        let mut p: usize = 1;
        while p < upper_limit
            invariant
                1 <= p <= 2 * upper_limit,
                upper_limit <= usize::MAX / 32 + 1,
                pow2_from(upper_limit as nat, p as nat) == pow2_from(upper_limit as nat, 1),
            decreases 2 * upper_limit - p,
        {
            p = p * 2;
        }
        let count = p / 2;
        TT::with_buckets(count)
    }

    /// The first word of the bucket of `hash`.
    fn bucket(&self, hash: u64) -> (r: usize)
        requires
            self.wf(),
            self.words().len() > 0,
        ensures
            r == self.base_of(hash),
            r + 4 <= self.words().len(),
    {
        let nb = self.table.len() / 4;
        proof {
            lemma_and_le(hash as usize, (nb - 1) as usize);
        }
        4 * ((hash as usize) & (nb - 1))
    }

    /// Stores an entry for `board`: its depth, value, best move and bound, with the age of the
    /// current search. A mate value is made relative to the position, `ply` plies from the
    /// root. The entry goes in the first slot of the bucket with the same key, if it should
    /// replace it, or else in the emptiest or least worthy slot.
    pub fn insert(&mut self, board: &Board, depth: i8, value: i32, best_move: Option<Move>, bound: Bound, ply: usize)
        requires
            old(self).wf(),
            old(self).words().len() > 0,
            board.wf(),
            depth >= -126,
            value != i32::MIN,
            ply <= i32::MAX,
            i32::MIN <= value_to_store(value, ply as int) <= i32::MAX,
        ensures
            final(self).wf(),
            final(self).age_spec() == old(self).age_spec(),
            final(self).words().len() == old(self).words().len(),
            final(self).words() == old(self).insert_spec(
                board.hash_spec(),
                entry_word(board.hash_spec(), value_to_store(value, ply as int) as i32, move_word(best_move), depth, bound.code(), old(self).age_spec()),
                depth,
                bound,
            ),
    {
        let hash = board.hash();
        let base = self.bucket(hash);
        let key = hash >> 48;
        let mut k: usize = 0;
        let mut found: bool = false;
        while !found && k < 4
            invariant
                self.wf(),
                base + 4 <= self.words().len(),
                k <= 4,
                !found ==> find_from(self.words(), base as int, key, k as int) == find_from(self.words(), base as int, key, 0),
                found ==> k < 4 && find_from(self.words(), base as int, key, 0) == Some(k as int),
            decreases 4 - k + (if found { 0int } else { 1int }),
        {
            let w = self.table[base + k];
            if w != 0 && w >> 48 == key {
                found = true;
            } else {
                k = k + 1;
            }
        }
        let slot = match found {
            true => {
                let w = self.table[base + k];
                let e = TTEntry(w);
                let d = e.depth();
                if !(bound == Bound::Exact || self.age != e.age() || depth >= d - 2) {
                    return;
                }
                base + k
            },
            false => {
                let mut best: usize = 0;
                let mut j: usize = 1;
                while j < 4
                    invariant
                        self.wf(),
                        base + 4 <= self.words().len(),
                        1 <= j <= 4,
                        best < j,
                        victim_from(self.words(), base as int, self.age, best as int, j as int) == victim_from(self.words(), base as int, self.age, 0, 1),
                    decreases 4 - j,
                {
                    let wj = self.table[base + j];
                    let wb = self.table[base + best];
                    let less = if wj == 0 {
                        wb != 0
                    } else if wb == 0 {
                        false
                    } else {
                        self.quality(TTEntry(wj)) < self.quality(TTEntry(wb))
                    };
                    if less {
                        best = j;
                    }
                    j = j + 1;
                }
                base + best
            },
        };
        let mut stored = value;
        if value.is_checkmate() {
            let p = ply as i32;
            if value > 0 {
                stored = value + p;
            } else {
                stored = value - p;
            }
        }
        let entry = TTEntry::new(hash, stored, best_move, depth, bound, self.age);
        let w = entry.raw();
        proof {
            assert(depth_of(w) == depth);
        }
        self.table.set(slot, w);
    }

    /// How much the entry `e` is worth keeping.
    fn quality(&self, e: TTEntry) -> (r: i32)
        requires
            self.wf(),
        ensures
            r == quality(e.word(), self.age_spec()),
    {
        let relative_age = (self.age.wrapping_sub(e.age()) & 0x3F) as i32;
        e.depth() as i32 - 8 * relative_age
    }

    /// The entry for `board`, if the table holds one with its key; the entry's age is brought
    /// up to the current search in the table. A mate value is made relative to the root, `ply`
    /// plies away.
    pub fn get(&mut self, board: &Board, ply: usize) -> (r: Option<TTEntry>)
        requires
            old(self).wf(),
            old(self).words().len() > 0,
            board.wf(),
            ply <= 0x4000_0000,
        ensures
            final(self).wf(),
            final(self).words().len() == old(self).words().len(),
            TT::got(*old(self), *final(self), board.hash_spec(), ply as int, r),
    {
        let hash = board.hash();
        let base = self.bucket(hash);
        let key = hash >> 48;
        let mut k: usize = 0;
        while k < 4
            invariant
                self.wf(),
                base + 4 <= self.words().len(),
                k <= 4,
                *self == *old(self),
                ply <= 0x4000_0000,
                hash == board.hash_spec(),
                base == self.base_of(hash),
                key == hash >> 48u64,
                find_from(self.words(), base as int, key, k as int) == find_from(self.words(), base as int, key, 0),
            decreases 4 - k,
        {
            let w = self.table[base + k];
            if w != 0 && w >> 48 == key {
                let e = TTEntry(w);
                if e.age() != self.age {
                    let a = e.with_age(self.age);
                    let aw = a.raw();
                    self.table.set(base + k, aw);
                }
                assert(find_from(old(self).words(), base as int, key, 0) == Some(k as int));
                assert(self.words() == old(self).words().update(base + k, if age_of(w) == old(self).age_spec() { w } else { aged(w, old(self).age_spec()) }));
                let v = e.value();
                if v.is_checkmate() {
                    let p = ply as i32;
                    let r = if v > 0 {
                        e.with_value(v - p)
                    } else {
                        e.with_value(v + p)
                    };
                    assert(value_of(w) == v);
                    return Some(r);
                }
                return Some(e);
            }
            k = k + 1;
        }
        None
    }

    /// Empties every slot.
    pub fn clear(&mut self)
        requires
            old(self).wf(),
        ensures
            final(self).wf(),
            final(self).age_spec() == old(self).age_spec(),
            final(self).words().len() == old(self).words().len(),
            forall|i: int| 0 <= i < final(self).words().len() ==> #[trigger] final(self).words()[i] == 0,
    {
        proof {
            lemma_zero_word_ok();
        }
        let n = self.table.len();
        let mut i: usize = 0;
        while i < n
            invariant
                self.wf(),
                self.age == old(self).age,
                (0u64 & 0xFFFFu64) as u16 == 0,
                (0u64 >> 40u64) & 3u64 != 3,
                ((0u64 >> 32u64) & 0xFFu64) as u8 as i8 == 0,
                n == self.table@.len(),
                i <= n,
                forall|j: int| 0 <= j < i ==> #[trigger] self.table@[j] == 0,
            decreases n - i,
        {
            let ghost prev = self.table@;
            self.table.set(i, 0);
            assert forall|j: int| 0 <= j < self.table@.len() implies entry_word_ok(#[trigger] self.table@[j]) && depth_of(self.table@[j]) >= -126 by {
                if j != i {
                    assert(self.table@[j] == prev[j]);
                    assert(entry_word_ok(prev[j]));
                }
            }
            i = i + 1;
        }
    }

    /// Starts a new search: the age goes up by one, modulo 64.
    pub fn age_up(&mut self)
        requires
            old(self).wf(),
        ensures
            final(self).wf(),
            final(self).words() == old(self).words(),
            final(self).age_spec() == (old(self).age_spec() + 1) % 64,
    {
        let a = self.age + 1;
        self.age = a & 0x3F;
        assert(a < 65);
        assert(a & 0x3Fu8 == a % 64) by {
            lemma_low_bits_mask_values();
            lemma2_to64();
            lemma_u8_low_bits_mask_is_mod(a, 6);
        }
    }

    /// How many of the first thousand slots hold an entry of the current search.
    pub fn hashfull(&self) -> (r: usize)
        requires
            self.wf(),
        ensures
            r == count_fresh(self.words(), if self.words().len() < 1000 { self.words().len() as int } else { 1000 }, self.age_spec()),
    {
        let n = if self.table.len() < 1000 {
            self.table.len()
        } else {
            1000
        };
        let mut count: usize = 0;
        let mut i: usize = 0;
        while i < n
            invariant
                self.wf(),
                n <= self.table@.len(),
                n <= 1000,
                i <= n,
                count == count_fresh(self.words(), i as int, self.age_spec()),
                count <= i,
            decreases n - i,
        {
            let w = self.table[i];
            if w != 0 && TTEntry(w).age() == self.age {
                count = count + 1;
            }
            i = i + 1;
        }
        count
    }

    /// Whether `after` is `before` once the entry for hash `h` is looked up at distance `ply`
    /// from the root, with `r` the answer: nothing when no slot of the bucket holds the key;
    /// else the first such slot's entry, its value made relative to the root, and its age in
    /// the table brought up to the current search.
    pub open spec fn got(before: TT, after: TT, h: u64, ply: int, r: Option<TTEntry>) -> bool {
        let base = before.base_of(h);
        &&& after.age_spec() == before.age_spec()
        &&& match find_from(before.words(), base, h >> 48u64, 0) {
            None => r is None && after.words() == before.words(),
            Some(k) => {
                let w = before.words()[base + k];
                &&& after.words() == before.words().update(base + k, if age_of(w) == before.age_spec() { w } else { aged(w, before.age_spec()) })
                &&& r matches Some(e) && e.key_spec() == w >> 48u64 && e.age_spec() == age_of(w) && e.depth_spec() == depth_of(w)
                    && e.bound_code() == (w >> 40u64) & 3u64 && e.move_code() == (w & 0xFFFFu64) as u16
                    && e.value_spec() == (value_to_report(value_of(w), ply) as i16) as i32
            },
        }
    }

    /// The bucket of a hash lies inside the table.
    pub proof fn lemma_base_in_table(&self, h: u64)
        requires
            self.wf(),
            self.words().len() > 0,
        ensures
            0 <= self.base_of(h),
            self.base_of(h) + 4 <= self.words().len(),
            self.base_of(h) % 4 == 0,
    {
        lemma_and_le(h as usize, (self.n_buckets() - 1) as usize);
    }

    /// Reading back a write: once `insert` has stored an entry for the hash `h` (the bucket
    /// did not hold the key, or held it in a slot that the new entry replaces), `get` at the
    /// same distance `ply` from the root finds an entry with the key of `h`, the stored depth,
    /// bound and best move, and the value that was given. Left out are an entry whose packed
    /// word is zero, which reads as an empty slot, and a value whose stored form does not fit
    /// in sixteen bits.
    pub proof fn lemma_get_after_insert(
        before: TT,
        written: TT,
        after: TT,
        h: u64,
        depth: i8,
        value: i32,
        best_move: Option<Move>,
        bound: Bound,
        ply: int,
        r: Option<TTEntry>,
    )
        requires
            before.wf(),
            before.words().len() > 0,
            0 <= ply <= 0x4000_0000,
            i16::MIN <= value_to_store(value, ply) <= i16::MAX,
            entry_word(h, value_to_store(value, ply) as i32, move_word(best_move), depth, bound.code(), before.age_spec()) != 0,
            written.age_spec() == before.age_spec(),
            written.words() == before.insert_spec(
                h,
                entry_word(h, value_to_store(value, ply) as i32, move_word(best_move), depth, bound.code(), before.age_spec()),
                depth,
                bound,
            ),
            match find_from(before.words(), before.base_of(h), h >> 48u64, 0) {
                Some(k) => should_replace_spec(before.words()[before.base_of(h) + k], depth, bound, before.age_spec()),
                None => true,
            },
            TT::got(written, after, h, ply, r),
        ensures
            r matches Some(e) && e.key_spec() == h >> 48u64 && e.depth_spec() == depth
                && e.bound_code() == bound.code() && e.move_code() == move_word(best_move)
                && e.value_spec() == value,
    {
        let stored = value_to_store(value, ply);
        let w = entry_word(h, stored as i32, move_word(best_move), depth, bound.code(), before.age_spec());
        let base = before.base_of(h);
        let key = h >> 48u64;
        before.lemma_base_in_table(h);
        lemma_entry_word_fields(h, stored as i32, move_word(best_move), depth, bound.code(), before.age_spec());
        lemma_find_from(before.words(), base, key, 0);
        let s = match find_from(before.words(), base, key, 0) {
            Some(k) => k,
            None => {
                lemma_victim_range(before.words(), base, before.age_spec(), 0, 1);
                victim_from(before.words(), base, before.age_spec(), 0, 1)
            },
        };
        assert(written.words() == before.words().update(base + s, w));
        assert(written.words().len() == before.words().len());
        assert(written.base_of(h) == base);
        lemma_find_after_store(before.words(), base, key, 0, s, w);
        assert(written.words()[base + s] == w);
        assert(value_of(w) == stored);
        if is_checkmate_value(value) {
            assert(is_checkmate_value(stored as i32));
        } else {
            assert(stored == value);
        }
        assert(value_to_report(value_of(w), ply) == value);
    }

    /// A table of `count` buckets, all empty.
    fn with_buckets(count: usize) -> (r: TT)
        requires
            count <= usize::MAX / 4,
        ensures
            r.wf(),
            r.words() == Seq::new(4 * count as nat, |i: int| 0u64),
            r.age_spec() == 0,
    {
        let mut table: Vec<u64> = Vec::new();
        let n = 4 * count;
        let mut i: usize = 0;
        proof {
            lemma_zero_word_ok();
        }
        while i < n
            invariant
                i <= n,
                table@ == Seq::new(i as nat, |k: int| 0u64),
            decreases n - i,
        {
            table.push(0);
            i = i + 1;
            assert(table@ =~= Seq::new(i as nat, |k: int| 0u64));
        }
        assert forall|j: int| 0 <= j < table@.len() implies entry_word_ok(#[trigger] table@[j]) && depth_of(table@[j]) >= -126 by {
            assert(table@[j] == 0);
        }
        TT { table, age: 0 }
    }
}

/// An entry's worth to keep falls with the searches it has missed: an entry written in the
/// current search is worth its depth, one left from an earlier search at least eight less.
/// So of two entries of the same depth, the older is replaced first.
pub proof fn lemma_quality_ages(w: u64, age: u8)
    requires
        age < 64,
    ensures
        age_of(w) == age ==> quality(w, age) == depth_of(w) as int,
        age_of(w) != age ==> quality(w, age) <= depth_of(w) as int - 8,
        quality(w, age) <= depth_of(w) as int,
{
    let a = age_of(w);
    lemma_low_bits_mask_values();
    lemma2_to64();
    lemma_u64_low_bits_mask_is_mod(w >> 42u64, 6);
    assert(a < 64);
    let d = age.wrapping_sub(a);
    lemma_u8_low_bits_mask_is_mod(d, 6);
    assert(d & 0x3Fu8 == d % 64);
    if a == age {
        assert(d == 0);
    } else if a < age {
        assert(d == age - a);
    } else {
        assert(d == age - a + 256);
    }
}

/// Of two entries of the same depth, one written in the current search is worth more than
/// one left from an earlier search.
pub proof fn lemma_fresher_is_kept(w1: u64, w2: u64, age: u8)
    requires
        age < 64,
        depth_of(w1) == depth_of(w2),
        age_of(w1) == age,
        age_of(w2) != age,
    ensures
        quality(w2, age) < quality(w1, age),
{
    lemma_quality_ages(w1, age);
    lemma_quality_ages(w2, age);
}

/// The victim search keeps a slot that no slot seen so far sorts before.
proof fn lemma_victim_least_from(words: Seq<u64>, base: int, age: u8, best: int, k: int)
    requires
        1 <= k <= 4,
        0 <= best < k,
        forall|j: int| 0 <= j < k ==> !rank_less(#[trigger] slot_rank(words[base + j], age), slot_rank(words[base + best], age)),
    ensures
        0 <= victim_from(words, base, age, best, k) < 4,
        forall|j: int| 0 <= j < 4 ==> !rank_less(
            #[trigger] slot_rank(words[base + j], age),
            slot_rank(words[base + victim_from(words, base, age, best, k)], age),
        ),
    decreases 4 - k,
{
    if k < 4 {
        if rank_less(slot_rank(words[base + k], age), slot_rank(words[base + best], age)) {
            lemma_victim_least_from(words, base, age, k, k + 1);
        } else {
            lemma_victim_least_from(words, base, age, best, k + 1);
        }
    }
}

/// The slot that a new entry replaces sorts before no other slot of its bucket: an empty
/// slot if there is one, else one of least worth to keep. With `lemma_quality_ages`, an
/// entry left from an earlier search goes before one of the same depth from this search.
pub proof fn lemma_victim_is_least(words: Seq<u64>, base: int, age: u8)
    ensures
        0 <= victim_from(words, base, age, 0, 1) < 4,
        forall|j: int| 0 <= j < 4 ==> !rank_less(
            #[trigger] slot_rank(words[base + j], age),
            slot_rank(words[base + victim_from(words, base, age, 0, 1)], age),
        ),
{
    lemma_victim_least_from(words, base, age, 0, 1);
}

} // verus!
