use vstd::prelude::*;
use crate::bitboard::{bit, lemma_bit_xor, lemma_bits_ext};
use crate::square::{File, SQ};
use crate::types::piece::Piece;

verus! {

broadcast use lemma_bit_xor;

/// A word drawn from the thread's random generator: `rand::random::<u64>()`, which is
/// `rand::thread_rng().gen()`. Nothing is stated of the value.
#[verifier::external_body]
fn random_u64() -> (r: u64) {
    rand::random::<u64>()
}

/// The number of keys for pieces: one per piece value, the empty one included, and square.
pub const N_PIECE_KEYS: usize = 832;

/// The key index of `pc` on `sq`.
pub open spec fn key_idx(pc: Piece, sq: SQ) -> int {
    (pc.code() - 2 * (pc.code() / 8)) * 64 + sq.idx()
}

/// A position hash kept up to date as pieces come and go, with random keys for each piece on
/// each square, each en passant file and the side to move; the material hash follows the
/// pieces only.
#[derive(Clone)]
pub struct Hasher {
    hash: u64,
    material_hash: u64,
    zobrist_table: Vec<u64>,
    zobrist_ep: Vec<u64>,
    zobrist_color: u64,
}

impl Hasher {
    /// The position hash.
    pub closed spec fn hash_spec(&self) -> u64 {
        self.hash
    }

    /// The material hash.
    pub closed spec fn material_spec(&self) -> u64 {
        self.material_hash
    }

    /// The keys of pieces on squares, at `key_idx`.
    pub closed spec fn piece_keys(&self) -> Seq<u64> {
        self.zobrist_table@
    }

    /// The keys of the en passant files.
    pub closed spec fn ep_keys(&self) -> Seq<u64> {
        self.zobrist_ep@
    }

    /// The key of the side to move.
    pub closed spec fn color_key(&self) -> u64 {
        self.zobrist_color
    }

    /// There is a key for every piece on every square and for every file.
    pub open spec fn wf(&self) -> bool {
        self.piece_keys().len() == N_PIECE_KEYS && self.ep_keys().len() == 8
    }

    /// `b` has the keys of `a`.
    pub open spec fn same_keys(a: Hasher, b: Hasher) -> bool {
        a.piece_keys() == b.piece_keys() && a.ep_keys() == b.ep_keys() && a.color_key() == b.color_key()
    }

    /// `b` is `a` once `pc` is put on or taken off `sq`.
    pub open spec fn piece_toggled(a: Hasher, b: Hasher, pc: Piece, sq: SQ) -> bool {
        &&& Hasher::same_keys(a, b)
        &&& b.hash_spec() == a.hash_spec() ^ a.piece_keys()[key_idx(pc, sq)]
        &&& b.material_spec() == a.material_spec() ^ a.piece_keys()[key_idx(pc, sq)]
    }

    /// Fresh random keys, and both hashes zero.
    pub fn new() -> (r: Hasher)
        ensures
            r.wf(),
            r.hash_spec() == 0,
            r.material_spec() == 0,
    {
        let mut zobrist_table: Vec<u64> = Vec::new();
        let mut zobrist_ep: Vec<u64> = Vec::new();
        let zobrist_color = random_u64();
        let mut j: usize = 0;
        while j < N_PIECE_KEYS
            invariant
                j <= N_PIECE_KEYS,
                zobrist_table@.len() == j,
            decreases N_PIECE_KEYS - j,
        {
            zobrist_table.push(random_u64());
            j = j + 1;
        }
        let mut j: usize = 0;
        while j < 8
            invariant
                j <= 8,
                zobrist_ep@.len() == j,
            decreases 8 - j,
        {
            zobrist_ep.push(random_u64());
            j = j + 1;
        }
        Hasher { hash: 0, material_hash: 0, zobrist_table, zobrist_ep, zobrist_color }
    }

    /// Moves `pc` from `from_sq` to `to_sq`: both hashes change by the keys of both squares.
    pub fn move_piece(&mut self, pc: Piece, from_sq: SQ, to_sq: SQ)
        requires
            old(self).wf(),
        ensures
            final(self).wf(),
            Hasher::same_keys(*old(self), *final(self)),
            final(self).hash_spec() == old(self).hash_spec() ^ (old(self).piece_keys()[key_idx(pc, from_sq)]
                ^ old(self).piece_keys()[key_idx(pc, to_sq)]),
            final(self).material_spec() == old(self).material_spec() ^ (old(self).piece_keys()[key_idx(
                pc,
                from_sq,
            )] ^ old(self).piece_keys()[key_idx(pc, to_sq)]),
    {
        let pc_index = pc.index() * 64;
        let update = self.zobrist_table[pc_index + from_sq.index()] ^ self.zobrist_table[pc_index
            + to_sq.index()];
        self.hash = self.hash ^ update;
        self.material_hash = self.material_hash ^ update;
    }

    /// Puts `pc` on `sq` or takes it off: both hashes change by its key.
    pub fn update_piece(&mut self, pc: Piece, sq: SQ)
        requires
            old(self).wf(),
        ensures
            final(self).wf(),
            Hasher::piece_toggled(*old(self), *final(self), pc, sq),
    {
        let update = self.zobrist_table[pc.index() * 64 + sq.index()];
        self.hash = self.hash ^ update;
        self.material_hash = self.material_hash ^ update;
    }

    /// Sets or clears the en passant file `file`: the position hash changes by its key.
    pub fn update_ep(&mut self, file: File)
        requires
            old(self).wf(),
        ensures
            final(self).wf(),
            Hasher::same_keys(*old(self), *final(self)),
            final(self).hash_spec() == old(self).hash_spec() ^ old(self).ep_keys()[file.idx()],
            final(self).material_spec() == old(self).material_spec(),
    {
        let f = file.index();
        self.hash = self.hash ^ self.zobrist_ep[f];
    }

    /// Hands the move to the other side: the position hash changes by the side key.
    pub fn update_color(&mut self)
        requires
            old(self).wf(),
        ensures
            final(self).wf(),
            Hasher::same_keys(*old(self), *final(self)),
            final(self).hash_spec() == old(self).hash_spec() ^ old(self).color_key(),
            final(self).material_spec() == old(self).material_spec(),
    {
        self.hash = self.hash ^ self.zobrist_color;
    }

    /// Both hashes back to zero.
    pub fn clear(&mut self)
        requires
            old(self).wf(),
        ensures
            final(self).wf(),
            Hasher::same_keys(*old(self), *final(self)),
            final(self).hash_spec() == 0,
            final(self).material_spec() == 0,
    {
        self.hash = 0;
        self.material_hash = 0;
    }

    /// The position hash.
    pub fn hash(&self) -> (r: u64)
        ensures
            r == self.hash_spec(),
    {
        self.hash
    }

    /// The material hash.
    pub fn material_hash(&self) -> (r: u64)
        ensures
            r == self.material_spec(),
    {
        self.material_hash
    }

    /// Putting a piece on a square and taking it off again leaves both hashes as they were.
    pub proof fn lemma_toggle_twice(a: Hasher, b: Hasher, c: Hasher, pc: Piece, sq: SQ)
        requires
            Hasher::piece_toggled(a, b, pc, sq),
            Hasher::piece_toggled(b, c, pc, sq),
        ensures
            c.hash_spec() == a.hash_spec(),
            c.material_spec() == a.material_spec(),
    {
        let k = a.piece_keys()[key_idx(pc, sq)];
        lemma_xor_twice(a.hash_spec(), k);
        lemma_xor_twice(a.material_spec(), k);
    }

    /// Moving a piece changes the hashes as taking it off its square and putting it on the
    /// other one does.
    pub proof fn lemma_move_is_two_toggles(a: Hasher, b: Hasher, c: Hasher, pc: Piece, from_sq: SQ, to_sq: SQ)
        requires
            Hasher::piece_toggled(a, b, pc, from_sq),
            Hasher::piece_toggled(b, c, pc, to_sq),
        ensures
            c.hash_spec() == a.hash_spec() ^ (a.piece_keys()[key_idx(pc, from_sq)] ^ a.piece_keys()[key_idx(pc, to_sq)]),
            c.material_spec() == a.material_spec() ^ (a.piece_keys()[key_idx(pc, from_sq)] ^ a.piece_keys()[key_idx(pc, to_sq)]),
    {
        let k1 = a.piece_keys()[key_idx(pc, from_sq)];
        let k2 = a.piece_keys()[key_idx(pc, to_sq)];
        lemma_xor_assoc(a.hash_spec(), k1, k2);
        lemma_xor_assoc(a.material_spec(), k1, k2);
    }
}

/// Adding the same key twice gives back the word.
pub proof fn lemma_xor_twice(h: u64, k: u64)
    ensures
        (h ^ k) ^ k == h,
{
    assert forall|i: int| 0 <= i < 64 implies bit((h ^ k) ^ k, i) == bit(h, i) by {}
    lemma_bits_ext((h ^ k) ^ k, h);
}

/// Keys may be added one by one or combined first.
pub proof fn lemma_xor_assoc(h: u64, a: u64, b: u64)
    ensures
        (h ^ a) ^ b == h ^ (a ^ b),
{
    assert forall|i: int| 0 <= i < 64 implies bit((h ^ a) ^ b, i) == bit(h ^ (a ^ b), i) by {}
    lemma_bits_ext((h ^ a) ^ b, h ^ (a ^ b));
}

} // verus!
