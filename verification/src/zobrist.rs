use vstd::prelude::*;
use crate::castling::CastlingRights;
use crate::color::Color;
use crate::piece::Piece;
use crate::square::SQ;
use crate::traits::Enumerable;

verus! {

/// The increment of the SplitMix64 generator.
pub const GOLDEN_GAMMA: u64 = 0x9E37_79B9_7F4A_7C15;

/// The seed from which the hash keys are drawn.
pub const ZOBRIST_SEED: u64 = 1070372;

/// The SplitMix64 output function applied to a state.
pub open spec fn splitmix_mix(state: u64) -> u64 {
    let z1 = (state ^ (state >> 30u64)).wrapping_mul(0xBF58_476D_1CE4_E5B9u64);
    let z2 = (z1 ^ (z1 >> 27u64)).wrapping_mul(0x94D0_49BB_1331_11EBu64);
    z2 ^ (z2 >> 31u64)
}

/// The state of a SplitMix64 generator seeded with `seed` after `n` draws.
pub open spec fn splitmix_state(seed: u64, n: nat) -> u64
    decreases n,
{
    if n == 0 {
        seed
    } else {
        splitmix_state(seed, (n - 1) as nat).wrapping_add(GOLDEN_GAMMA)
    }
}

/// The `n`-th number (from 0) that SplitMix64 draws from the hash seed.
pub open spec fn zobrist_key(n: nat) -> u64 {
    splitmix_mix(splitmix_state(ZOBRIST_SEED, n + 1))
}

/// The hash key of piece `pc` on square `sq`: the keys are drawn piece by piece, square by
/// square, first of all.
pub open spec fn piece_key(pc: Piece, sq: SQ) -> u64 {
    zobrist_key((64 * pc.dense_index() + sq.idx()) as nat)
}

/// The hash key of an en passant square on file `f`, drawn after the piece keys.
pub open spec fn ep_key(f: int) -> u64 {
    zobrist_key((768 + f) as nat)
}

/// The hash key of the side to move, drawn after the en passant keys.
pub open spec fn color_key(c: Color) -> u64 {
    zobrist_key((776 + c.idx()) as nat)
}

/// The hash key of a set of castling rights, drawn last.
pub open spec fn castling_key(bits: int) -> u64 {
    zobrist_key((778 + bits) as nat)
}

/// The SplitMix64 generator of pseudo-random numbers.
struct SplitMix64(u64);

impl SplitMix64 {
    fn next_u64(&mut self) -> (r: u64)
        ensures
            final(self).0 == old(self).0.wrapping_add(GOLDEN_GAMMA),
            r == splitmix_mix(final(self).0),
    {
        self.0 = self.0.wrapping_add(GOLDEN_GAMMA);
        let mut z = self.0;
        z = (z ^ (z >> 30)).wrapping_mul(0xBF58_476D_1CE4_E5B9);
        z = (z ^ (z >> 27)).wrapping_mul(0x94D0_49BB_1331_11EB);
        z ^ (z >> 31)
    }
}

/// The Zobrist hash keys of pieces on squares, en passant files, sides and castling rights.
pub struct Hasher {
    zobrist_table: Vec<Vec<u64>>,
    zobrist_ep: Vec<u64>,
    zobrist_color: Vec<u64>,
    zobrist_castling: Vec<u64>,
}

impl Hasher {
    #[verifier::type_invariant]
    spec fn well_formed(self) -> bool {
        &&& self.zobrist_table@.len() == 12
        &&& forall|p: int| #![trigger self.zobrist_table@[p]] 0 <= p < 12 ==> self.zobrist_table@[p]@.len() == 64
        &&& forall|p: int, s: int| 0 <= p < 12 && 0 <= s < 64 ==> self.zobrist_table@[p]@[s] == zobrist_key((64 * p + s) as nat)
        &&& self.zobrist_ep@.len() == 8
        &&& forall|f: int| 0 <= f < 8 ==> self.zobrist_ep@[f] == ep_key(f)
        &&& self.zobrist_color@.len() == 2
        &&& self.zobrist_color@[0] == zobrist_key(776)
        &&& self.zobrist_color@[1] == zobrist_key(777)
        &&& self.zobrist_castling@.len() == 16
        &&& forall|c: int| 0 <= c < 16 ==> self.zobrist_castling@[c] == castling_key(c)
    }

    /// The key of piece number `p` on square `s`.
    pub closed spec fn table_key(self, p: int, s: int) -> u64 {
        self.zobrist_table@[p]@[s]
    }

    /// The key of an en passant square on file `f`.
    pub closed spec fn ep_key_of(self, f: int) -> u64 {
        self.zobrist_ep@[f]
    }

    /// The key of side number `c` to move.
    pub closed spec fn color_key_of(self, c: int) -> u64 {
        self.zobrist_color@[c]
    }

    /// The key of the castling rights with bits `c`.
    pub closed spec fn castling_key_of(self, c: int) -> u64 {
        self.zobrist_castling@[c]
    }

    /// Draws all keys from SplitMix64 seeded with the fixed hash seed, in the order pieces by
    /// squares, en passant files, sides, castling rights.
    pub fn new() -> (r: Hasher)
        ensures
            forall|p: int, s: int| 0 <= p < 12 && 0 <= s < 64 ==> #[trigger] r.table_key(p, s) == zobrist_key((64 * p + s) as nat),
            forall|f: int| 0 <= f < 8 ==> #[trigger] r.ep_key_of(f) == ep_key(f),
            r.color_key_of(0) == zobrist_key(776),
            r.color_key_of(1) == zobrist_key(777),
            forall|c: int| 0 <= c < 16 ==> #[trigger] r.castling_key_of(c) == castling_key(c),
    {
        let mut rng = SplitMix64(ZOBRIST_SEED);
        let mut zobrist_table: Vec<Vec<u64>> = Vec::new();
        let mut p: usize = 0;
        while p < 12
            invariant
                p <= 12,
                rng.0 == splitmix_state(ZOBRIST_SEED, (64 * p) as nat),
                zobrist_table@.len() == p,
                forall|q: int| #![trigger zobrist_table@[q]] 0 <= q < p ==> zobrist_table@[q]@.len() == 64,
                forall|q: int, s: int| 0 <= q < p && 0 <= s < 64 ==> zobrist_table@[q]@[s] == zobrist_key((64 * q + s) as nat),
            decreases 12 - p,
        {
            let mut row: Vec<u64> = Vec::new();
            let mut s: usize = 0;
            while s < 64
                invariant
                    s <= 64,
                    p < 12,
                    rng.0 == splitmix_state(ZOBRIST_SEED, (64 * p + s) as nat),
                    row@.len() == s,
                    forall|t: int| 0 <= t < s ==> row@[t] == zobrist_key((64 * p + t) as nat),
                decreases 64 - s,
            {
                let k = rng.next_u64();
                row.push(k);
                s = s + 1;
            }
            zobrist_table.push(row);
            p = p + 1;
        }
        let mut zobrist_ep: Vec<u64> = Vec::new();
        let mut f: usize = 0;
        while f < 8
            invariant
                f <= 8,
                rng.0 == splitmix_state(ZOBRIST_SEED, (768 + f) as nat),
                zobrist_ep@.len() == f,
                forall|t: int| 0 <= t < f ==> zobrist_ep@[t] == ep_key(t),
            decreases 8 - f,
        {
            let k = rng.next_u64();
            zobrist_ep.push(k);
            f = f + 1;
        }
        let mut zobrist_color: Vec<u64> = Vec::new();
        assert(splitmix_state(ZOBRIST_SEED, 777) == splitmix_state(ZOBRIST_SEED, 776).wrapping_add(
            GOLDEN_GAMMA,
        ));
        assert(splitmix_state(ZOBRIST_SEED, 778) == splitmix_state(ZOBRIST_SEED, 777).wrapping_add(
            GOLDEN_GAMMA,
        ));
        let w = rng.next_u64();
        zobrist_color.push(w);
        let b = rng.next_u64();
        zobrist_color.push(b);
        let mut zobrist_castling: Vec<u64> = Vec::new();
        let mut c: usize = 0;
        while c < 16
            invariant
                c <= 16,
                rng.0 == splitmix_state(ZOBRIST_SEED, (778 + c) as nat),
                zobrist_castling@.len() == c,
                forall|t: int| 0 <= t < c ==> zobrist_castling@[t] == castling_key(t),
            decreases 16 - c,
        {
            let k = rng.next_u64();
            zobrist_castling.push(k);
            c = c + 1;
        }
        Hasher { zobrist_table, zobrist_ep, zobrist_color, zobrist_castling }
    }

    /// The change of hash for moving `pc` from `from_sq` to `to_sq`.
    pub fn move_hash(&self, pc: Piece, from_sq: SQ, to_sq: SQ) -> (r: u64)
        ensures
            r == piece_key(pc, from_sq) ^ piece_key(pc, to_sq),
    {
        proof {
            use_type_invariant(self);
        }
        let p = pc.index();
        let a = from_sq.index();
        let b = to_sq.index();
        self.zobrist_table[p][a] ^ self.zobrist_table[p][b]
    }

    /// The hash key of `pc` on `sq`.
    pub fn update_hash(&self, pc: Piece, sq: SQ) -> (r: u64)
        ensures
            r == piece_key(pc, sq),
    {
        proof {
            use_type_invariant(self);
        }
        let p = pc.index();
        self.zobrist_table[p][sq.index()]
    }

    /// The hash key of the en passant square `epsq`, which depends on its file only.
    pub fn ep_hash(&self, epsq: SQ) -> (r: u64)
        ensures
            r == ep_key(epsq.idx() % 8),
    {
        proof {
            use_type_invariant(self);
        }
        self.zobrist_ep[epsq.file().index()]
    }

    /// The hash key of the castling rights `rights`.
    pub fn castling_hash(&self, rights: CastlingRights) -> (r: u64)
        requires
            rights.bits() < 16,
        ensures
            r == castling_key(rights.bits() as int),
    {
        proof {
            use_type_invariant(self);
        }
        self.zobrist_castling[rights.index()]
    }

    /// The hash key of the side to move `color`.
    pub fn color_hash(&self, color: Color) -> (r: u64)
        ensures
            r == color_key(color),
    {
        proof {
            use_type_invariant(self);
        }
        self.zobrist_color[color.index()]
    }
}

} // verus!
