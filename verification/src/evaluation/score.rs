use vstd::prelude::*;
use crate::types::piece::PieceType;

verus! {

/// A search or evaluation value.
pub type Value = i32;

/// A game phase, from 0 (middle game) to `Score::TOTAL_PHASE` (end game).
pub type Phase = i32;

/// The value of `s` under the packing `(mg << 16) + eg`, without overflow.
pub open spec fn packed(mg: int, eg: int) -> int {
    mg * 65536 + eg
}

/// Integer division of `a` by a positive `b`, rounding towards zero as Rust does.
pub open spec fn div_toward_zero(a: int, b: int) -> int {
    if a >= 0 {
        a / b
    } else {
        -((-a) / b)
    }
}

/// The middle game part of the packed value `s`.
pub open spec fn mg_of(s: i32) -> i32 {
    ((s + 0x8000) as i32) >> 16u32
}

/// The end game part of the packed value `s`: its low sixteen bits, signed.
pub open spec fn eg_of(s: i32) -> i32 {
    s as i16 as i32
}

/// The tapered sum `mg * (384 - phase) + eg * phase` before the division.
pub open spec fn tapered_sum(s: i32, phase: i32) -> int {
    mg_of(s) * (384 - phase) + eg_of(s) * phase
}

/// A middle game and an end game value packed in one number: `(mg << 16) + eg`.
#[derive(Clone, Copy, PartialEq, Eq, Structural, Debug)]
pub struct Score(pub Value);

impl Score {
    pub const INF: Value = 32000;
    pub const TOTAL_PHASE: Phase = 384;

    /// The packed score of `mg` and `eg`.
    pub fn new(mg: Value, eg: Value) -> (r: Score)
        requires
            i32::MIN <= (mg << 16u32) + eg <= i32::MAX,
        ensures
            r.0 == (mg << 16u32) + eg,
            -32768 <= mg <= 32767 ==> r.0 == packed(mg as int, eg as int),
    {
        proof {
            if -32768 <= mg <= 32767 {
                assert(-32768 <= mg <= 32767 ==> mg << 16u32 == mg * 65536) by (bit_vector);
            }
        }
        Score((mg << 16) + eg)
    }

    /// The packed score with value 0 in both phases.
    pub fn zero() -> (r: Score)
        ensures
            r.0 == 0,
    {
        Score(0)
    }

    /// The middle game part: the top half rounded by the sign of the bottom half.
    pub fn mg(&self) -> (r: Value)
        requires
            self.0 <= i32::MAX - 0x8000,
        ensures
            r == mg_of(self.0),
    {
        (self.0 + 0x8000) >> 16
    }

    /// The end game part: the bottom sixteen bits as a signed number.
    pub fn eg(&self) -> (r: Value)
        ensures
            r == eg_of(self.0),
    {
        self.0 as i16 as Value
    }

    /// The tapered value at `phase`: the middle and end game parts mixed in the proportion
    /// of the phase, rounded towards zero.
    pub fn eval(&self, phase: Phase) -> (r: Value)
        requires
            self.0 <= i32::MAX - 0x8000,
            i32::MIN <= tapered_sum(self.0, phase) <= i32::MAX,
            i32::MIN <= mg_of(self.0) * (384 - phase) <= i32::MAX,
            i32::MIN <= eg_of(self.0) * phase <= i32::MAX,
            i32::MIN <= 384 - phase <= i32::MAX,
        ensures
            r == div_toward_zero(tapered_sum(self.0, phase), 384),
    {
        let mg = self.mg();
        let eg = self.eg();
        let t = mg * (Self::TOTAL_PHASE - phase) + eg * phase;
        t / Self::TOTAL_PHASE
    }

    /// The share of the game phase that a piece of type `pt` carries.
    pub fn piece_phase(pt: PieceType) -> (r: Phase)
        requires
            pt != PieceType::NoPieceType,
        ensures
            r == (match pt {
                PieceType::Pawn => 0i32,
                PieceType::Knight => 16,
                PieceType::Bishop => 16,
                PieceType::Rook => 32,
                PieceType::Queen => 64,
                _ => 0,
            }),
    {
        match pt {
            PieceType::Pawn => 0,
            PieceType::Knight => 16,
            PieceType::Bishop => 16,
            PieceType::Rook => 32,
            PieceType::Queen => 64,
            _ => 0,
        }
    }

    /// Whether a value reports a forced mate: its size is at least half of `INF`.
    pub fn is_checkmate(value: Value) -> (r: bool)
        requires
            value != i32::MIN,
        ensures
            r == (value >= 16000 || value <= -16000),
    {
        let a = if value < 0 {
            -value
        } else {
            value
        };
        assert(Self::INF >> 1u32 == 16000i32) by (bit_vector);
        a >= Self::INF >> 1
    }

    /// The middle and end game parts.
    pub fn scores(&self) -> (r: (Value, Value))
        requires
            self.0 <= i32::MAX - 0x8000,
        ensures
            r.0 == mg_of(self.0),
            r.1 == eg_of(self.0),
    {
        (self.mg(), self.eg())
    }
}

/// Packing two sixteen-bit values and reading them back gives them back.
pub proof fn lemma_score_roundtrip(mg: i32, eg: i32)
    requires
        -32768 <= mg <= 32767,
        -32768 <= eg <= 32767,
        i32::MIN <= packed(mg as int, eg as int) <= i32::MAX - 0x8000,
    ensures
        mg_of(((mg << 16u32) + eg) as i32) == mg,
        eg_of(((mg << 16u32) + eg) as i32) == eg,
{
    assert(-32768 <= mg <= 32767 ==> mg << 16u32 == mg * 65536) by (bit_vector);
    let x: i32 = (mg * 65536 + eg) as i32;
    assert(((x + 0x8000) as i32) >> 16u32 == mg && x as i16 as i32 == eg) by (bit_vector)
        requires
            -32768 <= mg <= 32767,
            -32768 <= eg <= 32767,
            -0x8000_0000 <= x <= 0x7fff_ffff - 0x8000,
            x == mg * 65536 + eg,
    ;
}

impl core::ops::Neg for Score {
    type Output = Self;

    fn neg(self) -> (r: Self)
        ensures
            r.0 == -self.0,
    {
        Score(-self.0)
    }
}

impl vstd::std_specs::ops::NegSpecImpl for Score {
    open spec fn obeys_neg_spec() -> bool {
        true
    }

    open spec fn neg_req(self) -> bool {
        self.0 != i32::MIN
    }

    open spec fn neg_spec(self) -> Self {
        Score((-self.0) as i32)
    }
}

impl core::ops::Add for Score {
    type Output = Self;

    fn add(self, rhs: Self) -> (r: Self)
        ensures
            r.0 == self.0 + rhs.0,
    {
        Score(self.0 + rhs.0)
    }
}

impl vstd::std_specs::ops::AddSpecImpl for Score {
    open spec fn obeys_add_spec() -> bool {
        true
    }

    open spec fn add_req(self, rhs: Self) -> bool {
        i32::MIN <= self.0 + rhs.0 <= i32::MAX
    }

    open spec fn add_spec(self, rhs: Self) -> Self {
        Score((self.0 + rhs.0) as i32)
    }
}

impl core::ops::Sub for Score {
    type Output = Self;

    fn sub(self, rhs: Self) -> (r: Self)
        ensures
            r.0 == self.0 - rhs.0,
    {
        Score(self.0 - rhs.0)
    }
}

impl vstd::std_specs::ops::SubSpecImpl for Score {
    open spec fn obeys_sub_spec() -> bool {
        true
    }

    open spec fn sub_req(self, rhs: Self) -> bool {
        i32::MIN <= self.0 - rhs.0 <= i32::MAX
    }

    open spec fn sub_spec(self, rhs: Self) -> Self {
        Score((self.0 - rhs.0) as i32)
    }
}

impl core::ops::Mul<i32> for Score {
    type Output = Self;

    fn mul(self, rhs: i32) -> (r: Self)
        ensures
            r.0 == self.0 * rhs,
    {
        Score(self.0 * rhs)
    }
}

impl vstd::std_specs::ops::MulSpecImpl<i32> for Score {
    open spec fn obeys_mul_spec() -> bool {
        true
    }

    open spec fn mul_req(self, rhs: i32) -> bool {
        i32::MIN <= self.0 * rhs <= i32::MAX
    }

    open spec fn mul_spec(self, rhs: i32) -> Self {
        Score((self.0 * rhs) as i32)
    }
}

} // verus!
