use vstd::prelude::*;
use crate::bitboard::Bitboard;
use crate::color::Color;
use crate::square::SQ;
use vstd::string::StringSliceAdditionalSpecFns;

verus! {

/// The castling rights still open, one bit each: White kingside 1, White queenside 2, Black
/// kingside 4, Black queenside 8.
#[derive(Clone, Copy, PartialEq, Eq, Structural, Debug, Default)]
pub struct CastlingRights(pub u8);

/// The rights that the FEN letter `c` names, if it names one.
pub open spec fn right_of_letter(c: u8) -> Option<u8> {
    if c == 75 {
        Some(1u8)
    } else if c == 81 {
        Some(2u8)
    } else if c == 107 {
        Some(4u8)
    } else if c == 113 {
        Some(8u8)
    } else {
        None
    }
}

/// The rights that the letters `s` name together; `None` when one of them is no castling
/// letter.
pub open spec fn rights_of_letters(s: Seq<u8>) -> Option<u8>
    decreases s.len(),
{
    if s.len() == 0 {
        Some(0u8)
    } else {
        match (rights_of_letters(s.drop_last()), right_of_letter(s.last())) {
            (Some(a), Some(b)) => Some(a | b),
            _ => None,
        }
    }
}

/// The castling field of a FEN for the rights `bits`: the letters `KQkq` of the rights held, in
/// that order, or `-` for none.
pub open spec fn rights_text(bits: u8) -> Seq<u8> {
    if bits == 0 {
        seq![45u8]
    } else {
        (if bits & 1 != 0 { seq![75u8] } else { Seq::<u8>::empty() }) + (if bits & 2 != 0 {
            seq![81u8]
        } else {
            Seq::<u8>::empty()
        }) + (if bits & 4 != 0 { seq![107u8] } else { Seq::<u8>::empty() }) + (if bits & 8 != 0 {
            seq![113u8]
        } else {
            Seq::<u8>::empty()
        })
    }
}

impl CastlingRights {
    pub const COUNT: usize = 16;
    pub const NONE: u8 = 0b0000;
    pub const WHITE_OO: u8 = 0b0001;
    pub const WHITE_OOO: u8 = 0b0010;
    pub const BLACK_OO: u8 = 0b0100;
    pub const BLACK_OOO: u8 = 0b1000;

    /// The bits of the rights.
    pub open spec fn bits(self) -> u8 {
        self.0
    }

    /// The rights with the given bits; only the low four bits name rights.
    pub fn from_bits(bits: u8) -> (r: CastlingRights)
        requires
            bits < 16,
        ensures
            r.bits() == bits,
    {
        CastlingRights(bits)
    }

    /// The number of this set of rights, below 16.
    pub fn index(self) -> (r: usize)
        ensures
            r == self.bits(),
    {
        self.0 as usize
    }

    /// The kingside right of `color`.
    pub fn oo(color: Color) -> (r: CastlingRights)
        ensures
            r.bits() == (if color == Color::White { 1u8 } else { 4u8 }),
    {
        match color {
            Color::White => CastlingRights(Self::WHITE_OO),
            Color::Black => CastlingRights(Self::BLACK_OO),
        }
    }

    /// The queenside right of `color`.
    pub fn ooo(color: Color) -> (r: CastlingRights)
        ensures
            r.bits() == (if color == Color::White { 2u8 } else { 8u8 }),
    {
        match color {
            Color::White => CastlingRights(Self::WHITE_OOO),
            Color::Black => CastlingRights(Self::BLACK_OOO),
        }
    }

    /// The squares between king and kingside rook, which must be empty to castle.
    pub fn oo_path(color: Color) -> (r: Bitboard)
        ensures
            r.0 == (if color == Color::White { 0x60u64 } else { 0x6000_0000_0000_0000u64 }),
    {
        match color {
            Color::White => Bitboard(0x60),
            Color::Black => Bitboard(0x6000_0000_0000_0000),
        }
    }

    /// The squares the king crosses castling kingside, which must not be attacked; the same
    /// as the kingside path.
    pub fn oo_king_path(color: Color) -> (r: Bitboard)
        ensures
            r.0 == (if color == Color::White { 0x60u64 } else { 0x6000_0000_0000_0000u64 }),
    {
        Self::oo_path(color)
    }

    /// The squares between king and queenside rook, which must be empty to castle.
    pub fn ooo_path(color: Color) -> (r: Bitboard)
        ensures
            r.0 == (if color == Color::White { 0xeu64 } else { 0x0E00_0000_0000_0000u64 }),
    {
        match color {
            Color::White => Bitboard(0xe),
            Color::Black => Bitboard(0x0E00_0000_0000_0000),
        }
    }

    /// The squares the king crosses castling queenside; unlike the path, without the b-file.
    pub fn ooo_king_path(color: Color) -> (r: Bitboard)
        ensures
            r.0 == (if color == Color::White { 0xcu64 } else { 0x0C00_0000_0000_0000u64 }),
    {
        match color {
            Color::White => Bitboard(0xc),
            Color::Black => Bitboard(0x0C00_0000_0000_0000),
        }
    }

    /// The rights lost by a move that touches `sq`, as a number.
    pub open spec fn killed_bits(sq: SQ) -> u8 {
        match sq {
            SQ::A1 => 2u8,
            SQ::E1 => 3u8,
            SQ::H1 => 1u8,
            SQ::A8 => 8u8,
            SQ::E8 => 12u8,
            SQ::H8 => 4u8,
            _ => 0u8,
        }
    }

    /// The rights lost by a move that touches the square numbered `i`.
    pub open spec fn killed_at(i: int) -> u8 {
        if i == 0 {
            2u8
        } else if i == 4 {
            3u8
        } else if i == 7 {
            1u8
        } else if i == 56 {
            8u8
        } else if i == 60 {
            12u8
        } else if i == 63 {
            4u8
        } else {
            0u8
        }
    }

    /// The rights a move kills by touching `sq`: a king home square kills both rights of its
    /// side, a rook home square its own.
    pub fn killed(sq: SQ) -> (r: CastlingRights)
        ensures
            r.bits() == Self::killed_bits(sq),
            r.bits() == Self::killed_at(sq.idx()),
    {
        assert(1u8 | 2u8 == 3u8 && 4u8 | 8u8 == 12u8) by (bit_vector);
        match sq {
            SQ::A1 => CastlingRights(Self::WHITE_OOO),
            SQ::E1 => CastlingRights(Self::WHITE_OO | Self::WHITE_OOO),
            SQ::H1 => CastlingRights(Self::WHITE_OO),
            SQ::A8 => CastlingRights(Self::BLACK_OOO),
            SQ::E8 => CastlingRights(Self::BLACK_OO | Self::BLACK_OOO),
            SQ::H8 => CastlingRights(Self::BLACK_OO),
            _ => CastlingRights(Self::NONE),
        }
    }

    /// Whether any of `right` is among these rights.
    pub fn contains(self, right: Self) -> (r: bool)
        ensures
            r == (self.0 & right.0 != 0),
    {
        self.0 & right.0 != 0
    }

    /// These rights without `rights`.
    pub fn without(self, rights: Self) -> (r: Self)
        ensures
            r.0 == self.0 & !rights.0,
    {
        CastlingRights(self.0 & !rights.0)
    }

    /// These rights together with `other`.
    pub fn union(self, other: Self) -> (r: Self)
        ensures
            r.0 == self.0 | other.0,
    {
        CastlingRights(self.0 | other.0)
    }

    /// Reads the castling field of a FEN: `-`, or any of the letters `KQkq`.
    pub fn try_from_str(s: &str) -> (r: Result<CastlingRights, &'static str>)
        ensures
            s.spec_bytes() == seq![45u8] ==> r == Ok::<CastlingRights, &'static str>(
                CastlingRights(0),
            ),
            s.spec_bytes() != seq![45u8] ==> match rights_of_letters(s.spec_bytes()) {
                Some(b) => r == Ok::<CastlingRights, &'static str>(CastlingRights(b)),
                None => r is Err,
            },
    {
        Self::from_letters(s.as_bytes())
    }

    /// Reads the castling field of a FEN from its bytes.
    pub fn from_letters(bytes: &[u8]) -> (r: Result<CastlingRights, &'static str>)
        ensures
            bytes@ == seq![45u8] ==> r == Ok::<CastlingRights, &'static str>(CastlingRights(0)),
            bytes@ != seq![45u8] ==> match rights_of_letters(bytes@) {
                Some(b) => r == Ok::<CastlingRights, &'static str>(CastlingRights(b)),
                None => r is Err,
            },
            r matches Ok(c) ==> c.0 < 16,
    {
        if bytes.len() == 1 && bytes[0] == 45 {
            assert(bytes@ =~= seq![45u8]);
            return Ok(CastlingRights(Self::NONE));
        }
        assert(bytes@ != seq![45u8]) by {
            if bytes@ == seq![45u8] {
                assert(bytes@.len() == 1 && bytes@[0] == 45);
            }
        }
        let mut acc: u8 = 0;
        let mut i: usize = 0;
        assert(bytes@.subrange(0, 0) =~= Seq::<u8>::empty());
        while i < bytes.len()
            invariant
                i <= bytes@.len(),
                bytes@ != seq![45u8],
                rights_of_letters(bytes@.subrange(0, i as int)) == Some(acc),
                acc < 16,
            decreases bytes@.len() - i,
        {
            let c = bytes[i];
            assert(bytes@.subrange(0, i + 1).drop_last() =~= bytes@.subrange(0, i as int));
            let b: u8 = if c == 75 {
                1
            } else if c == 81 {
                2
            } else if c == 107 {
                4
            } else if c == 113 {
                8
            } else {
                proof {
                    lemma_rights_prefix_none(bytes@, i as int + 1);
                }
                return Err("Invalid castling rights.");
            };
            assert(acc < 16 && (b == 1 || b == 2 || b == 4 || b == 8) ==> acc | b < 16)
                by (bit_vector);
            acc = acc | b;
            i = i + 1;
        }
        assert(bytes@.subrange(0, bytes@.len() as int) =~= bytes@);
        Ok(CastlingRights(acc))
    }

    /// The castling field of a FEN for these rights: the letters `KQkq` of the rights held,
    /// in that order, or `-` for none.
    pub fn to_letters(self) -> (r: Vec<u8>)
        ensures
            r@ == rights_text(self.0),
    {
        let mut v: Vec<u8> = Vec::new();
        if self.0 == 0 {
            v.push(45);
            return v;
        }
        if self.0 & 1 != 0 {
            v.push(75);
        }
        let ghost a = v@;
        if self.0 & 2 != 0 {
            v.push(81);
        }
        let ghost b = v@;
        if self.0 & 4 != 0 {
            v.push(107);
        }
        let ghost c = v@;
        if self.0 & 8 != 0 {
            v.push(113);
        }
        assert(v@ =~= (if self.0 & 1 != 0 { seq![75u8] } else { Seq::<u8>::empty() }) + (if self.0
            & 2 != 0 { seq![81u8] } else { Seq::<u8>::empty() }) + (if self.0 & 4 != 0 {
            seq![107u8]
        } else {
            Seq::<u8>::empty()
        }) + (if self.0 & 8 != 0 { seq![113u8] } else { Seq::<u8>::empty() }));
        v
    }
}

/// Once a letter that names no right appears, no longer text names rights either.
proof fn lemma_rights_prefix_none(s: Seq<u8>, n: int)
    requires
        0 < n <= s.len(),
        right_of_letter(s[n - 1]) is None,
    ensures
        forall|m: int| n <= m <= s.len() ==> rights_of_letters(#[trigger] s.subrange(0, m)) is None,
{
    assert forall|m: int| n <= m <= s.len() implies rights_of_letters(
        #[trigger] s.subrange(0, m),
    ) is None by {
        lemma_rights_prefix_none_at(s, n, m);
    }
}

proof fn lemma_rights_prefix_none_at(s: Seq<u8>, n: int, m: int)
    requires
        0 < n <= m <= s.len(),
        right_of_letter(s[n - 1]) is None,
    ensures
        rights_of_letters(s.subrange(0, m)) is None,
    decreases m,
{
    assert(s.subrange(0, m).drop_last() =~= s.subrange(0, m - 1));
    if m > n {
        lemma_rights_prefix_none_at(s, n, m - 1);
    }
}

impl core::ops::BitOr for CastlingRights {
    type Output = Self;

    fn bitor(self, rhs: Self) -> (r: Self)
        ensures
            r.0 == self.0 | rhs.0,
    {
        self.union(rhs)
    }
}

impl vstd::std_specs::ops::BitOrSpecImpl for CastlingRights {
    open spec fn obeys_bitor_spec() -> bool {
        true
    }

    open spec fn bitor_req(self, rhs: Self) -> bool {
        true
    }

    open spec fn bitor_spec(self, rhs: Self) -> Self {
        CastlingRights(self.0 | rhs.0)
    }
}

} // verus!
