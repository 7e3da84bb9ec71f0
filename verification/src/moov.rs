use vstd::prelude::*;
use crate::piece::PieceType;
use crate::square::SQ;

verus! {

/// A move, coded as `flags << 12 | from << 6 | to`; the code is never zero.
#[derive(Clone, Copy, PartialEq, Eq, Structural, Debug)]
pub struct Move(u16);

/// Whether `m` codes a move: it is not zero, and its top four bits are a move kind.
pub open spec fn valid_move_int(m: u16) -> bool {
    m != 0 && m / 4096 != 6 && m / 4096 != 7
}

/// The code of the move from `from` to `to` of kind `flags`.
pub open spec fn move_code(from: SQ, to: SQ, flags: MoveFlags) -> int {
    flags.code() * 4096 + from.idx() * 64 + to.idx()
}

/// The UCI name of a move: the two squares, and the letter of the promotion piece if any.
pub open spec fn uci_name(from: int, to: int, promo: Option<PieceType>) -> Seq<u8> {
    seq![(97 + from % 8) as u8, (49 + from / 8) as u8, (97 + to % 8) as u8, (49 + to / 8) as u8]
        + match promo {
        Some(pt) => seq![promotion_letter(pt)],
        None => Seq::<u8>::empty(),
    }
}

/// The lower-case letter of a piece type.
pub open spec fn promotion_letter(pt: PieceType) -> u8 {
    match pt {
        PieceType::Pawn => 112u8,
        PieceType::Knight => 110u8,
        PieceType::Bishop => 98u8,
        PieceType::Rook => 114u8,
        PieceType::Queen => 113u8,
        PieceType::King => 107u8,
    }
}

impl Move {
    #[verifier::type_invariant]
    spec fn well_formed(self) -> bool {
        valid_move_int(self.0)
    }

    /// The code of the move.
    pub closed spec fn code_int(self) -> u16 {
        self.0
    }

    /// Two moves are the same exactly when their codes are.
    pub proof fn lemma_same_code(a: Move, b: Move)
        ensures
            (a == b) == (a.code_int() == b.code_int()),
    {
    }

    /// The number of the destination square.
    pub open spec fn to_idx(self) -> int {
        self.code_int() as int % 64
    }

    /// The number of the origin square.
    pub open spec fn from_idx(self) -> int {
        (self.code_int() as int / 64) % 64
    }

    /// The four-bit code of the kind of the move.
    pub open spec fn flag_code(self) -> int {
        self.code_int() as int / 4096
    }

    /// The promotion piece of the move, if it is a promotion.
    pub open spec fn promotion_spec(self) -> Option<PieceType> {
        let f = self.flag_code();
        if f == 8 || f == 12 {
            Some(PieceType::Knight)
        } else if f == 9 || f == 13 {
            Some(PieceType::Bishop)
        } else if f == 10 || f == 14 {
            Some(PieceType::Rook)
        } else if f == 11 || f == 15 {
            Some(PieceType::Queen)
        } else {
            None
        }
    }

    /// The UCI name of the move.
    pub open spec fn uci(self) -> Seq<u8> {
        uci_name(self.from_idx(), self.to_idx(), self.promotion_spec())
    }

    /// The move from `from_sq` to `to_sq` of kind `flags`. The quiet move from A1 to A1 would
    /// have code zero, and is no move.
    pub fn new(from_sq: SQ, to_sq: SQ, flags: MoveFlags) -> (r: Move)
        requires
            move_code(from_sq, to_sq, flags) != 0,
        ensures
            r.code_int() == move_code(from_sq, to_sq, flags),
            r.from_idx() == from_sq.idx(),
            r.to_idx() == to_sq.idx(),
            r.flag_code() == flags.code(),
    {
        let f = flags.code_u16();
        let a = from_sq.index() as u16;
        let b = to_sq.index() as u16;
        assert(f < 16 && a < 64 && b < 64 ==> (f << 12u16) | (a << 6u16) | b == f * 4096 + a * 64
            + b) by (bit_vector);
        let m = (f << 12) | (a << 6) | b;
        assert(m / 4096 == f && (m / 64) % 64 == a && m % 64 == b);
        Move(m)
    }

    /// The move with the code `m`.
    pub fn from_int(m: u16) -> (r: Move)
        requires
            valid_move_int(m),
        ensures
            r.code_int() == m,
    {
        Move(m)
    }

    /// The destination square.
    pub fn to_sq(&self) -> (r: SQ)
        ensures
            r.idx() == self.to_idx(),
    {
        let m = self.0;
        proof {
            lemma_code_bits(m);
        }
        SQ::from_u8((m & 0x3f) as u8)
    }

    /// The origin square.
    pub fn from_sq(&self) -> (r: SQ)
        ensures
            r.idx() == self.from_idx(),
    {
        let m = self.0;
        proof {
            lemma_code_bits(m);
        }
        SQ::from_u8(((m >> 6) & 0x3f) as u8)
    }

    /// The origin and destination squares.
    pub fn squares(&self) -> (r: (SQ, SQ))
        ensures
            r.0.idx() == self.from_idx(),
            r.1.idx() == self.to_idx(),
    {
        (self.from_sq(), self.to_sq())
    }

    /// The kind of the move.
    pub fn flags(&self) -> (r: MoveFlags)
        ensures
            r.code() == self.flag_code(),
    {
        proof {
            use_type_invariant(self);
        }
        let m = self.0;
        proof {
            lemma_code_bits(m);
        }
        MoveFlags::from_code(((m >> 12) & 0xf) as u8)
    }

    /// The code of the move.
    pub fn move_int(&self) -> (r: u16)
        ensures
            r == self.code_int(),
            valid_move_int(r),
    {
        proof {
            use_type_invariant(self);
        }
        self.0
    }

    /// Whether the move captures nothing and promotes nothing: a push, a double push or a
    /// castling.
    pub fn is_quiet(&self) -> (r: bool)
        ensures
            r == (self.flag_code() < 4),
    {
        let m = self.0;
        proof {
            lemma_code_bits(m);
        }
        (m >> 12) & 0b1100 == 0
    }

    /// Whether the move captures, en passant or with a promotion included.
    pub fn is_capture(&self) -> (r: bool)
        ensures
            r == (self.flag_code() % 8 >= 4),
    {
        let m = self.0;
        proof {
            lemma_code_bits(m);
        }
        (m >> 12) & 0b0100 != 0
    }

    /// Whether the move captures en passant.
    pub fn is_ep(&self) -> (r: bool)
        ensures
            r == (self.flag_code() == 5),
    {
        self.flags() == MoveFlags::EnPassant
    }

    /// The piece the move promotes to, if it is a promotion.
    pub fn promotion(&self) -> (r: Option<PieceType>)
        ensures
            r == self.promotion_spec(),
    {
        match self.flags() {
            MoveFlags::PrKnight | MoveFlags::PcKnight => Some(PieceType::Knight),
            MoveFlags::PrBishop | MoveFlags::PcBishop => Some(PieceType::Bishop),
            MoveFlags::PrRook | MoveFlags::PcRook => Some(PieceType::Rook),
            MoveFlags::PrQueen | MoveFlags::PcQueen => Some(PieceType::Queen),
            _ => None,
        }
    }

    /// Whether the move castles, on either side.
    pub fn is_castling(&self) -> (r: bool)
        ensures
            r == (self.flag_code() == 2 || self.flag_code() == 3),
    {
        match self.flags() {
            MoveFlags::OO | MoveFlags::OOO => true,
            _ => false,
        }
    }

    /// The UCI name of the move, as bytes.
    pub fn uci_bytes(&self) -> (r: Vec<u8>)
        ensures
            r@ == self.uci(),
    {
        let (from, to) = self.squares();
        let (ff, fr) = from.to_chars();
        let (tf, tr) = to.to_chars();
        let mut v: Vec<u8> = Vec::new();
        v.push(ff as u8);
        v.push(fr as u8);
        v.push(tf as u8);
        v.push(tr as u8);
        match self.promotion() {
            Some(pt) => {
                v.push(pt.to_char() as u8);
            },
            None => {},
        }
        assert(v@ =~= self.uci());
        v
    }
}

/// The fields of a move code, read from its bits.
proof fn lemma_code_bits(m: u16)
    by (bit_vector)
    ensures
        m & 0x3fu16 == m % 64,
        (m >> 6u16) & 0x3fu16 == (m / 64) % 64,
        (m >> 12u16) & 0xfu16 == m / 4096,
        (m >> 12u16) & 0b1100u16 == 0 <==> m / 4096 < 4,
        (m >> 12u16) & 0b0100u16 != 0 <==> (m / 4096) % 8 >= 4,
{
}

/// The kind of a move, held in the top four bits of its code.
#[derive(Clone, Copy, PartialEq, Eq, Structural, Debug)]
pub enum MoveFlags {
    Quiet, DoublePush, OO, OOO, Capture, EnPassant, PrKnight,
    PrBishop, PrRook, PrQueen, PcKnight, PcBishop, PcRook, PcQueen,
}

impl MoveFlags {
    /// The four-bit code of the kind.
    pub open spec fn code(self) -> int {
        match self {
            MoveFlags::Quiet => 0,
            MoveFlags::DoublePush => 1,
            MoveFlags::OO => 2,
            MoveFlags::OOO => 3,
            MoveFlags::Capture => 4,
            MoveFlags::EnPassant => 5,
            MoveFlags::PrKnight => 8,
            MoveFlags::PrBishop => 9,
            MoveFlags::PrRook => 10,
            MoveFlags::PrQueen => 11,
            MoveFlags::PcKnight => 12,
            MoveFlags::PcBishop => 13,
            MoveFlags::PcRook => 14,
            MoveFlags::PcQueen => 15,
        }
    }

    /// The value whose number is `n`.
    pub open spec fn from_code_spec(n: int) -> MoveFlags {
        if n == 0 {
            MoveFlags::Quiet
        } else if n == 1 {
            MoveFlags::DoublePush
        } else if n == 2 {
            MoveFlags::OO
        } else if n == 3 {
            MoveFlags::OOO
        } else if n == 4 {
            MoveFlags::Capture
        } else if n == 5 {
            MoveFlags::EnPassant
        } else if n == 8 {
            MoveFlags::PrKnight
        } else if n == 9 {
            MoveFlags::PrBishop
        } else if n == 10 {
            MoveFlags::PrRook
        } else if n == 11 {
            MoveFlags::PrQueen
        } else if n == 12 {
            MoveFlags::PcKnight
        } else if n == 13 {
            MoveFlags::PcBishop
        } else if n == 14 {
            MoveFlags::PcRook
        } else {
            MoveFlags::PcQueen
        }
    }

    pub fn code_u16(self) -> (r: u16)
        ensures
            r == self.code(),
    {
        match self {
            MoveFlags::Quiet => 0,
            MoveFlags::DoublePush => 1,
            MoveFlags::OO => 2,
            MoveFlags::OOO => 3,
            MoveFlags::Capture => 4,
            MoveFlags::EnPassant => 5,
            MoveFlags::PrKnight => 8,
            MoveFlags::PrBishop => 9,
            MoveFlags::PrRook => 10,
            MoveFlags::PrQueen => 11,
            MoveFlags::PcKnight => 12,
            MoveFlags::PcBishop => 13,
            MoveFlags::PcRook => 14,
            MoveFlags::PcQueen => 15,
        }
    }

    pub fn from_code(n: u8) -> (r: MoveFlags)
        requires
            n == 0 || n == 1 || n == 2 || n == 3 || n == 4 || n == 5 || n == 8 || n == 9 || n == 10 || n == 11 || n == 12 || n == 13 || n == 14 || n == 15,
        ensures
            r.code() == n,
            r == MoveFlags::from_code_spec(n as int),
    {
        match n {
            0 => MoveFlags::Quiet,
            1 => MoveFlags::DoublePush,
            2 => MoveFlags::OO,
            3 => MoveFlags::OOO,
            4 => MoveFlags::Capture,
            5 => MoveFlags::EnPassant,
            8 => MoveFlags::PrKnight,
            9 => MoveFlags::PrBishop,
            10 => MoveFlags::PrRook,
            11 => MoveFlags::PrQueen,
            12 => MoveFlags::PcKnight,
            13 => MoveFlags::PcBishop,
            14 => MoveFlags::PcRook,
            _ => MoveFlags::PcQueen,
        }
    }

}


} // verus!
