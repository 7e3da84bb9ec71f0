use vstd::prelude::*;
use crate::types::color::Color;

verus! {

/// A piece, or no piece: its code holds the piece type in bits 0 to 2 and the color in bit 3.
#[derive(Clone, Copy, PartialEq, Eq, Structural, Debug)]
pub enum Piece {
    WhitePawn, WhiteKnight, WhiteBishop, WhiteRook, WhiteQueen, WhiteKing,
    BlackPawn, BlackKnight, BlackBishop, BlackRook, BlackQueen, BlackKing,
    NoPiece,
}

impl Piece {
    pub const N_PIECES: usize = 13;

    /// The code of the piece: `8 * color + piece type`; no piece is 14.
    pub open spec fn code(self) -> int {
        match self {
            Piece::WhitePawn => 0,
            Piece::WhiteKnight => 1,
            Piece::WhiteBishop => 2,
            Piece::WhiteRook => 3,
            Piece::WhiteQueen => 4,
            Piece::WhiteKing => 5,
            Piece::BlackPawn => 8,
            Piece::BlackKnight => 9,
            Piece::BlackBishop => 10,
            Piece::BlackRook => 11,
            Piece::BlackQueen => 12,
            Piece::BlackKing => 13,
            Piece::NoPiece => 14,
        }
    }

    /// The value whose number is `n`.
    pub open spec fn from_code_spec(n: int) -> Piece {
        if n == 0 {
            Piece::WhitePawn
        } else if n == 1 {
            Piece::WhiteKnight
        } else if n == 2 {
            Piece::WhiteBishop
        } else if n == 3 {
            Piece::WhiteRook
        } else if n == 4 {
            Piece::WhiteQueen
        } else if n == 5 {
            Piece::WhiteKing
        } else if n == 8 {
            Piece::BlackPawn
        } else if n == 9 {
            Piece::BlackKnight
        } else if n == 10 {
            Piece::BlackBishop
        } else if n == 11 {
            Piece::BlackRook
        } else if n == 12 {
            Piece::BlackQueen
        } else if n == 13 {
            Piece::BlackKing
        } else {
            Piece::NoPiece
        }
    }

    pub fn code_u8(self) -> (r: u8)
        ensures
            r == self.code(),
    {
        match self {
            Piece::WhitePawn => 0,
            Piece::WhiteKnight => 1,
            Piece::WhiteBishop => 2,
            Piece::WhiteRook => 3,
            Piece::WhiteQueen => 4,
            Piece::WhiteKing => 5,
            Piece::BlackPawn => 8,
            Piece::BlackKnight => 9,
            Piece::BlackBishop => 10,
            Piece::BlackRook => 11,
            Piece::BlackQueen => 12,
            Piece::BlackKing => 13,
            Piece::NoPiece => 14,
        }
    }

    pub fn from_code(n: u8) -> (r: Piece)
        requires
            n == 0 || n == 1 || n == 2 || n == 3 || n == 4 || n == 5 || n == 8 || n == 9 || n == 10 || n == 11 || n == 12 || n == 13 || n == 14,
        ensures
            r.code() == n,
            r == Piece::from_code_spec(n as int),
    {
        match n {
            0 => Piece::WhitePawn,
            1 => Piece::WhiteKnight,
            2 => Piece::WhiteBishop,
            3 => Piece::WhiteRook,
            4 => Piece::WhiteQueen,
            5 => Piece::WhiteKing,
            8 => Piece::BlackPawn,
            9 => Piece::BlackKnight,
            10 => Piece::BlackBishop,
            11 => Piece::BlackRook,
            12 => Piece::BlackQueen,
            13 => Piece::BlackKing,
            _ => Piece::NoPiece,
        }
    }

}

/// The kind of a piece, or none.
#[derive(Clone, Copy, PartialEq, Eq, Structural, Debug)]
pub enum PieceType {
    Pawn, Knight, Bishop, Rook, Queen, King, NoPieceType,
}

impl PieceType {
    pub const N_PIECE_TYPES: usize = 6;

    /// Pawn is 0, King is 5, NoPieceType is 6.
    pub open spec fn idx(self) -> int {
        match self {
            PieceType::Pawn => 0,
            PieceType::Knight => 1,
            PieceType::Bishop => 2,
            PieceType::Rook => 3,
            PieceType::Queen => 4,
            PieceType::King => 5,
            PieceType::NoPieceType => 6,
        }
    }

    /// The value whose number is `n`.
    pub open spec fn from_idx(n: int) -> PieceType {
        if n == 0 {
            PieceType::Pawn
        } else if n == 1 {
            PieceType::Knight
        } else if n == 2 {
            PieceType::Bishop
        } else if n == 3 {
            PieceType::Rook
        } else if n == 4 {
            PieceType::Queen
        } else if n == 5 {
            PieceType::King
        } else {
            PieceType::NoPieceType
        }
    }

    pub fn index(self) -> (r: usize)
        ensures
            r == self.idx(),
    {
        match self {
            PieceType::Pawn => 0,
            PieceType::Knight => 1,
            PieceType::Bishop => 2,
            PieceType::Rook => 3,
            PieceType::Queen => 4,
            PieceType::King => 5,
            PieceType::NoPieceType => 6,
        }
    }

    pub fn from_u8(n: u8) -> (r: PieceType)
        requires
            n < 7,
        ensures
            r.idx() == n,
            r == PieceType::from_idx(n as int),
    {
        match n {
            0 => PieceType::Pawn,
            1 => PieceType::Knight,
            2 => PieceType::Bishop,
            3 => PieceType::Rook,
            4 => PieceType::Queen,
            5 => PieceType::King,
            _ => PieceType::NoPieceType,
        }
    }

}


impl Piece {
    /// The letter of the piece in `"PNBRQK  pnbrqk "`, at the position of its code.
    pub open spec fn symbol(self) -> char {
        match self {
            Piece::WhitePawn => 'P',
            Piece::WhiteKnight => 'N',
            Piece::WhiteBishop => 'B',
            Piece::WhiteRook => 'R',
            Piece::WhiteQueen => 'Q',
            Piece::WhiteKing => 'K',
            Piece::BlackPawn => 'p',
            Piece::BlackKnight => 'n',
            Piece::BlackBishop => 'b',
            Piece::BlackRook => 'r',
            Piece::BlackQueen => 'q',
            Piece::BlackKing => 'k',
            Piece::NoPiece => ' ',
        }
    }

    /// The dense number of the piece: its code with the two unused codes 6 and 7 skipped.
    pub fn index(self) -> (r: usize)
        ensures
            r == self.code() - 2 * (self.code() / 8),
            r < 13,
    {
        let c = self.code_u8() as usize;
        c - 2 * self.color_of().index()
    }

    /// The same kind of piece with the other color.
    pub fn flip(self) -> (r: Piece)
        requires
            self != Piece::NoPiece,
        ensures
            r.code() == (if self.code() < 8 { self.code() + 8 } else { self.code() - 8 }),
    {
        let c = self.code_u8();
        assert(c < 16 ==> c ^ 8u8 == (if c < 8 { c + 8 } else { c - 8 })) by (bit_vector);
        Piece::from_code(c ^ 0b1000)
    }

    /// The kind of the piece; `NoPieceType` for no piece.
    pub fn type_of(self) -> (r: PieceType)
        ensures
            r.idx() == self.code() % 8,
    {
        let c = self.code_u8();
        assert(c & 7u8 == c % 8) by (bit_vector);
        PieceType::from_u8(c & 0b111)
    }

    /// The color of the piece; Black for no piece.
    pub fn color_of(self) -> (r: Color)
        ensures
            r.idx() == self.code() / 8,
    {
        let c = self.code_u8();
        assert(c < 16 ==> (c & 8u8) >> 3u8 == c / 8) by (bit_vector);
        Color::from_u8((c & 0b1000) >> 3)
    }

    /// The piece of kind `pt` and color `color`; a Black `NoPieceType` is no piece, and there is no
    /// White `NoPieceType`.
    pub fn make_piece(color: Color, pt: PieceType) -> (r: Piece)
        requires
            !(color == Color::White && pt == PieceType::NoPieceType),
        ensures
            r.code() == 8 * color.idx() + pt.idx(),
    {
        let c = color.index() as u8;
        let t = pt.index() as u8;
        assert(c < 2 ==> c << 3u8 == 8 * c) by (bit_vector);
        Piece::from_code((c << 3) + t)
    }

    /// The pieces with codes from `start` to `end`, both included, in order; the unused codes
    /// 6 and 7 are skipped.
    pub fn iter(start: Piece, end: Piece) -> (r: Vec<Piece>)
        ensures
            forall|k: int| 0 <= k < r@.len() ==> start.code() <= (#[trigger] r@[k]).code() <= end.code(),
            forall|k1: int, k2: int| 0 <= k1 < k2 < r@.len() ==> r@[k1].code() < r@[k2].code(),
            forall|p: Piece| start.code() <= #[trigger] p.code() <= end.code() ==> exists|k: int| 0 <= k < r@.len() && (#[trigger] r@[k]) == p,
    {
        let mut v: Vec<Piece> = Vec::new();
        let s = start.code_u8();
        let e = end.code_u8();
        if s > e {
            return v;
        }
        let mut n = s;
        while n <= e
            invariant
                s == start.code(),
                e == end.code(),
                s <= n <= e + 1,
                e <= 14,
                forall|k: int| 0 <= k < v@.len() ==> s <= (#[trigger] v@[k]).code() < n,
                forall|k1: int, k2: int| 0 <= k1 < k2 < v@.len() ==> v@[k1].code() < v@[k2].code(),
                forall|p: Piece| s <= #[trigger] p.code() < n ==> exists|k: int| 0 <= k < v@.len() && (#[trigger] v@[k]) == p,
            decreases e + 1 - n,
        {
            if n != 6 && n != 7 {
                let p = Piece::from_code(n);
                let ghost vb = v@;
                v.push(p);
                assert forall|q: Piece| s <= #[trigger] q.code() < n + 1 implies exists|k: int| 0 <= k < v@.len() && (#[trigger] v@[k]) == q by {
                    if q.code() == n {
                        assert(v@[v@.len() - 1] == q);
                    } else {
                        let k = choose|k: int| 0 <= k < vb.len() && (#[trigger] vb[k]) == q;
                        assert(v@[k] == q);
                    }
                }
            }
            n = n + 1;
        }
        v
    }

    /// Reads a piece from its FEN letter; the blanks in the letter table are no letters.
    pub fn try_from_char(value: char) -> (r: Result<Piece, &'static str>)
        requires
            value != ' ',
        ensures
            r matches Ok(p) ==> p.symbol() == value,
            r is Err ==> forall|p: Piece| p.symbol() != value,
    {
        match value {
            'P' => Ok(Piece::WhitePawn),
            'N' => Ok(Piece::WhiteKnight),
            'B' => Ok(Piece::WhiteBishop),
            'R' => Ok(Piece::WhiteRook),
            'Q' => Ok(Piece::WhiteQueen),
            'K' => Ok(Piece::WhiteKing),
            'p' => Ok(Piece::BlackPawn),
            'n' => Ok(Piece::BlackKnight),
            'b' => Ok(Piece::BlackBishop),
            'r' => Ok(Piece::BlackRook),
            'q' => Ok(Piece::BlackQueen),
            'k' => Ok(Piece::BlackKing),
            _ => Err("Piece symbols should be one of \"KQRBNPkqrbnp\""),
        }
    }
}

impl PieceType {
    /// The kinds from `start` to `end`, both included, in order.
    pub fn iter(start: PieceType, end: PieceType) -> (r: Vec<PieceType>)
        ensures
            r@.len() == (if start.idx() <= end.idx() { end.idx() - start.idx() + 1 } else { 0 }),
            forall|k: int| 0 <= k < r@.len() ==> (#[trigger] r@[k]).idx() == start.idx() + k,
    {
        let mut v: Vec<PieceType> = Vec::new();
        let s = start.index() as u8;
        let e = end.index() as u8;
        if s > e {
            return v;
        }
        let mut n = s;
        while n <= e
            invariant
                s <= n <= e + 1,
                e <= 6,
                s == start.idx(),
                e == end.idx(),
                v@.len() == n - s,
                forall|k: int| 0 <= k < v@.len() ==> (#[trigger] v@[k]).idx() == s + k,
            decreases e + 1 - n,
        {
            v.push(PieceType::from_u8(n));
            n = n + 1;
        }
        v
    }
}

} // verus!
