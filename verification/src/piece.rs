use vstd::prelude::*;
pub use crate::color::Color;
use crate::traits::{Enumerable, Relative};

verus! {

/// A piece: its code holds the piece type in bits 0 to 2 and the color in bit 3.
#[derive(Clone, Copy, PartialEq, Eq, Structural, Debug)]
pub enum Piece {
    WhitePawn, WhiteKnight, WhiteBishop, WhiteRook, WhiteQueen, WhiteKing,
    BlackPawn, BlackKnight, BlackBishop, BlackRook, BlackQueen, BlackKing,
}

impl Piece {
    pub const COUNT: usize = 12;

    /// The code of the piece: `8 * color + piece type`.
    pub open spec fn code(self) -> int {
        match self {
            Piece::WhitePawn => 0,
            Piece::WhiteKnight => 1,
            Piece::WhiteBishop => 2,
            Piece::WhiteRook => 3,
            Piece::WhiteQueen => 4,
            Piece::WhiteKing => 5,
            Piece::BlackPawn => 8,
            Piece::BlackKnight => 9,
            Piece::BlackBishop => 10,
            Piece::BlackRook => 11,
            Piece::BlackQueen => 12,
            Piece::BlackKing => 13,
        }
    }

    /// The value whose number is `n`.
    pub open spec fn from_code_spec(n: int) -> Piece {
        if n == 0 {
            Piece::WhitePawn
        } else if n == 1 {
            Piece::WhiteKnight
        } else if n == 2 {
            Piece::WhiteBishop
        } else if n == 3 {
            Piece::WhiteRook
        } else if n == 4 {
            Piece::WhiteQueen
        } else if n == 5 {
            Piece::WhiteKing
        } else if n == 8 {
            Piece::BlackPawn
        } else if n == 9 {
            Piece::BlackKnight
        } else if n == 10 {
            Piece::BlackBishop
        } else if n == 11 {
            Piece::BlackRook
        } else if n == 12 {
            Piece::BlackQueen
        } else {
            Piece::BlackKing
        }
    }

    pub fn code_u8(self) -> (r: u8)
        ensures
            r == self.code(),
    {
        match self {
            Piece::WhitePawn => 0,
            Piece::WhiteKnight => 1,
            Piece::WhiteBishop => 2,
            Piece::WhiteRook => 3,
            Piece::WhiteQueen => 4,
            Piece::WhiteKing => 5,
            Piece::BlackPawn => 8,
            Piece::BlackKnight => 9,
            Piece::BlackBishop => 10,
            Piece::BlackRook => 11,
            Piece::BlackQueen => 12,
            Piece::BlackKing => 13,
        }
    }

    pub fn from_code(n: u8) -> (r: Piece)
        requires
            n == 0 || n == 1 || n == 2 || n == 3 || n == 4 || n == 5 || n == 8 || n == 9 || n == 10 || n == 11 || n == 12 || n == 13,
        ensures
            r.code() == n,
            r == Piece::from_code_spec(n as int),
    {
        match n {
            0 => Piece::WhitePawn,
            1 => Piece::WhiteKnight,
            2 => Piece::WhiteBishop,
            3 => Piece::WhiteRook,
            4 => Piece::WhiteQueen,
            5 => Piece::WhiteKing,
            8 => Piece::BlackPawn,
            9 => Piece::BlackKnight,
            10 => Piece::BlackBishop,
            11 => Piece::BlackRook,
            12 => Piece::BlackQueen,
            _ => Piece::BlackKing,
        }
    }

}

/// The kind of a piece, whatever its color.
#[derive(Clone, Copy, PartialEq, Eq, Structural, Debug)]
pub enum PieceType {
    Pawn, Knight, Bishop, Rook, Queen, King,
}

impl PieceType {
    pub const COUNT: usize = 6;
    pub const N_PIECE_TYPES: usize = 6;

    /// Pawn is 0, King is 5.
    pub open spec fn idx(self) -> int {
        match self {
            PieceType::Pawn => 0,
            PieceType::Knight => 1,
            PieceType::Bishop => 2,
            PieceType::Rook => 3,
            PieceType::Queen => 4,
            PieceType::King => 5,
        }
    }

    /// The value whose number is `n`.
    pub open spec fn from_idx(n: int) -> PieceType {
        if n == 0 {
            PieceType::Pawn
        } else if n == 1 {
            PieceType::Knight
        } else if n == 2 {
            PieceType::Bishop
        } else if n == 3 {
            PieceType::Rook
        } else if n == 4 {
            PieceType::Queen
        } else {
            PieceType::King
        }
    }

    pub fn index(self) -> (r: usize)
        ensures
            r == self.idx(),
    {
        match self {
            PieceType::Pawn => 0,
            PieceType::Knight => 1,
            PieceType::Bishop => 2,
            PieceType::Rook => 3,
            PieceType::Queen => 4,
            PieceType::King => 5,
        }
    }

    pub fn from_u8(n: u8) -> (r: PieceType)
        requires
            n < 6,
        ensures
            r.idx() == n,
            r == PieceType::from_idx(n as int),
    {
        match n {
            0 => PieceType::Pawn,
            1 => PieceType::Knight,
            2 => PieceType::Bishop,
            3 => PieceType::Rook,
            4 => PieceType::Queen,
            _ => PieceType::King,
        }
    }

}


impl Piece {
    /// The letter that FEN uses for the piece: upper case for White.
    pub open spec fn symbol(self) -> char {
        match self {
            Piece::WhitePawn => 'P',
            Piece::WhiteKnight => 'N',
            Piece::WhiteBishop => 'B',
            Piece::WhiteRook => 'R',
            Piece::WhiteQueen => 'Q',
            Piece::WhiteKing => 'K',
            Piece::BlackPawn => 'p',
            Piece::BlackKnight => 'n',
            Piece::BlackBishop => 'b',
            Piece::BlackRook => 'r',
            Piece::BlackQueen => 'q',
            Piece::BlackKing => 'k',
        }
    }

    /// The kind of the piece.
    pub fn type_of(self) -> (r: PieceType)
        ensures
            r.idx() == self.code() % 8,
    {
        let c = self.code_u8();
        assert(c & 7u8 == c % 8) by (bit_vector);
        PieceType::from_u8(c & 0b111)
    }

    /// The owner of the piece.
    pub fn color_of(self) -> (r: Color)
        ensures
            r.idx() == self.code() / 8,
    {
        let c = self.code_u8();
        assert(c < 16 ==> (c & 8u8) >> 3u8 == c / 8) by (bit_vector);
        Color::from_u8((c & 0b1000) >> 3)
    }

    /// The piece of kind `pt` owned by `color`.
    pub fn make_piece(color: Color, pt: PieceType) -> (r: Piece)
        ensures
            r.code() == 8 * color.idx() + pt.idx(),
            r == Piece::from_code_spec(8 * color.idx() + pt.idx()),
            r.type_of_spec() == pt,
            r.color_of_spec() == color,
    {
        let c = color.index() as u8;
        let t = pt.index() as u8;
        assert(c < 2 ==> c << 3u8 == 8 * c) by (bit_vector);
        Piece::from_code((c << 3) + t)
    }

    /// A piece is the piece of its side and kind.
    pub proof fn lemma_parts(self)
        ensures
            self == Piece::from_code_spec(8 * self.color_of_spec().idx() + self.type_of_spec().idx()),
    {
    }

    /// The kind of the piece, as a value.
    pub open spec fn type_of_spec(self) -> PieceType {
        PieceType::from_idx(self.code() % 8)
    }

    /// The owner of the piece, as a value.
    pub open spec fn color_of_spec(self) -> Color {
        if self.code() < 8 {
            Color::White
        } else {
            Color::Black
        }
    }

    /// Reads a piece from its FEN letter. The blank that stands between White's and Black's
    /// letters is no piece.
    pub fn try_from_char(value: char) -> (r: Result<Piece, &'static str>)
        requires
            value != ' ',
        ensures
            r matches Ok(p) ==> p.symbol() == value,
            r is Err ==> forall|p: Piece| p.symbol() != value,
    {
        match value {
            'P' => Ok(Piece::WhitePawn),
            'N' => Ok(Piece::WhiteKnight),
            'B' => Ok(Piece::WhiteBishop),
            'R' => Ok(Piece::WhiteRook),
            'Q' => Ok(Piece::WhiteQueen),
            'K' => Ok(Piece::WhiteKing),
            'p' => Ok(Piece::BlackPawn),
            'n' => Ok(Piece::BlackKnight),
            'b' => Ok(Piece::BlackBishop),
            'r' => Ok(Piece::BlackRook),
            'q' => Ok(Piece::BlackQueen),
            'k' => Ok(Piece::BlackKing),
            _ => {
                assert forall|p: Piece| p.symbol() != value by {
                    match p {
                        _ => {},
                    }
                }
                Err("Piece symbols should be one of \"KQRBNPkqrbnp\"")
            },
        }
    }

    /// The FEN letter of the piece.
    pub fn to_char(self) -> (r: char)
        ensures
            r == self.symbol(),
    {
        match self {
            Piece::WhitePawn => 'P',
            Piece::WhiteKnight => 'N',
            Piece::WhiteBishop => 'B',
            Piece::WhiteRook => 'R',
            Piece::WhiteQueen => 'Q',
            Piece::WhiteKing => 'K',
            Piece::BlackPawn => 'p',
            Piece::BlackKnight => 'n',
            Piece::BlackBishop => 'b',
            Piece::BlackRook => 'r',
            Piece::BlackQueen => 'q',
            Piece::BlackKing => 'k',
        }
    }
}

impl Enumerable for Piece {
    open spec fn count() -> nat {
        12
    }

    open spec fn dense_index(&self) -> int {
        self.code() - 2 * (self.code() / 8)
    }

    /// Codes 6 and 7 stand for no piece, so that the color sits in bit 3: the dense number
    /// skips them.
    fn from_repr(n: u8) -> (r: Piece) {
        Piece::from_code(n + 2 * (n / 6))
    }

    fn index(&self) -> (r: usize) {
        let c = self.code_u8() as usize;
        c - 2 * self.color_of().index()
    }
}

impl Relative for Piece {
    open spec fn mirrored(&self) -> Piece {
        Piece::from_code_spec(if self.code() < 8 { self.code() + 8 } else { self.code() - 8 })
    }

    /// The same kind of piece owned by the other side.
    fn vmirror(&self) -> (r: Piece) {
        let c = self.code_u8();
        assert(c < 16 ==> c ^ 8u8 == (if c < 8 { c + 8 } else { c - 8 })) by (bit_vector);
        Piece::from_code(c ^ 0b1000)
    }
}

impl PieceType {
    /// The letter of the piece type, as a Black piece of that type is written.
    pub fn to_char(self) -> (r: char)
        ensures
            r == (match self {
                PieceType::Pawn => 'p',
                PieceType::Knight => 'n',
                PieceType::Bishop => 'b',
                PieceType::Rook => 'r',
                PieceType::Queen => 'q',
                PieceType::King => 'k',
            }),
    {
        match self {
            PieceType::Pawn => 'p',
            PieceType::Knight => 'n',
            PieceType::Bishop => 'b',
            PieceType::Rook => 'r',
            PieceType::Queen => 'q',
            PieceType::King => 'k',
        }
    }
}

impl Enumerable for PieceType {
    open spec fn count() -> nat {
        6
    }

    open spec fn dense_index(&self) -> int {
        self.idx()
    }

    fn from_repr(n: u8) -> (r: PieceType) {
        PieceType::from_u8(n)
    }

    fn index(&self) -> (r: usize) {
        PieceType::index(*self)
    }
}

impl Enumerable for Color {
    open spec fn count() -> nat {
        2
    }

    open spec fn dense_index(&self) -> int {
        self.idx()
    }

    fn from_repr(n: u8) -> (r: Color) {
        Color::from_u8(n)
    }

    fn index(&self) -> (r: usize) {
        Color::index(*self)
    }
}

} // verus!
