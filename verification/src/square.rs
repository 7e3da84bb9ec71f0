use vstd::prelude::*;
use crate::bitboard::{bit, Bitboard};
use crate::parse::{all_digits, digits_value, is_digit, unsigned_text_value};
use vstd::string::StringSliceAdditionalSpecFns;
use crate::color::Color;
pub use crate::rank::Rank;

verus! {

/// A square of the board, numbered from A1 = 0 to H8 = 63 rank by rank.
#[derive(Clone, Copy, PartialEq, Eq, Structural, Debug)]
pub enum SQ {
    A1, B1, C1, D1, E1, F1, G1, H1,
    A2, B2, C2, D2, E2, F2, G2, H2,
    A3, B3, C3, D3, E3, F3, G3, H3,
    A4, B4, C4, D4, E4, F4, G4, H4,
    A5, B5, C5, D5, E5, F5, G5, H5,
    A6, B6, C6, D6, E6, F6, G6, H6,
    A7, B7, C7, D7, E7, F7, G7, H7,
    A8, B8, C8, D8, E8, F8, G8, H8,
}

impl SQ {
    pub const N_SQUARES: usize = 64;

    /// The number of the square: `8 * rank + file`.
    pub open spec fn idx(self) -> int {
        match self {
            SQ::A1 => 0,
            SQ::B1 => 1,
            SQ::C1 => 2,
            SQ::D1 => 3,
            SQ::E1 => 4,
            SQ::F1 => 5,
            SQ::G1 => 6,
            SQ::H1 => 7,
            SQ::A2 => 8,
            SQ::B2 => 9,
            SQ::C2 => 10,
            SQ::D2 => 11,
            SQ::E2 => 12,
            SQ::F2 => 13,
            SQ::G2 => 14,
            SQ::H2 => 15,
            SQ::A3 => 16,
            SQ::B3 => 17,
            SQ::C3 => 18,
            SQ::D3 => 19,
            SQ::E3 => 20,
            SQ::F3 => 21,
            SQ::G3 => 22,
            SQ::H3 => 23,
            SQ::A4 => 24,
            SQ::B4 => 25,
            SQ::C4 => 26,
            SQ::D4 => 27,
            SQ::E4 => 28,
            SQ::F4 => 29,
            SQ::G4 => 30,
            SQ::H4 => 31,
            SQ::A5 => 32,
            SQ::B5 => 33,
            SQ::C5 => 34,
            SQ::D5 => 35,
            SQ::E5 => 36,
            SQ::F5 => 37,
            SQ::G5 => 38,
            SQ::H5 => 39,
            SQ::A6 => 40,
            SQ::B6 => 41,
            SQ::C6 => 42,
            SQ::D6 => 43,
            SQ::E6 => 44,
            SQ::F6 => 45,
            SQ::G6 => 46,
            SQ::H6 => 47,
            SQ::A7 => 48,
            SQ::B7 => 49,
            SQ::C7 => 50,
            SQ::D7 => 51,
            SQ::E7 => 52,
            SQ::F7 => 53,
            SQ::G7 => 54,
            SQ::H7 => 55,
            SQ::A8 => 56,
            SQ::B8 => 57,
            SQ::C8 => 58,
            SQ::D8 => 59,
            SQ::E8 => 60,
            SQ::F8 => 61,
            SQ::G8 => 62,
            SQ::H8 => 63,
        }
    }

    /// The value whose number is `n`.
    pub open spec fn from_idx(n: int) -> SQ {
        if n == 0 {
            SQ::A1
        } else if n == 1 {
            SQ::B1
        } else if n == 2 {
            SQ::C1
        } else if n == 3 {
            SQ::D1
        } else if n == 4 {
            SQ::E1
        } else if n == 5 {
            SQ::F1
        } else if n == 6 {
            SQ::G1
        } else if n == 7 {
            SQ::H1
        } else if n == 8 {
            SQ::A2
        } else if n == 9 {
            SQ::B2
        } else if n == 10 {
            SQ::C2
        } else if n == 11 {
            SQ::D2
        } else if n == 12 {
            SQ::E2
        } else if n == 13 {
            SQ::F2
        } else if n == 14 {
            SQ::G2
        } else if n == 15 {
            SQ::H2
        } else if n == 16 {
            SQ::A3
        } else if n == 17 {
            SQ::B3
        } else if n == 18 {
            SQ::C3
        } else if n == 19 {
            SQ::D3
        } else if n == 20 {
            SQ::E3
        } else if n == 21 {
            SQ::F3
        } else if n == 22 {
            SQ::G3
        } else if n == 23 {
            SQ::H3
        } else if n == 24 {
            SQ::A4
        } else if n == 25 {
            SQ::B4
        } else if n == 26 {
            SQ::C4
        } else if n == 27 {
            SQ::D4
        } else if n == 28 {
            SQ::E4
        } else if n == 29 {
            SQ::F4
        } else if n == 30 {
            SQ::G4
        } else if n == 31 {
            SQ::H4
        } else if n == 32 {
            SQ::A5
        } else if n == 33 {
            SQ::B5
        } else if n == 34 {
            SQ::C5
        } else if n == 35 {
            SQ::D5
        } else if n == 36 {
            SQ::E5
        } else if n == 37 {
            SQ::F5
        } else if n == 38 {
            SQ::G5
        } else if n == 39 {
            SQ::H5
        } else if n == 40 {
            SQ::A6
        } else if n == 41 {
            SQ::B6
        } else if n == 42 {
            SQ::C6
        } else if n == 43 {
            SQ::D6
        } else if n == 44 {
            SQ::E6
        } else if n == 45 {
            SQ::F6
        } else if n == 46 {
            SQ::G6
        } else if n == 47 {
            SQ::H6
        } else if n == 48 {
            SQ::A7
        } else if n == 49 {
            SQ::B7
        } else if n == 50 {
            SQ::C7
        } else if n == 51 {
            SQ::D7
        } else if n == 52 {
            SQ::E7
        } else if n == 53 {
            SQ::F7
        } else if n == 54 {
            SQ::G7
        } else if n == 55 {
            SQ::H7
        } else if n == 56 {
            SQ::A8
        } else if n == 57 {
            SQ::B8
        } else if n == 58 {
            SQ::C8
        } else if n == 59 {
            SQ::D8
        } else if n == 60 {
            SQ::E8
        } else if n == 61 {
            SQ::F8
        } else if n == 62 {
            SQ::G8
        } else {
            SQ::H8
        }
    }

    pub fn index(self) -> (r: usize)
        ensures
            r == self.idx(),
    {
        match self {
            SQ::A1 => 0,
            SQ::B1 => 1,
            SQ::C1 => 2,
            SQ::D1 => 3,
            SQ::E1 => 4,
            SQ::F1 => 5,
            SQ::G1 => 6,
            SQ::H1 => 7,
            SQ::A2 => 8,
            SQ::B2 => 9,
            SQ::C2 => 10,
            SQ::D2 => 11,
            SQ::E2 => 12,
            SQ::F2 => 13,
            SQ::G2 => 14,
            SQ::H2 => 15,
            SQ::A3 => 16,
            SQ::B3 => 17,
            SQ::C3 => 18,
            SQ::D3 => 19,
            SQ::E3 => 20,
            SQ::F3 => 21,
            SQ::G3 => 22,
            SQ::H3 => 23,
            SQ::A4 => 24,
            SQ::B4 => 25,
            SQ::C4 => 26,
            SQ::D4 => 27,
            SQ::E4 => 28,
            SQ::F4 => 29,
            SQ::G4 => 30,
            SQ::H4 => 31,
            SQ::A5 => 32,
            SQ::B5 => 33,
            SQ::C5 => 34,
            SQ::D5 => 35,
            SQ::E5 => 36,
            SQ::F5 => 37,
            SQ::G5 => 38,
            SQ::H5 => 39,
            SQ::A6 => 40,
            SQ::B6 => 41,
            SQ::C6 => 42,
            SQ::D6 => 43,
            SQ::E6 => 44,
            SQ::F6 => 45,
            SQ::G6 => 46,
            SQ::H6 => 47,
            SQ::A7 => 48,
            SQ::B7 => 49,
            SQ::C7 => 50,
            SQ::D7 => 51,
            SQ::E7 => 52,
            SQ::F7 => 53,
            SQ::G7 => 54,
            SQ::H7 => 55,
            SQ::A8 => 56,
            SQ::B8 => 57,
            SQ::C8 => 58,
            SQ::D8 => 59,
            SQ::E8 => 60,
            SQ::F8 => 61,
            SQ::G8 => 62,
            SQ::H8 => 63,
        }
    }

    pub fn from_u8(n: u8) -> (r: SQ)
        requires
            n < 64,
        ensures
            r.idx() == n,
            r == SQ::from_idx(n as int),
    {
        match n {
            0 => SQ::A1,
            1 => SQ::B1,
            2 => SQ::C1,
            3 => SQ::D1,
            4 => SQ::E1,
            5 => SQ::F1,
            6 => SQ::G1,
            7 => SQ::H1,
            8 => SQ::A2,
            9 => SQ::B2,
            10 => SQ::C2,
            11 => SQ::D2,
            12 => SQ::E2,
            13 => SQ::F2,
            14 => SQ::G2,
            15 => SQ::H2,
            16 => SQ::A3,
            17 => SQ::B3,
            18 => SQ::C3,
            19 => SQ::D3,
            20 => SQ::E3,
            21 => SQ::F3,
            22 => SQ::G3,
            23 => SQ::H3,
            24 => SQ::A4,
            25 => SQ::B4,
            26 => SQ::C4,
            27 => SQ::D4,
            28 => SQ::E4,
            29 => SQ::F4,
            30 => SQ::G4,
            31 => SQ::H4,
            32 => SQ::A5,
            33 => SQ::B5,
            34 => SQ::C5,
            35 => SQ::D5,
            36 => SQ::E5,
            37 => SQ::F5,
            38 => SQ::G5,
            39 => SQ::H5,
            40 => SQ::A6,
            41 => SQ::B6,
            42 => SQ::C6,
            43 => SQ::D6,
            44 => SQ::E6,
            45 => SQ::F6,
            46 => SQ::G6,
            47 => SQ::H6,
            48 => SQ::A7,
            49 => SQ::B7,
            50 => SQ::C7,
            51 => SQ::D7,
            52 => SQ::E7,
            53 => SQ::F7,
            54 => SQ::G7,
            55 => SQ::H7,
            56 => SQ::A8,
            57 => SQ::B8,
            58 => SQ::C8,
            59 => SQ::D8,
            60 => SQ::E8,
            61 => SQ::F8,
            62 => SQ::G8,
            _ => SQ::H8,
        }
    }

}

/// A file of the board, from A to H.
#[derive(Clone, Copy, PartialEq, Eq, Structural, Debug)]
pub enum File {
    A, B, C, D, E, F, G, H,
}

impl File {
    pub const N_FILES: usize = 8;

    /// A is 0, H is 7.
    pub open spec fn idx(self) -> int {
        match self {
            File::A => 0,
            File::B => 1,
            File::C => 2,
            File::D => 3,
            File::E => 4,
            File::F => 5,
            File::G => 6,
            File::H => 7,
        }
    }

    /// The value whose number is `n`.
    pub open spec fn from_idx(n: int) -> File {
        if n == 0 {
            File::A
        } else if n == 1 {
            File::B
        } else if n == 2 {
            File::C
        } else if n == 3 {
            File::D
        } else if n == 4 {
            File::E
        } else if n == 5 {
            File::F
        } else if n == 6 {
            File::G
        } else {
            File::H
        }
    }

    pub fn index(self) -> (r: usize)
        ensures
            r == self.idx(),
    {
        match self {
            File::A => 0,
            File::B => 1,
            File::C => 2,
            File::D => 3,
            File::E => 4,
            File::F => 5,
            File::G => 6,
            File::H => 7,
        }
    }

    pub fn from_u8(n: u8) -> (r: File)
        requires
            n < 8,
        ensures
            r.idx() == n,
            r == File::from_idx(n as int),
    {
        match n {
            0 => File::A,
            1 => File::B,
            2 => File::C,
            3 => File::D,
            4 => File::E,
            5 => File::F,
            6 => File::G,
            _ => File::H,
        }
    }

}

/// A diagonal running towards H8, numbered by `7 + rank - file`.
#[derive(Clone, Copy, PartialEq, Eq, Structural, Debug)]
pub enum Diagonal {
    H1H1, G1H2, F1H3, E1H4, D1H5, C1H6, B1H7, H8A1,
    G8A2, F8A3, E8A4, D8A5, C8A6, B8A7, A8A8,
}

impl Diagonal {
    pub const N_DIAGONALS: usize = 15;

    /// The number `7 + rank - file` shared by the squares of the diagonal.
    pub open spec fn idx(self) -> int {
        match self {
            Diagonal::H1H1 => 0,
            Diagonal::G1H2 => 1,
            Diagonal::F1H3 => 2,
            Diagonal::E1H4 => 3,
            Diagonal::D1H5 => 4,
            Diagonal::C1H6 => 5,
            Diagonal::B1H7 => 6,
            Diagonal::H8A1 => 7,
            Diagonal::G8A2 => 8,
            Diagonal::F8A3 => 9,
            Diagonal::E8A4 => 10,
            Diagonal::D8A5 => 11,
            Diagonal::C8A6 => 12,
            Diagonal::B8A7 => 13,
            Diagonal::A8A8 => 14,
        }
    }

    /// The value whose number is `n`.
    pub open spec fn from_idx(n: int) -> Diagonal {
        if n == 0 {
            Diagonal::H1H1
        } else if n == 1 {
            Diagonal::G1H2
        } else if n == 2 {
            Diagonal::F1H3
        } else if n == 3 {
            Diagonal::E1H4
        } else if n == 4 {
            Diagonal::D1H5
        } else if n == 5 {
            Diagonal::C1H6
        } else if n == 6 {
            Diagonal::B1H7
        } else if n == 7 {
            Diagonal::H8A1
        } else if n == 8 {
            Diagonal::G8A2
        } else if n == 9 {
            Diagonal::F8A3
        } else if n == 10 {
            Diagonal::E8A4
        } else if n == 11 {
            Diagonal::D8A5
        } else if n == 12 {
            Diagonal::C8A6
        } else if n == 13 {
            Diagonal::B8A7
        } else {
            Diagonal::A8A8
        }
    }

    pub fn index(self) -> (r: usize)
        ensures
            r == self.idx(),
    {
        match self {
            Diagonal::H1H1 => 0,
            Diagonal::G1H2 => 1,
            Diagonal::F1H3 => 2,
            Diagonal::E1H4 => 3,
            Diagonal::D1H5 => 4,
            Diagonal::C1H6 => 5,
            Diagonal::B1H7 => 6,
            Diagonal::H8A1 => 7,
            Diagonal::G8A2 => 8,
            Diagonal::F8A3 => 9,
            Diagonal::E8A4 => 10,
            Diagonal::D8A5 => 11,
            Diagonal::C8A6 => 12,
            Diagonal::B8A7 => 13,
            Diagonal::A8A8 => 14,
        }
    }

    pub fn from_u8(n: u8) -> (r: Diagonal)
        requires
            n < 15,
        ensures
            r.idx() == n,
            r == Diagonal::from_idx(n as int),
    {
        match n {
            0 => Diagonal::H1H1,
            1 => Diagonal::G1H2,
            2 => Diagonal::F1H3,
            3 => Diagonal::E1H4,
            4 => Diagonal::D1H5,
            5 => Diagonal::C1H6,
            6 => Diagonal::B1H7,
            7 => Diagonal::H8A1,
            8 => Diagonal::G8A2,
            9 => Diagonal::F8A3,
            10 => Diagonal::E8A4,
            11 => Diagonal::D8A5,
            12 => Diagonal::C8A6,
            13 => Diagonal::B8A7,
            _ => Diagonal::A8A8,
        }
    }

}

/// A diagonal running towards A8, numbered by `rank + file`.
#[derive(Clone, Copy, PartialEq, Eq, Structural, Debug)]
pub enum AntiDiagonal {
    A1A1, B1A2, C1A3, D1A4, E1A5, F1A6, G1A7, H1A8,
    B8H2, C8H3, D8H4, E8H5, F8H6, G8H7, H8H8,
}

impl AntiDiagonal {
    pub const N_ANTIDIAGONALS: usize = 15;

    /// The number `rank + file` shared by the squares of the diagonal.
    pub open spec fn idx(self) -> int {
        match self {
            AntiDiagonal::A1A1 => 0,
            AntiDiagonal::B1A2 => 1,
            AntiDiagonal::C1A3 => 2,
            AntiDiagonal::D1A4 => 3,
            AntiDiagonal::E1A5 => 4,
            AntiDiagonal::F1A6 => 5,
            AntiDiagonal::G1A7 => 6,
            AntiDiagonal::H1A8 => 7,
            AntiDiagonal::B8H2 => 8,
            AntiDiagonal::C8H3 => 9,
            AntiDiagonal::D8H4 => 10,
            AntiDiagonal::E8H5 => 11,
            AntiDiagonal::F8H6 => 12,
            AntiDiagonal::G8H7 => 13,
            AntiDiagonal::H8H8 => 14,
        }
    }

    /// The value whose number is `n`.
    pub open spec fn from_idx(n: int) -> AntiDiagonal {
        if n == 0 {
            AntiDiagonal::A1A1
        } else if n == 1 {
            AntiDiagonal::B1A2
        } else if n == 2 {
            AntiDiagonal::C1A3
        } else if n == 3 {
            AntiDiagonal::D1A4
        } else if n == 4 {
            AntiDiagonal::E1A5
        } else if n == 5 {
            AntiDiagonal::F1A6
        } else if n == 6 {
            AntiDiagonal::G1A7
        } else if n == 7 {
            AntiDiagonal::H1A8
        } else if n == 8 {
            AntiDiagonal::B8H2
        } else if n == 9 {
            AntiDiagonal::C8H3
        } else if n == 10 {
            AntiDiagonal::D8H4
        } else if n == 11 {
            AntiDiagonal::E8H5
        } else if n == 12 {
            AntiDiagonal::F8H6
        } else if n == 13 {
            AntiDiagonal::G8H7
        } else {
            AntiDiagonal::H8H8
        }
    }

    pub fn index(self) -> (r: usize)
        ensures
            r == self.idx(),
    {
        match self {
            AntiDiagonal::A1A1 => 0,
            AntiDiagonal::B1A2 => 1,
            AntiDiagonal::C1A3 => 2,
            AntiDiagonal::D1A4 => 3,
            AntiDiagonal::E1A5 => 4,
            AntiDiagonal::F1A6 => 5,
            AntiDiagonal::G1A7 => 6,
            AntiDiagonal::H1A8 => 7,
            AntiDiagonal::B8H2 => 8,
            AntiDiagonal::C8H3 => 9,
            AntiDiagonal::D8H4 => 10,
            AntiDiagonal::E8H5 => 11,
            AntiDiagonal::F8H6 => 12,
            AntiDiagonal::G8H7 => 13,
            AntiDiagonal::H8H8 => 14,
        }
    }

    pub fn from_u8(n: u8) -> (r: AntiDiagonal)
        requires
            n < 15,
        ensures
            r.idx() == n,
            r == AntiDiagonal::from_idx(n as int),
    {
        match n {
            0 => AntiDiagonal::A1A1,
            1 => AntiDiagonal::B1A2,
            2 => AntiDiagonal::C1A3,
            3 => AntiDiagonal::D1A4,
            4 => AntiDiagonal::E1A5,
            5 => AntiDiagonal::F1A6,
            6 => AntiDiagonal::G1A7,
            7 => AntiDiagonal::H1A8,
            8 => AntiDiagonal::B8H2,
            9 => AntiDiagonal::C8H3,
            10 => AntiDiagonal::D8H4,
            11 => AntiDiagonal::E8H5,
            12 => AntiDiagonal::F8H6,
            13 => AntiDiagonal::G8H7,
            _ => AntiDiagonal::H8H8,
        }
    }

}

/// A step on the board, by its offset in square numbers.
#[derive(Clone, Copy, PartialEq, Eq, Structural, Debug)]
pub enum Direction {
    NorthNorth, North, South, SouthSouth, East, West, NorthEast, NorthWest, SouthEast, SouthWest,
}

impl Direction {
    /// The change of square number that a step in this direction makes.
    pub open spec fn offset(self) -> int {
        match self {
            Direction::NorthNorth => 16,
            Direction::North => 8,
            Direction::South => -8,
            Direction::SouthSouth => -16,
            Direction::East => 1,
            Direction::West => -1,
            Direction::NorthEast => 9,
            Direction::NorthWest => 7,
            Direction::SouthEast => -7,
            Direction::SouthWest => -9,
        }
    }

    /// The direction with the given offset.
    pub open spec fn from_offset(n: int) -> Direction {
        if n == 16 {
            Direction::NorthNorth
        } else if n == 8 {
            Direction::North
        } else if n == -8 {
            Direction::South
        } else if n == -16 {
            Direction::SouthSouth
        } else if n == 1 {
            Direction::East
        } else if n == -1 {
            Direction::West
        } else if n == 9 {
            Direction::NorthEast
        } else if n == 7 {
            Direction::NorthWest
        } else if n == -7 {
            Direction::SouthEast
        } else {
            Direction::SouthWest
        }
    }

    pub fn offset_i8(self) -> (r: i8)
        ensures
            r == self.offset(),
    {
        match self {
            Direction::NorthNorth => 16,
            Direction::North => 8,
            Direction::South => -8,
            Direction::SouthSouth => -16,
            Direction::East => 1,
            Direction::West => -1,
            Direction::NorthEast => 9,
            Direction::NorthWest => 7,
            Direction::SouthEast => -7,
            Direction::SouthWest => -9,
        }
    }

    pub fn from_i8(n: i8) -> (r: Direction)
        requires
            n == 16 || n == 8 || n == -8 || n == -16 || n == 1 || n == -1 || n == 9 || n == 7 || n == -7 || n == -9,
        ensures
            r.offset() == n,
    {
        match n {
            16 => Direction::NorthNorth,
            8 => Direction::North,
            -8 => Direction::South,
            -16 => Direction::SouthSouth,
            1 => Direction::East,
            -1 => Direction::West,
            9 => Direction::NorthEast,
            7 => Direction::NorthWest,
            -7 => Direction::SouthEast,
            _ => Direction::SouthWest,
        }
    }
}


impl SQ {
    /// The rank number (0 to 7) of this square.
    pub open spec fn rank_idx(self) -> int {
        self.idx() / 8
    }

    /// The file number (0 to 7) of this square.
    pub open spec fn file_idx(self) -> int {
        self.idx() % 8
    }

    /// The square on `rank` and `file`.
    pub fn encode(rank: Rank, file: File) -> (r: SQ)
        ensures
            r.idx() == 8 * rank.idx() + file.idx(),
    {
        let rk = rank.index() as u8;
        let fl = file.index() as u8;
        assert(rk < 8 && fl < 8 ==> (rk << 3u8) + fl == 8 * rk + fl && 8 * rk + fl < 64)
            by (bit_vector);
        SQ::from_u8((rk << 3) + fl)
    }

    /// The set that holds this square alone.
    pub fn bb(self) -> (r: Bitboard)
        ensures
            r.0 == 1u64 << (self.idx() as u64),
            forall|i: int| r.has(i) <==> i == self.idx(),
    {
        let k = self.index() as u64;
        proof {
            broadcast use crate::bitboard::lemma_bit_single;

        }
        Bitboard(1u64 << k)
    }

    /// The rank of this square.
    pub fn rank(self) -> (r: Rank)
        ensures
            r.idx() == self.idx() / 8,
    {
        let n = self.index() as u8;
        proof {
            lemma_square_bits(n);
        }
        Rank::from_u8(n >> 3)
    }

    /// The file of this square.
    pub fn file(self) -> (r: File)
        ensures
            r.idx() == self.idx() % 8,
    {
        let n = self.index() as u8;
        proof {
            lemma_square_bits(n);
        }
        File::from_u8(n & 7)
    }

    /// The diagonal (towards H8) through this square.
    pub fn diagonal(self) -> (r: Diagonal)
        ensures
            r.idx() == 7 + self.idx() / 8 - self.idx() % 8,
    {
        let value = self.index() as u8;
        proof {
            lemma_square_bits(value);
        }
        Diagonal::from_u8(7 + (value >> 3) - (value & 7))
    }

    /// The diagonal (towards A8) through this square.
    pub fn antidiagonal(self) -> (r: AntiDiagonal)
        ensures
            r.idx() == self.idx() / 8 + self.idx() % 8,
    {
        let value = self.index() as u8;
        proof {
            lemma_square_bits(value);
        }
        AntiDiagonal::from_u8((value >> 3) + (value & 7))
    }

    /// The square on the same rank and the file seen from the other wing.
    pub fn hmirror(self) -> (r: SQ)
        ensures
            r.idx() == 8 * (self.idx() / 8) + 7 - self.idx() % 8,
    {
        let value = self.index() as u8;
        SQ::from_u8(value - value % 8 + (7 - value % 8))
    }

    /// The square on the same file and the rank seen from the other side.
    pub fn mirror(self) -> (r: SQ)
        ensures
            r.idx() == 8 * (7 - self.idx() / 8) + self.idx() % 8,
    {
        let value = self.index() as u8;
        proof {
            lemma_square_bits(value);
        }
        SQ::from_u8(value ^ 0x38)
    }

    /// The square on the same file and the rank seen from the other side, as `mirror` gives.
    pub fn square_mirror(self) -> (r: SQ)
        ensures
            r.idx() == 8 * (7 - self.idx() / 8) + self.idx() % 8,
    {
        self.mirror()
    }

    /// The squares on the ranks in front of this square, as seen by side `color`.
    pub fn forward_ranks_bb(self, color: Color) -> (r: Bitboard)
        ensures
            forall|i: int| r.has(i) == (0 <= i < 64 && (if color == Color::White {
                i / 8 > self.idx() / 8
            } else {
                i / 8 < self.idx() / 8
            })),
    {
        let rank = (self.index() / 8) as u64;
        let white = match color {
            Color::White => true,
            Color::Black => false,
        };
        let mut x: u64 = 0;
        let mut s: u64 = 0;
        assert forall|t: int| 0 <= t < 64 implies !bit(x, t) by {
            crate::bitboard::lemma_bit_zero(t);
        }
        while s < 64
            invariant
                s <= 64,
                rank == self.idx() / 8,
                white == (color == Color::White),
                forall|t: int| 0 <= t < s ==> (bit(x, t) <==> (if white { t / 8 > rank } else { t / 8 < rank })),
                forall|t: int| s <= t < 64 ==> !bit(x, t),
            decreases 64 - s,
        {
            proof {
                broadcast use crate::bitboard::lemma_bit_or, crate::bitboard::lemma_bit_single;
            }
            if (white && s / 8 > rank) || (!white && s / 8 < rank) {
                x = x | (1u64 << s);
            }
            s = s + 1;
        }
        proof {
            crate::bitboard::lemma_bit_outside(x);
        }
        Bitboard(x)
    }

    /// The squares of this square's file in front of it, as seen by side `color`.
    pub fn forward_files_bb(self, color: Color) -> (r: Bitboard)
        ensures
            forall|i: int| r.has(i) == (0 <= i < 64 && i % 8 == self.idx() % 8 && (if color == Color::White {
                i / 8 > self.idx() / 8
            } else {
                i / 8 < self.idx() / 8
            })),
    {
        let f = self.file().bb();
        let fr = self.forward_ranks_bb(color);
        let r = Bitboard(f.0 & fr.0);
        assert forall|i: int| r.has(i) == (0 <= i < 64 && i % 8 == self.idx() % 8 && (if color == Color::White {
            i / 8 > self.idx() / 8
        } else {
            i / 8 < self.idx() / 8
        })) by {
            crate::bitboard::lemma_bit_and(f.0, fr.0, i);
            assert(bit(f.0, i) <==> 0 <= i < 64 && i % 8 == self.idx() % 8);
            assert(fr.has(i) == (0 <= i < 64 && (if color == Color::White {
                i / 8 > self.idx() / 8
            } else {
                i / 8 < self.idx() / 8
            })));
        }
        r
    }

    /// This square seen from the side `c`.
    pub fn relative(self, c: Color) -> (r: SQ)
        ensures
            c == Color::White ==> r == self,
            c == Color::Black ==> r.idx() == 8 * (7 - self.idx() / 8) + self.idx() % 8,
    {
        match c {
            Color::White => self,
            Color::Black => self.mirror(),
        }
    }

    /// The squares from `start` to `end`, both included, in order.
    pub fn iter(start: SQ, end: SQ) -> (r: Vec<SQ>)
        ensures
            r@.len() == (if start.idx() <= end.idx() { end.idx() - start.idx() + 1 } else { 0 }),
            forall|k: int| 0 <= k < r@.len() ==> (#[trigger] r@[k]).idx() == start.idx() + k,
    {
        let mut v: Vec<SQ> = Vec::new();
        let s = start.index();
        let e = end.index();
        if s > e {
            return v;
        }
        let mut n = s;
        while n <= e
            invariant
                s <= n <= e + 1,
                e < 64,
                s == start.idx(),
                e == end.idx(),
                v@.len() == n - s,
                forall|k: int| 0 <= k < v@.len() ==> (#[trigger] v@[k]).idx() == s + k,
            decreases e + 1 - n,
        {
            v.push(SQ::from_u8(n as u8));
            n = n + 1;
        }
        v
    }

    /// The square one step from this one in the direction `dir`, by square numbers.
    pub fn add_dir(self, dir: Direction) -> (r: SQ)
        requires
            0 <= self.idx() + dir.offset() < 64,
        ensures
            r.idx() == self.idx() + dir.offset(),
    {
        let n = self.index() as i8 + dir.offset_i8();
        SQ::from_u8(n as u8)
    }

    /// The square one step back from this one against the direction `dir`.
    pub fn sub_dir(self, dir: Direction) -> (r: SQ)
        requires
            0 <= self.idx() - dir.offset() < 64,
        ensures
            r.idx() == self.idx() - dir.offset(),
    {
        let n = self.index() as i8 - dir.offset_i8();
        SQ::from_u8(n as u8)
    }

    /// The file letter and the rank digit that name this square.
    pub fn to_chars(self) -> (r: (char, char))
        ensures
            r.0 as int == 97 + self.idx() % 8,
            r.1 as int == 49 + self.idx() / 8,
    {
        (self.file().to_char(), self.rank().to_char())
    }

    /// Reads a square from its name, a file letter followed by a rank number.
    pub fn try_from_str(value: &str) -> (r: Result<SQ, &'static str>)
        requires
            !(value@.len() == 1 && value.spec_bytes().len() == 2),
        ensures
            r matches Ok(sq) ==> value.spec_bytes().len() == 2 && value.spec_bytes()[0] == 97 + sq.idx() % 8
                && unsigned_text_value(value.spec_bytes().subrange(1, 2)) == Some((sq.idx() / 8 + 1) as nat),
            r is Err <==> !(value.spec_bytes().len() == 2 && 97 <= value.spec_bytes()[0] <= 104 && (
            unsigned_text_value(value.spec_bytes().subrange(1, 2)) matches Some(n) && 1 <= n <= 8)),
    {
        let bytes = value.as_bytes();
        if bytes.len() != 2 {
            return Err("Invalid square.");
        }
        let ch = bytes[0];
        if !(97 <= ch && ch <= 104) {
            return Err("Invalid file.");
        }
        let file = File::from_u8(ch - 97);
        let d = bytes[1];
        assert(bytes@.subrange(1, 2) =~= seq![d]);
        assert(seq![d].drop_last() =~= Seq::<u8>::empty());
        assert(is_digit(d) ==> digits_value(seq![d]) == d - 48) by {
            assert(digits_value(Seq::<u8>::empty()) == 0);
        }
        if 49 <= d && d <= 56 {
            assert(all_digits(seq![d]));
            let rank = Rank::from_u8(d - 49);
            Ok(SQ::encode(rank, file))
        } else {
            assert(seq![d].drop_first() =~= Seq::<u8>::empty());
            Err("Invalid rank.")
        }
    }
}

impl Direction {
    /// This direction seen from the side `c`: for Black, north and south swap.
    pub fn relative(self, c: Color) -> (r: Direction)
        ensures
            c == Color::White ==> r == self,
            c == Color::Black ==> r.offset() == -self.offset(),
    {
        match c {
            Color::White => self,
            Color::Black => Direction::from_i8(-self.offset_i8()),
        }
    }
}

impl File {
    /// The squares of this file.
    pub fn bb(self) -> (r: Bitboard)
        ensures
            r.0 == 0x0101_0101_0101_0101u64 << (self.idx() as u64),
            forall|i: int| bit(r.0, i) <==> 0 <= i < 64 && i % 8 == self.idx(),
    {
        let k = self.index() as u64;
        let r = Bitboard(0x0101_0101_0101_0101u64 << k);
        proof {
            assert forall|i: int| bit(r.0, i) <==> 0 <= i < 64 && i % 8 == self.idx() by {
                if 0 <= i < 64 {
                    let j = i as u64;
                    assert(((0x0101_0101_0101_0101u64 << k) >> j) & 1u64 == 1u64 <==> j % 8 == k)
                        by (bit_vector)
                        requires
                            k < 8,
                            j < 64,
                    ;
                }
            }
        }
        r
    }

    /// The letter that names this file.
    pub fn to_char(self) -> (r: char)
        ensures
            r as int == 97 + self.idx(),
    {
        match self {
            File::A => 'a',
            File::B => 'b',
            File::C => 'c',
            File::D => 'd',
            File::E => 'e',
            File::F => 'f',
            File::G => 'g',
            File::H => 'h',
        }
    }

    /// Reads a file from its letter.
    pub fn try_from_str(value: &str) -> (r: Result<File, &'static str>)
        ensures
            r matches Ok(f) ==> value.spec_bytes() == seq![(97 + f.idx()) as u8],
            r is Err <==> !(value.spec_bytes().len() == 1 && 97 <= value.spec_bytes()[0] <= 104),
    {
        let bytes = value.as_bytes();
        if bytes.len() != 1 {
            return Err("Invalid file.");
        }
        let ch = bytes[0];
        if 97 <= ch && ch <= 104 {
            assert(bytes@ =~= seq![ch]);
            Ok(File::from_u8(ch - 97))
        } else {
            Err("Invalid file.")
        }
    }
}

/// The squares `i` with `7 + rank - file == d`.
pub open spec fn on_diagonal(i: int, d: int) -> bool {
    0 <= i < 64 && 7 + i / 8 - i % 8 == d
}

/// The squares `i` with `rank + file == a`.
pub open spec fn on_antidiagonal(i: int, a: int) -> bool {
    0 <= i < 64 && i / 8 + i % 8 == a
}

impl Diagonal {
    /// The squares of this diagonal.
    pub fn bb(self) -> (r: Bitboard)
        ensures
            forall|i: int| bit(r.0, i) <==> on_diagonal(i, self.idx()),
    {
        let d = self.index() as u64;
        let x: u64 = if d >= 7 {
            0x8040_2010_0804_0201u64 << (8 * (d - 7))
        } else {
            0x8040_2010_0804_0201u64 >> (8 * (7 - d))
        };
        proof {
            assert forall|i: int| bit(x, i) <==> on_diagonal(i, self.idx()) by {
                if 0 <= i < 64 {
                    let j = i as u64;
                    assert(((x >> j) & 1u64 == 1u64) <==> 7 + j / 8 - j % 8 == d) by (bit_vector)
                        requires
                            d < 15,
                            j < 64,
                            x == (if d >= 7 {
                                0x8040_2010_0804_0201u64 << (8 * (d - 7)) as u64
                            } else {
                                0x8040_2010_0804_0201u64 >> (8 * (7 - d)) as u64
                            }),
                    ;
                }
            }
        }
        Bitboard(x)
    }
}

impl AntiDiagonal {
    /// The squares of this diagonal.
    pub fn bb(self) -> (r: Bitboard)
        ensures
            forall|i: int| bit(r.0, i) <==> on_antidiagonal(i, self.idx()),
    {
        let a = self.index() as u64;
        let x: u64 = if a >= 7 {
            0x0102_0408_1020_4080u64 << (8 * (a - 7))
        } else {
            0x0102_0408_1020_4080u64 >> (8 * (7 - a))
        };
        proof {
            assert forall|i: int| bit(x, i) <==> on_antidiagonal(i, self.idx()) by {
                if 0 <= i < 64 {
                    let j = i as u64;
                    assert(((x >> j) & 1u64 == 1u64) <==> j / 8 + j % 8 == a) by (bit_vector)
                        requires
                            a < 15,
                            j < 64,
                            x == (if a >= 7 {
                                0x0102_0408_1020_4080u64 << (8 * (a - 7)) as u64
                            } else {
                                0x0102_0408_1020_4080u64 >> (8 * (7 - a)) as u64
                            }),
                    ;
                }
            }
        }
        Bitboard(x)
    }
}

/// The rank and file of a square number, and its mirror, read from its bits.
proof fn lemma_square_bits(n: u8)
    by (bit_vector)
    ensures
        n < 64 ==> n >> 3u8 == n / 8,
        n & 7u8 == n % 8,
        n < 64 ==> n ^ 0x38u8 == 8 * (7 - n / 8) + n % 8,
{
}

} // verus!
