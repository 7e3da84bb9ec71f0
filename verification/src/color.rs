use vstd::prelude::*;

verus! {

/// The side to move or the owner of a piece.
#[derive(Clone, Copy, PartialEq, Eq, Structural, Debug)]
pub enum Color {
    White,
    Black,
}

impl Color {
    pub const N_COLORS: usize = 2;

    /// White is 0, Black is 1.
    pub open spec fn idx(self) -> int {
        match self {
            Color::White => 0,
            Color::Black => 1,
        }
    }

    /// The other side.
    pub open spec fn other(self) -> Color {
        match self {
            Color::White => Color::Black,
            Color::Black => Color::White,
        }
    }

    pub fn index(self) -> (r: usize)
        ensures
            r == self.idx(),
    {
        match self {
            Color::White => 0,
            Color::Black => 1,
        }
    }

    /// The sign of this side's scores from White's point of view.
    pub fn factor(&self) -> (r: i32)
        ensures
            r == (if *self == Color::White { 1i32 } else { -1i32 }),
    {
        match *self {
            Color::White => 1,
            Color::Black => -1,
        }
    }

    pub fn from_u8(n: u8) -> (r: Color)
        requires
            n < 2,
        ensures
            r.idx() == n,
    {
        if n == 0 {
            Color::White
        } else {
            Color::Black
        }
    }

    /// Reads the side to move as FEN writes it.
    pub fn try_from_char(value: char) -> (r: Result<Color, &'static str>)
        ensures
            value == 'w' ==> r == Ok::<Color, &'static str>(Color::White),
            value == 'b' ==> r == Ok::<Color, &'static str>(Color::Black),
            r is Err <==> (value != 'w' && value != 'b'),
    {
        match value {
            'w' => Ok(Color::White),
            'b' => Ok(Color::Black),
            _ => Err("Color must be either 'w' or 'b'."),
        }
    }

    /// The letter that FEN uses for this side.
    pub fn to_char(self) -> (r: char)
        ensures
            r == (if self == Color::White { 'w' } else { 'b' }),
    {
        match self {
            Color::White => 'w',
            Color::Black => 'b',
        }
    }
}

impl core::ops::Not for Color {
    type Output = Color;

    fn not(self) -> (r: Color)
        ensures
            r == self.other(),
    {
        let n = self.index() as u8;
        assert(0u8 ^ 1u8 == 1u8 && 1u8 ^ 1u8 == 0u8) by (bit_vector);
        Color::from_u8(n ^ 1)
    }
}

impl vstd::std_specs::ops::NotSpecImpl for Color {
    open spec fn obeys_not_spec() -> bool {
        true
    }

    open spec fn not_req(self) -> bool {
        true
    }

    open spec fn not_spec(self) -> Color {
        self.other()
    }
}

} // verus!
