use vstd::prelude::*;
use crate::bitboard::{bit, Bitboard};
use crate::color::Color;
use vstd::string::StringSliceAdditionalSpecFns;
use crate::parse::{all_digits, digits_to_u64, digits_value, is_digit, unsigned_text_value};

verus! {

/// A rank of the board, from One to Eight.
#[derive(Clone, Copy, PartialEq, Eq, Structural, Debug)]
pub enum Rank {
    One, Two, Three, Four, Five, Six, Seven, Eight,
}

impl Rank {
    pub const N_RANKS: usize = 8;

    /// Rank One is 0, rank Eight is 7.
    pub open spec fn idx(self) -> int {
        match self {
            Rank::One => 0,
            Rank::Two => 1,
            Rank::Three => 2,
            Rank::Four => 3,
            Rank::Five => 4,
            Rank::Six => 5,
            Rank::Seven => 6,
            Rank::Eight => 7,
        }
    }

    /// The value whose number is `n`.
    pub open spec fn from_idx(n: int) -> Rank {
        if n == 0 {
            Rank::One
        } else if n == 1 {
            Rank::Two
        } else if n == 2 {
            Rank::Three
        } else if n == 3 {
            Rank::Four
        } else if n == 4 {
            Rank::Five
        } else if n == 5 {
            Rank::Six
        } else if n == 6 {
            Rank::Seven
        } else {
            Rank::Eight
        }
    }

    pub fn index(self) -> (r: usize)
        ensures
            r == self.idx(),
    {
        match self {
            Rank::One => 0,
            Rank::Two => 1,
            Rank::Three => 2,
            Rank::Four => 3,
            Rank::Five => 4,
            Rank::Six => 5,
            Rank::Seven => 6,
            Rank::Eight => 7,
        }
    }

    pub fn from_u8(n: u8) -> (r: Rank)
        requires
            n < 8,
        ensures
            r.idx() == n,
            r == Rank::from_idx(n as int),
    {
        match n {
            0 => Rank::One,
            1 => Rank::Two,
            2 => Rank::Three,
            3 => Rank::Four,
            4 => Rank::Five,
            5 => Rank::Six,
            6 => Rank::Seven,
            _ => Rank::Eight,
        }
    }

}


impl Rank {
    /// The squares of this rank.
    pub fn bb(self) -> (r: Bitboard)
        ensures
            r.0 == 0xffu64 << ((8 * self.idx()) as u64),
            forall|i: int| bit(r.0, i) <==> 0 <= i < 64 && i / 8 == self.idx(),
    {
        let k = self.index() as u64;
        let r = Bitboard(0xffu64 << (8 * k));
        proof {
            assert forall|i: int| bit(r.0, i) <==> 0 <= i < 64 && i / 8 == self.idx() by {
                if 0 <= i < 64 {
                    let j = i as u64;
                    assert(((0xffu64 << (8 * k)) >> j) & 1u64 == 1u64 <==> j / 8 == k)
                        by (bit_vector)
                        requires
                            k < 8,
                            j < 64,
                    ;
                }
            }
        }
        r
    }

    /// This rank seen from the side `c`: ranks count from Black's side for Black.
    pub fn relative(self, c: Color) -> (r: Rank)
        ensures
            r.idx() == (if c == Color::White { self.idx() } else { 7 - self.idx() }),
    {
        let n = self.index() as u8;
        let m = c.index() as u8 * 7;
        assert(n < 8 ==> n ^ 0u8 == n && n ^ 7u8 == 7 - n && n ^ 7u8 < 8) by (bit_vector);
        Rank::from_u8(n ^ m)
    }

    /// The digit that names this rank.
    pub fn to_char(&self) -> (r: char)
        ensures
            r as int == 49 + self.idx(),
    {
        match *self {
            Rank::One => '1',
            Rank::Two => '2',
            Rank::Three => '3',
            Rank::Four => '4',
            Rank::Five => '5',
            Rank::Six => '6',
            Rank::Seven => '7',
            Rank::Eight => '8',
        }
    }

    /// Reads a rank as a number from 1 to 8, the way `str::parse` reads a `u8`.
    pub fn try_from_str(value: &str) -> (r: Result<Rank, &'static str>)
        ensures
            match unsigned_text_value(value.spec_bytes()) {
                Some(n) => if 1 <= n <= 8 {
                    r matches Ok(rank) && rank.idx() == n - 1
                } else {
                    r is Err
                },
                None => r is Err,
            },
    {
        let bytes = value.as_bytes();
        let len = bytes.len();
        let start: usize = if len > 0 && bytes[0] == 43 {
            1
        } else {
            0
        };
        let ghost body = if bytes@.len() > 0 && bytes@[0] == 43 {
            bytes@.drop_first()
        } else {
            bytes@
        };
        assert(body =~= bytes@.subrange(start as int, len as int));
        assert(unsigned_text_value(value.spec_bytes()) == if body.len() > 0 && all_digits(body) {
            Some(digits_value(body))
        } else {
            None
        });
        if start == len {
            return Err("Invalid rank.");
        }
        let mut i = start;
        while i < len
            invariant
                start <= i <= len == bytes@.len(),
                forall|k: int| start <= k < i ==> is_digit(#[trigger] bytes@[k]),
                body =~= bytes@.subrange(start as int, len as int),
                unsigned_text_value(value.spec_bytes()) == if body.len() > 0 && all_digits(body) {
                    Some(digits_value(body))
                } else {
                    None
                },
            decreases len - i,
        {
            if !(48 <= bytes[i] && bytes[i] <= 57) {
                proof {
                    assert(!is_digit(bytes@.subrange(start as int, len as int)[i - start]));
                }
                return Err("Invalid rank.");
            }
            i = i + 1;
        }
        assert(all_digits(bytes@.subrange(start as int, len as int)));
        match digits_to_u64(bytes, start, len) {
            Some(n) => {
                if n >= 1 && n <= 8 {
                    Ok(Rank::from_u8((n - 1) as u8))
                } else {
                    Err("Invalid rank.")
                }
            },
            None => Err("Invalid rank."),
        }
    }
}

} // verus!
