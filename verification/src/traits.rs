use vstd::prelude::*;
use crate::color::Color;

verus! {

/// Values that come in a mirrored pair, one for each side, such as pieces.
pub trait Relative: Copy + Sized {
    /// The value that belongs to the other side.
    spec fn mirrored(&self) -> Self;

    fn vmirror(&self) -> (r: Self)
        ensures
            r == self.mirrored(),
    ;

    /// The value as seen by `color`: itself for White, its mirror for Black.
    fn relative(&self, color: Color) -> (r: Self)
        ensures
            color == Color::White ==> r == *self,
            color == Color::Black ==> r == self.mirrored(),
    {
        match color {
            Color::White => *self,
            Color::Black => self.vmirror(),
        }
    }
}

/// Values numbered densely from 0, so that they can index a table.
pub trait Enumerable: Sized {
    /// How many values there are.
    spec fn count() -> nat;

    /// The number of this value, below `count()`.
    spec fn dense_index(&self) -> int;

    fn from_repr(n: u8) -> (r: Self)
        requires
            (n as nat) < Self::count(),
        ensures
            r.dense_index() == n,
    ;

    fn index(&self) -> (r: usize)
        ensures
            r == self.dense_index(),
            r < Self::count(),
    ;
}

} // verus!
