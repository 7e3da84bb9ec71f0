use vstd::prelude::*;

pub mod color;
pub mod piece;
pub mod undo_info;
pub mod zobrist;

verus! {

/// The largest distance from the root that searches reach.
pub const MAX_PLY: usize = 256;

/// The score of a mate at the root.
pub const MATE: i32 = 32000;

/// Whether a search value reports a forced mate: its size is at least half the mate score.
pub open spec fn is_checkmate_value(v: i32) -> bool {
    v >= 16000 || v <= -16000
}

/// Search values.
pub trait Score {
    spec fn spec_is_checkmate(&self) -> bool;

    /// Whether `abs` is defined on the value.
    spec fn has_abs(&self) -> bool;

    fn is_checkmate(&self) -> (r: bool)
        requires
            self.has_abs(),
        ensures
            r == self.spec_is_checkmate(),
    ;
}

impl Score for i32 {
    open spec fn spec_is_checkmate(&self) -> bool {
        is_checkmate_value(*self)
    }

    open spec fn has_abs(&self) -> bool {
        *self != i32::MIN
    }

    fn is_checkmate(&self) -> (r: bool) {
        let v = *self;
        let a = if v < 0 {
            -v
        } else {
            v
        };
        assert(MATE >> 1u32 == 16000i32) by (bit_vector);
        a >= MATE >> 1
    }
}

} // verus!
