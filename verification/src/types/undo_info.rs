use vstd::prelude::*;
use crate::bitboard::Bitboard;
use crate::moov::{valid_move_int, Move};
use crate::square::SQ;
use crate::types::piece::Piece;

verus! {

/// What a move changes on the board that it cannot give back by itself: the bitboard of
/// squares whose pieces have moved, the captured piece, the en passant square, the move,
/// the material hash, and the two move counters.
#[derive(Clone, Copy, Debug)]
pub struct UndoInfo {
    entry: Bitboard,
    captured: Piece,
    epsq: Option<SQ>,
    moov: u16,
    material_hash: Bitboard,
    half_move_counter: u16,
    plies_from_null: u16,
}

impl UndoInfo {
    pub closed spec fn entry_spec(&self) -> Bitboard {
        self.entry
    }

    pub closed spec fn captured_spec(&self) -> Piece {
        self.captured
    }

    pub closed spec fn epsq_spec(&self) -> Option<SQ> {
        self.epsq
    }

    /// The code of the move, 0 for none.
    pub closed spec fn move_code(&self) -> u16 {
        self.moov
    }

    pub closed spec fn material_spec(&self) -> Bitboard {
        self.material_hash
    }

    pub closed spec fn half_moves(&self) -> u16 {
        self.half_move_counter
    }

    pub closed spec fn plies_null(&self) -> u16 {
        self.plies_from_null
    }

    /// The record of the move `m`.
    pub fn new(
        entry: Bitboard,
        m: Move,
        half_move_counter: u16,
        plies_from_null: u16,
        captured: Piece,
        epsq: Option<SQ>,
        material_hash: Bitboard,
    ) -> (r: UndoInfo)
        ensures
            r.entry_spec() == entry,
            r.move_code() == m.code_int(),
            r.half_moves() == half_move_counter,
            r.plies_null() == plies_from_null,
            r.captured_spec() == captured,
            r.epsq_spec() == epsq,
            r.material_spec() == material_hash,
    {
        UndoInfo { entry, moov: m.move_int(), half_move_counter, plies_from_null, captured, epsq, material_hash }
    }

    pub fn entry(&self) -> (r: Bitboard)
        ensures
            r == self.entry_spec(),
    {
        self.entry
    }

    /// The move, if one was recorded.
    pub fn moov(&self) -> (r: Option<Move>)
        ensures
            self.move_code() == 0 ==> r is None,
            self.move_code() != 0 && valid_move_int(self.move_code()) ==> (r matches Some(m) && m.code_int() == self.move_code()),
    {
        let f = self.moov / 4096;
        if self.moov != 0 && f != 6 && f != 7 {
            Some(Move::from_int(self.moov))
        } else {
            None
        }
    }

    pub fn captured(&self) -> (r: Piece)
        ensures
            r == self.captured_spec(),
    {
        self.captured
    }

    pub fn epsq(&self) -> (r: Option<SQ>)
        ensures
            r == self.epsq_spec(),
    {
        self.epsq
    }

    pub fn half_move_counter(&self) -> (r: u16)
        ensures
            r == self.half_moves(),
    {
        self.half_move_counter
    }

    pub fn plies_from_null(&self) -> (r: u16)
        ensures
            r == self.plies_null(),
    {
        self.plies_from_null
    }

    pub fn material_hash(&self) -> (r: Bitboard)
        ensures
            r == self.material_spec(),
    {
        self.material_hash
    }

    pub fn set_captured(&mut self, pc: Piece)
        ensures
            final(self).captured_spec() == pc,
            final(self).entry_spec() == old(self).entry_spec(),
            final(self).epsq_spec() == old(self).epsq_spec(),
            final(self).move_code() == old(self).move_code(),
            final(self).material_spec() == old(self).material_spec(),
            final(self).half_moves() == old(self).half_moves(),
            final(self).plies_null() == old(self).plies_null(),
    {
        self.captured = pc;
    }

    pub fn set_epsq(&mut self, sq: Option<SQ>)
        ensures
            final(self).epsq_spec() == sq,
            final(self).entry_spec() == old(self).entry_spec(),
            final(self).captured_spec() == old(self).captured_spec(),
            final(self).move_code() == old(self).move_code(),
            final(self).material_spec() == old(self).material_spec(),
            final(self).half_moves() == old(self).half_moves(),
            final(self).plies_null() == old(self).plies_null(),
    {
        self.epsq = sq;
    }

    pub fn set_entry(&mut self, entry: Bitboard)
        ensures
            final(self).entry_spec() == entry,
            final(self).captured_spec() == old(self).captured_spec(),
            final(self).epsq_spec() == old(self).epsq_spec(),
            final(self).move_code() == old(self).move_code(),
            final(self).material_spec() == old(self).material_spec(),
            final(self).half_moves() == old(self).half_moves(),
            final(self).plies_null() == old(self).plies_null(),
    {
        self.entry = entry;
    }

    pub fn set_half_move_counter(&mut self, half_move_counter: u16)
        ensures
            final(self).half_moves() == half_move_counter,
            final(self).entry_spec() == old(self).entry_spec(),
            final(self).captured_spec() == old(self).captured_spec(),
            final(self).epsq_spec() == old(self).epsq_spec(),
            final(self).move_code() == old(self).move_code(),
            final(self).material_spec() == old(self).material_spec(),
            final(self).plies_null() == old(self).plies_null(),
    {
        self.half_move_counter = half_move_counter;
    }

    pub fn set_material_hash(&mut self, material_hash: Bitboard)
        ensures
            final(self).material_spec() == material_hash,
            final(self).entry_spec() == old(self).entry_spec(),
            final(self).captured_spec() == old(self).captured_spec(),
            final(self).epsq_spec() == old(self).epsq_spec(),
            final(self).move_code() == old(self).move_code(),
            final(self).half_moves() == old(self).half_moves(),
            final(self).plies_null() == old(self).plies_null(),
    {
        self.material_hash = material_hash;
    }
}

impl Default for UndoInfo {
    /// An empty record: no move, no capture, no en passant square, everything zero.
    fn default() -> (r: UndoInfo)
        ensures
            r.entry_spec() == Bitboard(0),
            r.move_code() == 0,
            r.captured_spec() == Piece::NoPiece,
            r.epsq_spec() is None,
            r.material_spec() == Bitboard(0),
            r.half_moves() == 0,
            r.plies_null() == 0,
    {
        UndoInfo {
            entry: Bitboard(0),
            captured: Piece::NoPiece,
            epsq: None,
            moov: 0,
            material_hash: Bitboard(0),
            half_move_counter: 0,
            plies_from_null: 0,
        }
    }
}

} // verus!
