use vstd::prelude::*;
use crate::bitboard::{squares_of, Bitboard};
use crate::moov::{move_code, Move, MoveFlags};
use crate::board::Board;
use crate::square::SQ;

verus! {

/// The most moves a position of chess can have, rounded up.
pub const MAX_MOVES: usize = 252;

/// Whether `m` is the move from square `from` to square `to` of the kind coded `flag`.
pub open spec fn is_move(m: Move, from: int, to: int, flag: int) -> bool {
    m.from_idx() == from && m.to_idx() == to && m.flag_code() == flag
}

/// The codes of the promotion kinds, in the order they are generated: queen, knight, rook,
/// bishop; those of capturing promotions when `capture` holds.
pub open spec fn promotion_code(j: int, capture: bool) -> int {
    (if capture { 12int } else { 8 }) + if j == 0 {
        3int
    } else if j == 1 {
        0
    } else if j == 2 {
        2
    } else {
        1
    }
}

/// A list of moves. It grows as needed: a list of fixed capacity would fail on the push past
/// its end, and no contract here bounds how many moves a position yields.
pub struct MoveList(Vec<Move>);

impl View for MoveList {
    type V = Seq<Move>;

    closed spec fn view(&self) -> Seq<Move> {
        self.0@
    }
}

impl MoveList {
    /// The empty list.
    pub fn new() -> (r: MoveList)
        ensures
            r@ == Seq::<Move>::empty(),
    {
        MoveList(Vec::new())
    }

    /// The legal moves of `board`, or in quiescence its captures and promotions.
    pub fn from<const QUIESCENCE: bool>(board: &Board) -> (r: MoveList)
        requires
            board.wf(),
            board.has_king(board.side()),
            board.has_king(board.side().other()),
        ensures
            board.appended_ok(Seq::empty(), r@, QUIESCENCE),
            !QUIESCENCE ==> forall|t: int| #[trigger] board.safe_king_step(t) ==> exists|i: int|
                0 <= i < r@.len() && is_move(r@[i], board.lowest_king(board.side()), t, board.step_flag(t)),
            forall|f: int| #[trigger] board.ep_owed(f) ==> exists|j: int|
                0 <= j < r@.len() && is_move(r@[j], f, board.current().epsq->0.idx(), 5),
    {
        let mut moves = MoveList::new();
        board.generate_legal_moves::<QUIESCENCE>(&mut moves);
        moves
    }

    /// The number of moves.
    pub fn len(&self) -> (r: usize)
        ensures
            r == self@.len(),
    {
        self.0.len()
    }

    /// Appends `m`.
    pub fn push(&mut self, m: Move)
        ensures
            final(self)@ == old(self)@.push(m),
    {
        self.0.push(m);
    }

    /// The move at `i`, if there is one.
    pub fn get(&self, i: usize) -> (r: Option<&Move>)
        ensures
            r == (if i < self@.len() { Some(&self@[i as int]) } else { None }),
    {
        if i < self.0.len() {
            Some(&self.0[i])
        } else {
            None
        }
    }

    /// Whether the list holds `m`.
    pub fn contains(&self, m: Move) -> (r: bool)
        ensures
            r == self@.contains(m),
    {
        let mut i: usize = 0;
        while i < self.0.len()
            invariant
                i <= self@.len(),
                forall|k: int| 0 <= k < i ==> self@[k] != m,
            decreases self@.len() - i,
        {
            if self.0[i] == m {
                assert(self@[i as int] == m);
                return true;
            }
            i = i + 1;
        }
        false
    }

    /// Exchanges the moves at `i` and `j`.
    pub fn swap(&mut self, i: usize, j: usize)
        requires
            i < old(self)@.len(),
            j < old(self)@.len(),
        ensures
            final(self)@ == old(self)@.update(i as int, old(self)@[j as int]).update(j as int, old(self)@[i as int]),
    {
        let a = self.0[i];
        let b = self.0[j];
        self.0.set(i, b);
        self.0.set(j, a);
    }

    /// Appends, for each square of `to` from the lowest, the move from `from_sq` to it of the
    /// kind `flag`.
    fn push_all(&mut self, from_sq: SQ, to: Bitboard, flag: MoveFlags)
        requires
            flag != MoveFlags::Quiet || from_sq.idx() != 0 || !to.has(0),
        ensures
            final(self)@.len() == old(self)@.len() + squares_of(to.0).len(),
            final(self)@.subrange(0, old(self)@.len() as int) == old(self)@,
            forall|k: int| 0 <= k < squares_of(to.0).len() ==> is_move(
                #[trigger] final(self)@[old(self)@.len() + k],
                from_sq.idx(),
                squares_of(to.0)[k],
                flag.code(),
            ),
    {
        let sqs = to.squares();
        let ghost n0 = self@.len();
        let mut i: usize = 0;
        while i < sqs.len()
            invariant
                i <= sqs@.len(),
                sqs@.len() == squares_of(to.0).len(),
                forall|k: int| 0 <= k < sqs@.len() ==> (#[trigger] sqs@[k]).idx() == squares_of(to.0)[k],
                forall|k: int| 0 <= k < sqs@.len() ==> to.has((#[trigger] sqs@[k]).idx()),
                flag != MoveFlags::Quiet || from_sq.idx() != 0 || !to.has(0),
                self@.len() == n0 + i,
                self@.subrange(0, n0 as int) == old(self)@,
                n0 == old(self)@.len(),
                forall|k: int| 0 <= k < i ==> is_move(#[trigger] self@[n0 + k], from_sq.idx(), squares_of(to.0)[k], flag.code()),
            decreases sqs@.len() - i,
        {
            let to_sq = sqs[i];
            assert(to.has(to_sq.idx()));
            let m = Move::new(from_sq, to_sq, flag);
            let ghost before = self@;
            self.0.push(m);
            assert(self@.subrange(0, n0 as int) =~= before.subrange(0, n0 as int));
            assert forall|k: int| 0 <= k < i + 1 implies is_move(#[trigger] self@[n0 + k], from_sq.idx(), squares_of(to.0)[k], flag.code()) by {
                if k < i {
                    assert(self@[n0 + k] == before[n0 + k]);
                }
            }
            i = i + 1;
        }
    }

    /// Appends the quiet moves from `from_sq` to the squares of `to`.
    pub fn make_q(&mut self, from_sq: SQ, to: Bitboard)
        requires
            from_sq.idx() != 0 || !to.has(0),
        ensures
            final(self)@.len() == old(self)@.len() + squares_of(to.0).len(),
            final(self)@.subrange(0, old(self)@.len() as int) == old(self)@,
            forall|k: int| 0 <= k < squares_of(to.0).len() ==> is_move(
                #[trigger] final(self)@[old(self)@.len() + k],
                from_sq.idx(),
                squares_of(to.0)[k],
                0,
            ),
    {
        self.push_all(from_sq, to, MoveFlags::Quiet);
    }

    /// Appends the captures from `from_sq` to the squares of `to`.
    pub fn make_c(&mut self, from_sq: SQ, to: Bitboard)
        ensures
            final(self)@.len() == old(self)@.len() + squares_of(to.0).len(),
            final(self)@.subrange(0, old(self)@.len() as int) == old(self)@,
            forall|k: int| 0 <= k < squares_of(to.0).len() ==> is_move(
                #[trigger] final(self)@[old(self)@.len() + k],
                from_sq.idx(),
                squares_of(to.0)[k],
                4,
            ),
    {
        self.push_all(from_sq, to, MoveFlags::Capture);
    }

    /// Appends the double pawn pushes from `from_sq` to the squares of `to`.
    pub fn make_dp(&mut self, from_sq: SQ, to: Bitboard)
        ensures
            final(self)@.len() == old(self)@.len() + squares_of(to.0).len(),
            final(self)@.subrange(0, old(self)@.len() as int) == old(self)@,
            forall|k: int| 0 <= k < squares_of(to.0).len() ==> is_move(
                #[trigger] final(self)@[old(self)@.len() + k],
                from_sq.idx(),
                squares_of(to.0)[k],
                1,
            ),
    {
        self.push_all(from_sq, to, MoveFlags::DoublePush);
    }

    /// Appends the four promotions from `from_sq` to `to_sq`, queen, knight, rook and bishop,
    /// capturing when `capture` holds; in quiescence only the queen.
    pub fn make_promotions<const QUIESCENCE: bool>(&mut self, from_sq: SQ, to_sq: SQ, capture: bool)
        ensures
            final(self)@.len() == old(self)@.len() + if QUIESCENCE { 1int } else { 4 },
            final(self)@.subrange(0, old(self)@.len() as int) == old(self)@,
            forall|j: int| 0 <= j < (if QUIESCENCE { 1int } else { 4 }) ==> is_move(
                #[trigger] final(self)@[old(self)@.len() + j],
                from_sq.idx(),
                to_sq.idx(),
                promotion_code(j, capture),
            ),
    {
        let ghost n0 = self@.len();
        let (q, n, r, b) = if capture {
            (MoveFlags::PcQueen, MoveFlags::PcKnight, MoveFlags::PcRook, MoveFlags::PcBishop)
        } else {
            (MoveFlags::PrQueen, MoveFlags::PrKnight, MoveFlags::PrRook, MoveFlags::PrBishop)
        };
        self.0.push(Move::new(from_sq, to_sq, q));
        if !QUIESCENCE {
            self.0.push(Move::new(from_sq, to_sq, n));
            self.0.push(Move::new(from_sq, to_sq, r));
            self.0.push(Move::new(from_sq, to_sq, b));
        }
        assert(self@.subrange(0, n0 as int) =~= old(self)@);
    }

    /// Appends the four capturing promotions from `from_sq` to each square of `to`.
    pub fn make_pc(&mut self, from_sq: SQ, to: Bitboard)
        ensures
            final(self)@.len() == old(self)@.len() + 4 * squares_of(to.0).len(),
            final(self)@.subrange(0, old(self)@.len() as int) == old(self)@,
            forall|k: int, j: int| 0 <= k < squares_of(to.0).len() && 0 <= j < 4 ==> is_move(
                #[trigger] final(self)@[old(self)@.len() + 4 * k + j],
                from_sq.idx(),
                squares_of(to.0)[k],
                promotion_code(j, true),
            ),
    {
        let sqs = to.squares();
        let ghost n0 = self@.len();
        let mut i: usize = 0;
        while i < sqs.len()
            invariant
                i <= sqs@.len(),
                sqs@.len() == squares_of(to.0).len(),
                forall|k: int| 0 <= k < sqs@.len() ==> (#[trigger] sqs@[k]).idx() == squares_of(to.0)[k],
                self@.len() == n0 + 4 * i,
                self@.subrange(0, n0 as int) == old(self)@,
                n0 == old(self)@.len(),
                forall|k: int, j: int| 0 <= k < i && 0 <= j < 4 ==> is_move(
                    #[trigger] self@[n0 + 4 * k + j],
                    from_sq.idx(),
                    squares_of(to.0)[k],
                    promotion_code(j, true),
                ),
            decreases sqs@.len() - i,
        {
            let to_sq = sqs[i];
            let ghost before = self@;
            self.make_promotions::<false>(from_sq, to_sq, true);
            assert(self@.subrange(0, n0 as int) =~= before.subrange(0, n0 as int));
            assert forall|k: int, j: int| 0 <= k < i + 1 && 0 <= j < 4 implies is_move(
                #[trigger] self@[n0 + 4 * k + j],
                from_sq.idx(),
                squares_of(to.0)[k],
                promotion_code(j, true),
            ) by {
                if k < i {
                    assert(self@[n0 + 4 * k + j] == before[n0 + 4 * k + j]);
                } else {
                    assert(self@[n0 + 4 * k + j] == self@[before.len() + j]);
                }
            }
            i = i + 1;
        }
    }
}

} // verus!
