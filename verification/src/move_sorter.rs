use vstd::prelude::*;
use crate::board::Board;
use crate::color::Color;
use crate::moov::Move;
use crate::move_list::MoveList;
use crate::types::MAX_PLY;
use crate::piece::PieceType;
use crate::bitboard::{bit, popcount, Bitboard, lemma_popcount_clear_bit, lemma_zero_iff_no_bits, lemma_bit_and, lemma_bit_or, lemma_bit_xor, lemma_bit_single};
use crate::board::{type_on, color_on};
use crate::attacks::{bishop_sq, rook_sq, bishop_attacks, rook_attacks};
use core::ops::Not;

verus! {

broadcast use {lemma_bit_and, lemma_bit_or, lemma_bit_xor, lemma_bit_single};

/// The bound that history scores stay under: half of `i16::MAX`.
pub const HISTORY_MAX: i32 = 16383;

/// The score of the move the transposition table proposes.
pub const HASH_MOVE_SCORE: i32 = 1638300;

/// The bonus of a promotion.
pub const PROMOTION_SCORE: i32 = 819150;

/// The bonus of a capture that does not lose material, and the malus of one that does.
pub const CAPTURE_SCORE: i32 = 163830;

/// The score of a killer move.
pub const KILLER_MOVE_SCORE: i32 = 81915;

/// The score of the counter move to the last move.
pub const COUNTER_MOVE_SCORE: i32 = 49149;

/// The score of a castling move.
pub const CASTLING_SCORE: i32 = 32766;

/// The index of the history score of side `c` for moves from `from` to `to`.
pub open spec fn hist_idx(c: int, from: int, to: int) -> int {
    c * 4096 + from * 64 + to
}

/// The index of the counter move that answers a move from `from` to `to`.
pub open spec fn counter_idx(from: int, to: int) -> int {
    from * 64 + to
}

/// Whether the optional move `a` is the move `m`.
pub open spec fn is_move(a: Option<Move>, m: Move) -> bool {
    a == Some(m)
}

/// What the most valuable victim and least valuable attacker table gives a capture of a piece
/// of kind `victim` by one of kind `attacker`: 100 for each rank of the victim's kind, plus 5
/// less the attacker's kind.
pub open spec fn mvv_lva(victim: int, attacker: int) -> int {
    (victim + 1) * 100 + 5 - attacker
}

/// The material values that the exchange evaluation uses, by kind: pawn 100, knight and
/// bishop 375, rook 500, queen 1025, king 10000.
pub open spec fn see_value(t: int) -> int {
    if t == 0 {
        100
    } else if t == 1 || t == 2 {
        375
    } else if t == 3 {
        500
    } else if t == 4 {
        1025
    } else {
        10000
    }
}

/// `see_value`, computed.
pub fn see_piece_value(pt: PieceType) -> (r: i32)
    ensures
        r == see_value(pt.idx()),
{
    match pt {
        PieceType::Pawn => 100,
        PieceType::Knight => 375,
        PieceType::Bishop => 375,
        PieceType::Rook => 500,
        PieceType::Queen => 1025,
        PieceType::King => 10000,
    }
}

/// Whether `s` holds an attacker of side `c` that is still in the exchange: one of `att` on
/// a square of `occ`.
pub open spec fn live_attacker(b: Board, att: Set<int>, occ: u64, c: Color, s: int) -> bool {
    att.contains(s) && bit(occ, s) && color_on(b.squares(), s, c.idx())
}

/// The least kind, from `t` on, of a live attacker of side `c`, or 6 when there is none.
pub open spec fn least_kind_from(b: Board, att: Set<int>, occ: u64, c: Color, t: int) -> int
    decreases 6 - t,
{
    if t >= 6 || t < 0 {
        6
    } else if exists|s: int| #[trigger] live_attacker(b, att, occ, c, s) && type_on(b.squares(), s, t) {
        t
    } else {
        least_kind_from(b, att, occ, c, t + 1)
    }
}

/// The lowest square, from `k` on, of a live attacker of side `c` and kind `t`, or 64.
pub open spec fn lowest_from(b: Board, att: Set<int>, occ: u64, c: Color, t: int, k: int) -> int
    decreases 64 - k,
{
    if k >= 64 || k < 0 {
        64
    } else if live_attacker(b, att, occ, c, k) && type_on(b.squares(), k, t) {
        k
    } else {
        lowest_from(b, att, occ, c, t, k + 1)
    }
}

/// The attackers of `to` once a piece of kind `t` has left: the live ones, and the sliders
/// that now see `to` through the square it left, `occ2` being what stays occupied.
pub open spec fn next_attackers(b: Board, to: int, att: Set<int>, occ: u64, occ2: u64, t: int) -> Set<int> {
    Set::new(|s: int|
        (att.contains(s) && bit(occ, s)) || ((t == 0 || t == 2 || t == 4) && bishop_sq(to, occ2, s) && (type_on(
            b.squares(),
            s,
            2,
        ) || type_on(b.squares(), s, 4))) || ((t == 3 || t == 4) && rook_sq(to, occ2, s) && (type_on(
            b.squares(),
            s,
            3,
        ) || type_on(b.squares(), s, 4))))
}

/// The exchange on `to`, with side `c` to capture, `att` the attackers known so far, `occ`
/// the occupied squares, and `value` the balance so far from the side that moved last: each
/// side captures with its least valuable attacker, and the exchange stops when a side has no
/// attacker or is ahead whatever follows (a king does not capture into a defended square).
/// The result is the side that wins the exchange.
pub open spec fn see_swap(b: Board, to: int, occ: u64, att: Set<int>, c: Color, value: int) -> Color
    decreases popcount(occ),
{
    if !exists|s: int| #[trigger] live_attacker(b, att, occ, c, s) {
        c
    } else {
        let t = least_kind_from(b, att, occ, c, 0);
        let v = -value - 1 - see_value(t);
        if v >= 0 {
            if t == 5 && exists|s: int| #[trigger] live_attacker(b, att, occ, c.other(), s) {
                c
            } else {
                c.other()
            }
        } else {
            let sq = lowest_from(b, att, occ, c, t, 0);
            if 0 <= sq < 64 && bit(occ, sq) {
                let occ2 = occ ^ (1u64 << (sq as u64));
                proof {
                    lemma_popcount_clear_bit(occ, sq as u64);
                }
                see_swap(b, to, occ2, next_attackers(b, to, att, occ, occ2, t), c.other(), v)
            } else {
                c.other()
            }
        }
    }
}

/// The kind of what stands on `s`.
pub open spec fn kind_at(b: Board, s: int) -> int {
    b.squares()[s]->0.type_of_spec().idx()
}

/// Whether the move `m` does not lose material in the exchange it starts: a promotion, a
/// capture of a piece worth at least the capturer, or an exchange that the side of the
/// moving piece wins.
pub open spec fn see_spec(b: Board, m: Move) -> bool {
    if m.promotion_spec() is Some {
        true
    } else {
        let v = see_value(kind_at(b, m.to_idx())) - see_value(kind_at(b, m.from_idx()));
        if v >= 0 {
            true
        } else {
            let occ = b.occupancy() ^ (1u64 << (m.from_idx() as u64));
            see_swap(b, m.to_idx(), occ, Set::new(|s: int| b.attacker_spec(m.to_idx(), occ, s)), b.side().other(), v)
                != b.squares()[m.from_idx()]->0.color_of_spec()
        }
    }
}

/// A live attacker of kind `tt`, at or after `k`, bounds the least kind from `k`.
pub proof fn lemma_least_kind_le(b: Board, att: Set<int>, occ: u64, c: Color, k: int, s: int, tt: int)
    requires
        0 <= k <= tt < 6,
        live_attacker(b, att, occ, c, s),
        type_on(b.squares(), s, tt),
    ensures
        least_kind_from(b, att, occ, c, k) <= tt,
    decreases tt - k,
{
    if k < tt {
        if !exists|s2: int| #[trigger] live_attacker(b, att, occ, c, s2) && type_on(b.squares(), s2, k) {
            lemma_least_kind_le(b, att, occ, c, k + 1, s, tt);
        }
    }
}

/// The least kind from `t` is `t` when some live attacker has kind `t`, and is otherwise the
/// least kind from `t + 1`, which is at least `t + 1`.
pub proof fn lemma_least_kind_at(b: Board, att: Set<int>, occ: u64, c: Color, t: int)
    requires
        0 <= t <= 6,
    ensures
        least_kind_from(b, att, occ, c, t) >= t,
        t < 6 && (exists|s: int| #[trigger] live_attacker(b, att, occ, c, s) && type_on(b.squares(), s, t))
            ==> least_kind_from(b, att, occ, c, t) == t,
        t < 6 && !(exists|s: int| #[trigger] live_attacker(b, att, occ, c, s) && type_on(b.squares(), s, t))
            ==> least_kind_from(b, att, occ, c, t) == least_kind_from(b, att, occ, c, t + 1),
        least_kind_from(b, att, occ, c, t) == t && t < 6 ==> exists|s: int| #[trigger] live_attacker(b, att, occ, c, s) && type_on(b.squares(), s, t),
    decreases 6 - t,
{
    if t < 6 {
        lemma_least_kind_at(b, att, occ, c, t + 1);
    }
}

/// The lowest square from `k` on is `sq` when no square from `k` up to `sq` qualifies and
/// `sq` does.
pub proof fn lemma_lowest_from(b: Board, att: Set<int>, occ: u64, c: Color, t: int, k: int, sq: int)
    requires
        0 <= k <= sq < 64,
        live_attacker(b, att, occ, c, sq) && type_on(b.squares(), sq, t),
        forall|j: int| k <= j < sq ==> !(#[trigger] live_attacker(b, att, occ, c, j) && type_on(b.squares(), j, t)),
    ensures
        lowest_from(b, att, occ, c, t, k) == sq,
    decreases sq - k,
{
    if k < sq {
        assert(!(live_attacker(b, att, occ, c, k) && type_on(b.squares(), k, t)));
        lemma_lowest_from(b, att, occ, c, t, k + 1, sq);
    }
}

/// Whether scoring the move `m` on `b` reads the pieces at its ends: a capture other than en
/// passant, and not a move the table proposes or a quiet move.
pub open spec fn scores_capture(m: Move, hash_move: Option<Move>) -> bool {
    hash_move != Some(m) && (m.flag_code() == 4 || m.flag_code() >= 12)
}

/// What a capture or promotion that is not the table's move scores: the capture's table
/// score plus or minus the capture bonus, as the exchange wins or loses, and the promotion
/// bonus with the value of the new piece.
pub open spec fn tactical_score(b: Board, m: Move) -> int {
    (if m.flag_code() % 8 >= 4 {
        mvv_lva(kind_at(b, m.to_idx()), kind_at(b, m.from_idx())) + (if see_spec(b, m) {
            CAPTURE_SCORE as int
        } else {
            -CAPTURE_SCORE
        })
    } else {
        0
    }) + match m.promotion_spec() {
        Some(pt) => PROMOTION_SCORE + see_value(pt.idx()),
        None => 0,
    }
}

/// The score of the move `m` at `ply` on `b`: the table's move first, then for a quiet move its
/// killer, counter, castling or history score, an en passant capture the capture bonus, and
/// other captures and promotions their tactical score.
pub open spec fn score_spec(ms: MoveSorter, b: Board, m: Move, ply: int, hash_move: Option<Move>) -> int {
    if hash_move == Some(m) {
        HASH_MOVE_SCORE as int
    } else if m.flag_code() < 4 {
        if is_move(ms.killers()[ply], m) {
            KILLER_MOVE_SCORE as int
        } else if b.current().moov matches Some(p) && is_move(ms.counters()[counter_idx(p.from_idx(), p.to_idx())], m) {
            COUNTER_MOVE_SCORE as int
        } else if m.flag_code() == 2 || m.flag_code() == 3 {
            CASTLING_SCORE as int
        } else {
            ms.history()[hist_idx(b.side().idx(), m.from_idx(), m.to_idx())] as int
        }
    } else if m.flag_code() == 5 {
        CAPTURE_SCORE as int
    } else {
        tactical_score(b, m)
    }
}

/// The move ordering tables: a killer move for each ply, a history score for each side and
/// pair of squares, and a counter move for each pair of squares of the move it answers.
pub struct MoveSorter {
    killer_moves: Vec<Option<Move>>,
    history_scores: Vec<i32>,
    counter_moves: Vec<Option<Move>>,
}

impl MoveSorter {
    /// The killer move of each ply.
    pub closed spec fn killers(&self) -> Seq<Option<Move>> {
        self.killer_moves@
    }

    /// The history scores, at `hist_idx(side, from, to)`.
    pub closed spec fn history(&self) -> Seq<i32> {
        self.history_scores@
    }

    /// The counter moves, at `counter_idx(from, to)` of the move they answer.
    pub closed spec fn counters(&self) -> Seq<Option<Move>> {
        self.counter_moves@
    }

    /// The tables have their sizes and every history score lies in `0..=HISTORY_MAX`.
    pub open spec fn wf(&self) -> bool {
        &&& self.killers().len() == MAX_PLY
        &&& self.history().len() == 8192
        &&& self.counters().len() == 4096
        &&& forall|i: int| 0 <= i < 8192 ==> 0 <= #[trigger] self.history()[i] <= HISTORY_MAX
    }

    /// Empty tables: no killers, no counters, all history scores zero.
    pub fn new() -> (r: MoveSorter)
        ensures
            r.wf(),
            forall|i: int| 0 <= i < MAX_PLY ==> #[trigger] r.killers()[i] is None,
            forall|i: int| 0 <= i < 8192 ==> #[trigger] r.history()[i] == 0,
            forall|i: int| 0 <= i < 4096 ==> #[trigger] r.counters()[i] is None,
    {
        let mut killer_moves: Vec<Option<Move>> = Vec::new();
        let mut i: usize = 0;
        while i < MAX_PLY
            invariant
                i <= MAX_PLY,
                killer_moves@.len() == i,
                forall|j: int| 0 <= j < i ==> #[trigger] killer_moves@[j] is None,
            decreases MAX_PLY - i,
        {
            killer_moves.push(None);
            i = i + 1;
        }
        let mut history_scores: Vec<i32> = Vec::new();
        let mut i: usize = 0;
        while i < 8192
            invariant
                i <= 8192,
                history_scores@.len() == i,
                forall|j: int| 0 <= j < i ==> #[trigger] history_scores@[j] == 0,
            decreases 8192 - i,
        {
            history_scores.push(0);
            i = i + 1;
        }
        let mut counter_moves: Vec<Option<Move>> = Vec::new();
        let mut i: usize = 0;
        while i < 4096
            invariant
                i <= 4096,
                counter_moves@.len() == i,
                forall|j: int| 0 <= j < i ==> #[trigger] counter_moves@[j] is None,
            decreases 4096 - i,
        {
            counter_moves.push(None);
            i = i + 1;
        }
        MoveSorter { killer_moves, history_scores, counter_moves }
    }

    /// Makes `m` the killer move of `ply`.
    pub fn add_killer(&mut self, m: Move, ply: usize)
        requires
            old(self).wf(),
            ply < MAX_PLY,
        ensures
            final(self).wf(),
            final(self).killers() == old(self).killers().update(ply as int, Some(m)),
            final(self).history() == old(self).history(),
            final(self).counters() == old(self).counters(),
    {
        self.killer_moves.set(ply, Some(m));
    }

    /// Rewards the quiet move `m` of side `ctm` that cut off at depth `depth`: its history
    /// score grows by the square of the depth, and when it reaches `HISTORY_MAX` every score
    /// is halved.
    pub fn add_history(&mut self, m: Move, ctm: Color, depth: i8)
        requires
            old(self).wf(),
        ensures
            final(self).wf(),
            final(self).killers() == old(self).killers(),
            final(self).counters() == old(self).counters(),
            ({
                let i = hist_idx(ctm.idx(), m.from_idx(), m.to_idx());
                let s = old(self).history()[i] + depth * depth;
                if s >= HISTORY_MAX {
                    forall|j: int| 0 <= j < 8192 ==> #[trigger] final(self).history()[j] == (if j == i { s } else {
                        old(self).history()[j] as int }) / 2
                } else {
                    final(self).history() == old(self).history().update(i, s as i32)
                }
            }),
    {
        let d = depth as i32;
        let (from_sq, to_sq) = m.squares();
        let i = ctm.index() * 4096 + from_sq.index() * 64 + to_sq.index();
        let ghost before = self.history_scores@;
        assert(d * d <= 16384) by (nonlinear_arith)
            requires
                -128 <= d <= 127,
        ;
        assert(d * d >= 0) by (nonlinear_arith);
        let score = self.history_scores[i] + d * d;
        self.history_scores.set(i, score);
        if score >= HISTORY_MAX {
            let ghost mid = self.history_scores@;
            let mut j: usize = 0;
            while j < 8192
                invariant
                    j <= 8192,
                    self.history_scores@.len() == 8192,
                    self.killer_moves@ == old(self).killer_moves@,
                    self.counter_moves@ == old(self).counter_moves@,
                    mid.len() == 8192,
                    forall|k: int| 0 <= k < 8192 ==> 0 <= #[trigger] mid[k] <= 2 * HISTORY_MAX + 1,
                    forall|k: int| 0 <= k < j ==> #[trigger] self.history_scores@[k] == mid[k] / 2,
                    forall|k: int| j <= k < 8192 ==> #[trigger] self.history_scores@[k] == mid[k],
                decreases 8192 - j,
            {
                let x = self.history_scores[j];
                self.history_scores.set(j, x / 2);
                j = j + 1;
            }
            assert forall|k: int| 0 <= k < 8192 implies #[trigger] self.history_scores@[k] == (if k == i { score as int } else {
                before[k] as int }) / 2 by {
                assert(mid[k] == (if k == i { score as int } else { before[k] as int }));
            }
        }
    }

    /// Makes `m` the counter move of `p_move`.
    pub fn add_counter(&mut self, p_move: Move, m: Move)
        requires
            old(self).wf(),
        ensures
            final(self).wf(),
            final(self).counters() == old(self).counters().update(
                counter_idx(p_move.from_idx(), p_move.to_idx()),
                Some(m),
            ),
            final(self).killers() == old(self).killers(),
            final(self).history() == old(self).history(),
    {
        let i = p_move.from_sq().index() * 64 + p_move.to_sq().index();
        self.counter_moves.set(i, Some(m));
    }

    /// Whether `m` is the killer move of `ply`.
    fn is_killer(&self, m: Move, ply: usize) -> (r: bool)
        requires
            self.wf(),
            ply < MAX_PLY,
        ensures
            r == is_move(self.killers()[ply as int], m),
    {
        match self.killer_moves[ply] {
            Some(k) => k == m,
            None => false,
        }
    }

    /// Whether `m` is the counter move of the last move played on `board`.
    fn is_counter(&self, board: &Board, m: Move) -> (r: bool)
        requires
            self.wf(),
            board.wf(),
        ensures
            r == (board.current().moov matches Some(p) && is_move(
                self.counters()[counter_idx(p.from_idx(), p.to_idx())],
                m,
            )),
    {
        match board.peek() {
            Some(p) => {
                let i = p.from_sq().index() * 64 + p.to_sq().index();
                match self.counter_moves[i] {
                    Some(c) => c == m,
                    None => false,
                }
            },
            None => false,
        }
    }

    /// The history score of the move `m` of side `ctm`.
    fn history_score(&self, m: Move, ctm: Color) -> (r: i32)
        requires
            self.wf(),
        ensures
            r == self.history()[hist_idx(ctm.idx(), m.from_idx(), m.to_idx())],
    {
        self.history_scores[ctm.index() * 4096 + m.from_sq().index() * 64 + m.to_sq().index()]
    }

    /// Whether the move `m` does not lose material in the exchange it starts on its target
    /// square.
    pub fn see(board: &Board, m: Move) -> (r: bool)
        requires
            board.wf(),
            m.promotion_spec() is None ==> board.squares()[m.to_idx()] is Some,
            m.promotion_spec() is None ==> board.squares()[m.from_idx()] is Some,
        ensures
            r == see_spec(*board, m),
    {
        if m.promotion().is_some() {
            return true;
        }
        let (from_sq, to_sq) = m.squares();
        let captured = board.piece_type_at(to_sq).unwrap();
        let mut attacking = board.piece_type_at(from_sq).unwrap();
        let mut value = see_piece_value(captured) - see_piece_value(attacking);
        if value >= 0 {
            return true;
        }
        let ghost b = *board;
        let ghost to = to_sq.idx();
        let mut occ = Bitboard(board.all_pieces().0 ^ from_sq.bb().0);
        let mut attackers = board.attackers(to_sq, occ);
        let ghost mut att = Set::new(|s: int| board.attacker_spec(to, occ.0, s));
        let ghost result = see_swap(b, to, occ.0, att, board.side().other(), value as int);
        let diagonal_sliders = board.diagonal_sliders();
        let orthogonal_sliders = board.orthogonal_sliders();
        let mut ctm = board.ctm().not();
        let mut done = false;
        while !done
            invariant
                board.wf(),
                b == *board,
                to == to_sq.idx(),
                forall|s: int| diagonal_sliders.has(s) == (type_on(b.squares(), s, 2) || type_on(b.squares(), s, 4)),
                forall|s: int| orthogonal_sliders.has(s) == (type_on(b.squares(), s, 3) || type_on(b.squares(), s, 4)),
                !done ==> -10001 <= value < 0,
                !done ==> forall|s: int| attackers.has(s) == (0 <= s < 64 && att.contains(s)),
                !done ==> see_swap(b, to, occ.0, att, ctm, value as int) == result,
                done ==> ctm == result,
            decreases popcount(occ.0) + (if done { 0int } else { 1int }),
        {
            let ghost a0 = attackers;
            attackers = Bitboard(attackers.0 & occ.0);
            assert forall|s: int| attackers.has(s) == (0 <= s < 64 && att.contains(s) && bit(occ.0, s)) by {
                assert(a0.has(s) == (0 <= s < 64 && att.contains(s)));
            }
            let side = board.all_pieces_c(ctm);
            let stm = Bitboard(attackers.0 & side.0);
            assert forall|s: int| stm.has(s) == live_attacker(b, att, occ.0, ctm, s) by {
                assert(bit(stm.0, s) == (bit(attackers.0, s) && bit(side.0, s)));
                assert(bit(attackers.0, s) == (bit(a0.0, s) && bit(occ.0, s)));
                assert(a0.has(s) == (0 <= s < 64 && att.contains(s)));
                assert(side.has(s) == color_on(board.squares(), s, ctm.idx()));
            }
            proof {
                lemma_zero_iff_no_bits(stm.0);
            }
            if stm.0 == 0 {
                assert(!exists|s: int| #[trigger] live_attacker(b, att, occ.0, ctm, s)) by {
                    if exists|s: int| #[trigger] live_attacker(b, att, occ.0, ctm, s) {
                        let s = choose|s: int| #[trigger] live_attacker(b, att, occ.0, ctm, s);
                        assert(stm.has(s));
                    }
                }
                done = true;
            } else {
                assert(exists|s: int| 0 <= s < 64 && bit(stm.0, s));
                let ghost w = choose|s: int| 0 <= s < 64 && bit(stm.0, s);
                assert(stm.has(w));
                assert(live_attacker(b, att, occ.0, ctm, w));
                let ghost tw = b.squares()[w]->0.type_of_spec().idx();
                proof {
                    lemma_least_kind_le(b, att, occ.0, ctm, 0, w, tw);
                }
                let ghost least = least_kind_from(b, att, occ.0, ctm, 0);
                let mut t: u8 = 0;
                let mut searching = true;
                while searching
                    invariant
                        board.wf(),
                        t <= 5,
                        least < 6,
                        least == least_kind_from(b, att, occ.0, ctm, 0),
                        searching ==> least_kind_from(b, att, occ.0, ctm, t as int) == least,
                        !searching ==> t as int == least,
                        !searching ==> exists|s: int| #[trigger] live_attacker(b, att, occ.0, ctm, s) && type_on(b.squares(), s, t as int),
                        forall|s: int| stm.has(s) == live_attacker(b, att, occ.0, ctm, s),
                        b == *board,
                    decreases 5 - t + (if searching { 1int } else { 0int }),
                {
                    let ptb = board.bitboard_of_pt(PieceType::from_u8(t));
                    let x = Bitboard(stm.0 & ptb.0);
                    proof {
                        lemma_zero_iff_no_bits(x.0);
                    }
                    proof {
                        lemma_least_kind_at(b, att, occ.0, ctm, t as int);
                    }
                    if x.0 != 0 {
                        proof {
                            assert(exists|s: int| 0 <= s < 64 && bit(x.0, s));
                            let s = choose|s: int| 0 <= s < 64 && bit(x.0, s);
                            assert(stm.has(s) && ptb.has(s));
                            assert(live_attacker(b, att, occ.0, ctm, s) && type_on(b.squares(), s, t as int));
                        }
                        searching = false;
                    } else if t == 5 {
                        proof {
                            lemma_least_kind_at(b, att, occ.0, ctm, 6);
                        }
                        searching = false;
                    } else {
                        proof {
                            assert(!exists|s: int| #[trigger] live_attacker(b, att, occ.0, ctm, s) && type_on(b.squares(), s, t as int)) by {
                                if exists|s: int| #[trigger] live_attacker(b, att, occ.0, ctm, s) && type_on(b.squares(), s, t as int) {
                                    let s = choose|s: int| #[trigger] live_attacker(b, att, occ.0, ctm, s) && type_on(b.squares(), s, t as int);
                                    assert(stm.has(s));
                                    assert(ptb.has(s));
                                    assert(bit(x.0, s));
                                }
                            }
                        }
                        t = t + 1;
                    }
                }
                attacking = PieceType::from_u8(t);
                let ptb = board.bitboard_of_pt(attacking);
                let x = Bitboard(stm.0 & ptb.0);
                assert forall|s: int| x.has(s) == (live_attacker(b, att, occ.0, ctm, s) && type_on(b.squares(), s, t as int)) by {
                    assert(stm.has(s) == live_attacker(b, att, occ.0, ctm, s));
                    assert(ptb.has(s) == type_on(b.squares(), s, t as int));
                }
                proof {
                    let s = choose|s: int| #[trigger] live_attacker(b, att, occ.0, ctm, s) && type_on(b.squares(), s, t as int);
                    assert(stm.has(s) && ptb.has(s));
                    assert(bit(x.0, s));
                    lemma_zero_iff_no_bits(x.0);
                }
                assert(t as int == least);
                let ghost c_old = ctm;
                ctm = ctm.not();
                value = -value - 1 - see_piece_value(attacking);
                if value >= 0 {
                    if t == 5 {
                        let other = board.all_pieces_c(ctm);
                        let y = Bitboard(attackers.0 & other.0);
                        assert forall|s: int| y.has(s) == live_attacker(b, att, occ.0, ctm, s) by {
                            assert(other.has(s) == color_on(board.squares(), s, ctm.idx()));
                        }
                        proof {
                            lemma_zero_iff_no_bits(y.0);
                        }
                        if y.0 != 0 {
                            proof {
                                assert(exists|s: int| 0 <= s < 64 && bit(y.0, s));
                                let s = choose|s: int| 0 <= s < 64 && bit(y.0, s);
                                assert(y.has(s));
                                assert(live_attacker(b, att, occ.0, ctm, s));
                            }
                            ctm = ctm.not();
                        } else {
                            proof {
                                assert(!exists|s: int| #[trigger] live_attacker(b, att, occ.0, ctm, s)) by {
                                    if exists|s: int| #[trigger] live_attacker(b, att, occ.0, ctm, s) {
                                        let s = choose|s: int| #[trigger] live_attacker(b, att, occ.0, ctm, s);
                                        assert(y.has(s));
                                    }
                                }
                            }
                        }
                    }
                    done = true;
                } else {
                    let sq = x.lsb();
                    proof {
                        assert forall|j: int| 0 <= j < sq.idx() implies !(#[trigger] live_attacker(b, att, occ.0, c_old, j) && type_on(b.squares(), j, t as int)) by {
                            assert(!x.has(j));
                        }
                        assert(x.has(sq.idx()));
                        lemma_lowest_from(b, att, occ.0, c_old, t as int, 0, sq.idx());
                        lemma_popcount_clear_bit(occ.0, sq.idx() as u64);
                    }
                    let ghost occ_before = occ.0;
                    occ = Bitboard(occ.0 ^ sq.bb().0);
                    let ghost att_next = next_attackers(b, to, att, occ_before, occ.0, t as int);
                    let ghost a1 = attackers;
                    let ba = bishop_attacks(to_sq, occ);
                    let bs = if t == 0 || t == 2 || t == 4 {
                        Bitboard(ba.0 & diagonal_sliders.0)
                    } else {
                        Bitboard(0)
                    };
                    let ra = rook_attacks(to_sq, occ);
                    let rs = if t == 3 || t == 4 {
                        Bitboard(ra.0 & orthogonal_sliders.0)
                    } else {
                        Bitboard(0)
                    };
                    attackers = Bitboard(attackers.0 | bs.0 | rs.0);
                    proof {
                        broadcast use crate::bitboard::lemma_bit_zero;
                        assert forall|s: int| attackers.has(s) == (0 <= s < 64 && att_next.contains(s)) by {
                            assert(a1.has(s) == (0 <= s < 64 && att.contains(s) && bit(occ_before, s)));
                            assert(ba.has(s) == bishop_sq(to, occ.0, s));
                            assert(ra.has(s) == rook_sq(to, occ.0, s));
                            assert(diagonal_sliders.has(s) == (type_on(b.squares(), s, 2) || type_on(b.squares(), s, 4)));
                            assert(orthogonal_sliders.has(s) == (type_on(b.squares(), s, 3) || type_on(b.squares(), s, 4)));
                        }
                        att = att_next;
                    }
                }
            }
        }
        let pc = board.piece_at(from_sq).unwrap();
        ctm != pc.color_of()
    }

    /// The scores of the moves of `moves`, in order, at `ply` on `board`.
    pub fn score_moves(&self, moves: &MoveList, board: &Board, ply: usize, hash_move: Option<Move>) -> (r: Vec<i32>)
        requires
            self.wf(),
            board.wf(),
            ply < MAX_PLY,
            forall|i: int| 0 <= i < moves@.len() && scores_capture(#[trigger] moves@[i], hash_move) ==> board.squares()[moves@[i].to_idx()] is Some
                && board.squares()[moves@[i].from_idx()] is Some,
        ensures
            r@.len() == moves@.len(),
            forall|i: int| 0 <= i < moves@.len() ==> #[trigger] r@[i] == score_spec(*self, *board, moves@[i], ply as int, hash_move),
    {
        let mut r: Vec<i32> = Vec::new();
        let n = moves.len();
        let mut i: usize = 0;
        while i < n
            invariant
                self.wf(),
                board.wf(),
                ply < MAX_PLY,
                n == moves@.len(),
                i <= n,
                r@.len() == i,
                forall|k: int| 0 <= k < moves@.len() && scores_capture(#[trigger] moves@[k], hash_move) ==> board.squares()[moves@[k].to_idx()] is Some
                    && board.squares()[moves@[k].from_idx()] is Some,
                forall|k: int| 0 <= k < i ==> #[trigger] r@[k] == score_spec(*self, *board, moves@[k], ply as int, hash_move),
            decreases n - i,
        {
            let m = *moves.get(i).unwrap();
            let sc = self.score_move(m, board, ply, hash_move);
            r.push(sc);
            i = i + 1;
        }
        r
    }

    /// The score of the move `m` at `ply` on `board`.
    fn score_move(&self, m: Move, board: &Board, ply: usize, hash_move: Option<Move>) -> (r: i32)
        requires
            self.wf(),
            board.wf(),
            ply < MAX_PLY,
            scores_capture(m, hash_move) ==> board.squares()[m.to_idx()] is Some && board.squares()[m.from_idx()] is Some,
        ensures
            r == score_spec(*self, *board, m, ply as int, hash_move),
    {
        let code = m.move_int();
        assert(code / 4096 != 6 && code / 4096 != 7);
        let is_hash = match hash_move {
            Some(h) => h == m,
            None => false,
        };
        if is_hash {
            return HASH_MOVE_SCORE;
        }
        if m.is_quiet() {
            if self.is_killer(m, ply) {
                return KILLER_MOVE_SCORE;
            }
            if self.is_counter(board, m) {
                return COUNTER_MOVE_SCORE;
            }
            if m.is_castling() {
                return CASTLING_SCORE;
            }
            return self.history_score(m, board.ctm());
        }
        let mut score: i32 = 0;
        if m.is_capture() {
            if m.is_ep() {
                return CAPTURE_SCORE;
            }
            let bonus = if Self::see(board, m) {
                CAPTURE_SCORE
            } else {
                -CAPTURE_SCORE
            };
            score = Self::mvv_lva_score(board, m) + bonus;
        }
        match m.promotion() {
            Some(pt) => {
                score = score + PROMOTION_SCORE + see_piece_value(pt);
            },
            None => {},
        }
        score
    }

    /// The most valuable victim, least valuable attacker score of the capture `m`.
    fn mvv_lva_score(board: &Board, m: Move) -> (r: i32)
        requires
            board.wf(),
            board.squares()[m.to_idx()] is Some,
            board.squares()[m.from_idx()] is Some,
        ensures
            r == mvv_lva(
                board.squares()[m.to_idx()]->0.type_of_spec().idx(),
                board.squares()[m.from_idx()]->0.type_of_spec().idx(),
            ),
    {
        let (from_sq, to_sq) = m.squares();
        let captured = board.piece_type_at(to_sq).unwrap();
        let attacker = board.piece_type_at(from_sq).unwrap();
        let c = captured.index() as i32;
        let a = attacker.index() as i32;
        (c + 1) * 100 + 5 - a
    }
}

/// The values of the exchange: pawn 100, knight and bishop 375, rook 500, queen 1025,
/// king 10000; each kind is worth more than the one before it, but for the knight and the
/// bishop, which are worth the same.
pub proof fn lemma_see_values()
    ensures
        see_value(0) == 100,
        see_value(1) == 375,
        see_value(2) == 375,
        see_value(3) == 500,
        see_value(4) == 1025,
        see_value(5) == 10000,
        see_value(0) < see_value(1) == see_value(2) < see_value(3) < see_value(4) < see_value(5),
        see_value(1) > 3 * see_value(0),
{
}

/// A knight or bishop that takes a pawn defended by a pawn loses material: the pawn takes
/// back, and a minor piece is worth more than a pawn.
pub proof fn lemma_minor_takes_defended_pawn(b: Board, m: Move, p: int)
    requires
        b.wf(),
        m.promotion_spec() is None,
        0 <= m.from_idx() < 64,
        0 <= m.to_idx() < 64,
        b.holds(m.from_idx(), b.side(), PieceType::Knight) || b.holds(m.from_idx(), b.side(), PieceType::Bishop),
        b.holds(m.to_idx(), b.side().other(), PieceType::Pawn),
        b.holds(p, b.side().other(), PieceType::Pawn),
        crate::attacks::pawn_sq(m.to_idx(), b.side(), p),
    ensures
        !see_spec(b, m),
{
    broadcast use lemma_bit_xor, lemma_bit_single;
    let us = b.side();
    let them = us.other();
    let f = m.from_idx();
    let t = m.to_idx();
    let v = see_value(kind_at(b, t)) - see_value(kind_at(b, f));
    assert(kind_at(b, t) == 0);
    assert(kind_at(b, f) == 1 || kind_at(b, f) == 2);
    assert(v == -275);
    let occ = b.occupancy() ^ (1u64 << (f as u64));
    b.lemma_occupancy_bits();
    assert(p != f);
    assert(bit(b.occupancy(), p));
    assert(bit(occ, p));
    let att = Set::new(|s: int| b.attacker_spec(t, occ, s));
    assert(b.attacker_spec(t, occ, p)) by {
        if us == Color::White {
            assert(b.holds(p, Color::Black, PieceType::Pawn) && crate::attacks::pawn_sq(t, Color::White, p));
        } else {
            assert(b.holds(p, Color::White, PieceType::Pawn) && crate::attacks::pawn_sq(t, Color::Black, p));
        }
    }
    assert(live_attacker(b, att, occ, them, p));
    assert(type_on(b.squares(), p, 0));
    assert(least_kind_from(b, att, occ, them, 0) == 0);
    assert(see_swap(b, t, occ, att, them, v) == us);
    assert(b.squares()[f]->0.color_of_spec() == us);
}

/// A capture of a piece worth at least the capturing one never loses material, and neither
/// does a promotion.
pub proof fn lemma_see_gaining_capture(b: Board, m: Move)
    requires
        m.promotion_spec() is Some || see_value(kind_at(b, m.to_idx())) >= see_value(kind_at(b, m.from_idx())),
    ensures
        see_spec(b, m),
{
}

} // verus!
