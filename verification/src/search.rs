use vstd::prelude::*;

pub mod engine;
pub mod statistics;

use crate::board::{Board, type_on, color_on};
use crate::moov::Move;
use crate::tt::TTEntry;
use crate::types::{is_checkmate_value, Score, MATE};

verus! {

/// What a stored search value is: exact, a lower bound, or an upper bound.
#[derive(Clone, Copy, PartialEq, Eq, Structural, Debug)]
pub enum Bound {
    Exact,
    Lower,
    Upper,
}

impl Bound {
    /// Exact is 0, Lower 1, Upper 2.
    pub open spec fn code(self) -> u64 {
        match self {
            Bound::Exact => 0,
            Bound::Lower => 1,
            Bound::Upper => 2,
        }
    }

    pub fn code_u64(self) -> (r: u64)
        ensures
            r == self.code(),
    {
        match self {
            Bound::Exact => 0,
            Bound::Lower => 1,
            Bound::Upper => 2,
        }
    }

    pub fn from_code(n: u8) -> (r: Bound)
        requires
            n < 3,
        ensures
            r.code() == n,
    {
        match n {
            0 => Bound::Exact,
            1 => Bound::Lower,
            _ => Bound::Upper,
        }
    }
}

/// The deepest search that reverse futility pruning applies to.
pub const RFP_MAX_DEPTH: i8 = 9;
/// The deepest search that futility pruning applies to.
pub const FUTILITY_MAX_DEPTH: i8 = 6;
/// The futility margin per ply of depth.
pub const FUTILITY_MARGIN_MULTIPLIER: i32 = 100;
/// The margin of delta pruning in quiescence.
pub const DELTA_MARGIN: i32 = 200;
/// The reverse futility margin per ply of depth.
pub const RFP_MARGIN_MULTIPLIER: i32 = 63;
/// How much the reverse futility margin shrinks when the evaluation is improving.
pub const RFP_IMPROVING_MARGIN: i32 = 30;
/// The half width of the first aspiration window.
pub const ASPIRATION_WINDOW: i32 = 16;
/// The first depth searched with an aspiration window.
pub const ASPIRATION_MIN_DEPTH: i8 = 4;
/// The least depth for a null move.
pub const NULL_MIN_DEPTH: i8 = 2;
/// The least reduction of a null move search.
pub const NULL_MIN_DEPTH_REDUCTION: i8 = 1;
/// The depth over the least null move depth that adds one ply of reduction.
pub const NULL_DEPTH_DIVIDER: i8 = 2;
/// The least depth for internal iterative deepening.
pub const IID_MIN_DEPTH: i8 = 4;
/// The depth that internal iterative deepening takes off.
pub const IID_DEPTH_REDUCTION: i8 = 1;
/// The moves searched before late move reductions start.
pub const LMR_MOVE_WO_REDUCTION: usize = 3;
/// The least depth for late move reductions.
pub const LMR_MIN_DEPTH: i8 = 2;
/// The least depth for a singular extension.
pub const SING_EXTEND_MIN_DEPTH: i8 = 4;
/// How far below the search depth a table entry may be for a singular extension.
pub const SING_EXTEND_DEPTH_MARGIN: i8 = 2;

/// A move at the root with its standing: its value, its principal variation, and the
/// selective depth the search reached under it.
pub struct RootMove {
    pub m: Move,
    pub value: i32,
    pub pv: Vec<Move>,
    pub sel_depth: usize,
}

impl RootMove {
    /// A root move not searched yet: the worst value and an empty line.
    pub fn new(m: Move) -> (r: RootMove)
        ensures
            r.m == m,
            r.value == -MATE,
            r.pv@.len() == 0,
            r.sel_depth == 0,
    {
        RootMove { m, value: -MATE, pv: Vec::new(), sel_depth: 0 }
    }
}

/// Whether the side to move on `b` has a piece other than pawns and its king.
pub open spec fn has_pieces(b: Board) -> bool {
    exists|s: int| color_on(b.squares(), s, b.side().idx()) && !type_on(b.squares(), s, 0) && !type_on(b.squares(), s, 5)
}

/// Whether a null move is tried: not in a principal variation node, not in check, not right
/// after a null move or at the start, deep enough, with pieces to avoid zugzwang, an
/// evaluation at least beta, beta no mate score, and no move excluded.
pub fn can_apply_null(
    board: &Board,
    depth: i8,
    beta: i32,
    static_eval: i32,
    in_check: bool,
    is_pv: bool,
    excluded_move: Option<Move>,
) -> (r: bool)
    requires
        board.wf(),
        beta != i32::MIN,
    ensures
        r == (!is_pv && !in_check && board.current().moov is Some && depth >= NULL_MIN_DEPTH && has_pieces(*board)
            && static_eval >= beta && !is_checkmate_value(beta) && excluded_move is None),
{
    !is_pv && !in_check && board.peek().is_some() && depth >= NULL_MIN_DEPTH && board.has_non_pawn_material()
        && static_eval >= beta && !beta.is_checkmate() && excluded_move.is_none()
}

/// Whether internal iterative deepening applies: deep enough, and no best move from the table.
pub fn can_apply_iid(tt_entry: Option<TTEntry>, depth: i8) -> (r: bool)
    ensures
        r == (depth >= IID_MIN_DEPTH && match tt_entry {
            Some(e) => e.move_code() == 0,
            None => true,
        }),
{
    depth >= IID_MIN_DEPTH && match tt_entry {
        Some(e) => e.best_move().is_none(),
        None => true,
    }
}

/// Whether reverse futility pruning applies: shallow, not in check, not in a principal
/// variation node, beta no mate score, no move excluded.
pub fn can_apply_rfp(depth: i8, in_check: bool, is_pv: bool, beta: i32, excluded_move: Option<Move>) -> (r: bool)
    requires
        beta != i32::MIN,
    ensures
        r == (depth <= RFP_MAX_DEPTH && !in_check && !is_pv && !is_checkmate_value(beta) && excluded_move is None),
{
    depth <= RFP_MAX_DEPTH && !in_check && !is_pv && !beta.is_checkmate() && excluded_move.is_none()
}

/// Whether delta pruning applies to `m` in quiescence: a capture without promotion, alpha no
/// mate score.
pub fn can_apply_delta(m: Move, alpha: i32) -> (r: bool)
    requires
        alpha != i32::MIN,
    ensures
        r == (m.flag_code() % 8 >= 4 && m.promotion_spec() is None && !is_checkmate_value(alpha)),
{
    m.is_capture() && m.promotion().is_none() && !alpha.is_checkmate()
}

/// Whether futility pruning applies: shallow, not in check, not in a principal variation node,
/// alpha no mate score, no move excluded.
pub fn can_apply_futility(depth: i8, in_check: bool, is_pv: bool, alpha: i32, excluded_move: Option<Move>) -> (r: bool)
    requires
        alpha != i32::MIN,
    ensures
        r == (depth <= FUTILITY_MAX_DEPTH && !in_check && !is_pv && !is_checkmate_value(alpha) && excluded_move is None),
{
    depth <= FUTILITY_MAX_DEPTH && !in_check && !is_pv && !alpha.is_checkmate() && excluded_move.is_none()
}

/// Whether the move `m`, the `idx`-th of the node, is searched: not the excluded move, and not
/// a quiet move after the first in a futile node.
pub fn searchable(m: Move, idx: usize, futile: bool, excluded_move: Option<Move>) -> (r: bool)
    ensures
        r == (excluded_move != Some(m) && !(futile && idx > 0 && m.flag_code() < 4)),
{
    let excluded = match excluded_move {
        Some(e) => e == m,
        None => false,
    };
    !excluded && !(futile && idx > 0 && m.is_quiet())
}

/// Whether the `move_index`-th move `m` is searched with a late move reduction: deep enough,
/// late enough, and quiet.
pub fn can_apply_lmr(m: Move, depth: i8, move_index: usize) -> (r: bool)
    ensures
        r == (depth >= LMR_MIN_DEPTH && move_index >= LMR_MOVE_WO_REDUCTION && m.flag_code() < 4),
{
    depth >= LMR_MIN_DEPTH && move_index >= LMR_MOVE_WO_REDUCTION && m.is_quiet()
}

/// Whether the table's move `m` is tried for a singular extension: it is the entry's best
/// move, the search is deep enough, the entry's value is no mate score, no move is excluded,
/// the entry is at most two plies shallower, and its value is no upper bound.
pub fn can_singular_extend(entry: TTEntry, m: Move, depth: i8, excluded_move: Option<Move>) -> (r: bool)
    ensures
        r == (entry.move_code() == m.code_int() && depth >= SING_EXTEND_MIN_DEPTH && !is_checkmate_value(entry.value_spec())
            && excluded_move is None && entry.depth_spec() + SING_EXTEND_DEPTH_MARGIN >= depth && entry.bound_code() != 2),
{
    let same = match entry.best_move() {
        Some(b) => {
            proof {
                Move::lemma_same_code(b, m);
            }
            b == m
        },
        None => false,
    };
    let code = m.move_int();
    assert(code != 0);

    let v = entry.value();
    same && depth >= SING_EXTEND_MIN_DEPTH && !v.is_checkmate() && excluded_move.is_none() && entry.depth() as i16
        + SING_EXTEND_DEPTH_MARGIN as i16 >= depth as i16 && entry.bound() != Bound::Upper
}

/// The reduction of a null move search at depth `depth`: one ply, and one more for every two
/// plies over the least null move depth.
pub fn null_reduction(depth: i8) -> (r: i8)
    requires
        depth >= NULL_MIN_DEPTH,
    ensures
        r == NULL_MIN_DEPTH_REDUCTION + (depth - NULL_MIN_DEPTH) / NULL_DEPTH_DIVIDER as int,
{
    NULL_MIN_DEPTH_REDUCTION + (depth - NULL_MIN_DEPTH) / NULL_DEPTH_DIVIDER
}

/// The futility margin at depth `depth`: 100 per ply.
pub fn futility_margin(depth: i8) -> (r: i32)
    ensures
        r == FUTILITY_MARGIN_MULTIPLIER * depth,
{
    FUTILITY_MARGIN_MULTIPLIER * (depth as i32)
}

/// The reverse futility margin at depth `depth`: 63 per ply, 30 less when improving.
pub fn rfp_margin(depth: i8, improving: bool) -> (r: i32)
    ensures
        r == RFP_MARGIN_MULTIPLIER * depth - (if improving { RFP_IMPROVING_MARGIN as int } else { 0 }),
{
    let imp: i32 = if improving {
        1
    } else {
        0
    };
    RFP_MARGIN_MULTIPLIER * (depth as i32) - RFP_IMPROVING_MARGIN * imp
}

/// The next window edge after a search failed at `value`, with `delta` the window step: one
/// step beyond the value, and no further than a mate.
pub fn widen_down(value: i32, delta: i32) -> (r: i32)
    requires
        -MATE <= value <= MATE,
        0 <= delta <= MATE,
    ensures
        r == (if value - delta >= -MATE { value - delta } else { -MATE as int }),
{
    if value - delta >= -MATE {
        value - delta
    } else {
        -MATE
    }
}

/// The next upper window edge after a search failed high at `value`, with `delta` the
/// window step: one step beyond the value, and no further than a mate.
pub fn widen_up(value: i32, delta: i32) -> (r: i32)
    requires
        -MATE <= value <= MATE,
        0 <= delta <= MATE,
    ensures
        r == (if value + delta <= MATE { value + delta } else { MATE as int }),
{
    if value + delta <= MATE {
        value + delta
    } else {
        MATE
    }
}


/// The number of moves to the mate that a search value reports, positive when the side to
/// move mates and negative when it is mated; none for a value that reports no mate.
pub fn mate_moves(value: i32) -> (r: Option<i32>)
    requires
        -MATE <= value <= MATE,
    ensures
        !is_checkmate_value(value) ==> r is None,
        is_checkmate_value(value) && value > 0 ==> r == Some(((MATE - value + 1) / 2) as i32),
        is_checkmate_value(value) && value < 0 ==> r == Some((-((MATE + value + 1) / 2)) as i32),
{
    if value >= 16000 {
        Some((MATE - value + 1) / 2)
    } else if value <= -16000 {
        Some(-((MATE + value + 1) / 2))
    } else {
        None
    }
}

/// The window of a node `ply` plies from the root once mate distance pruning narrows it: no
/// value below being mated here, none above mating at the next ply.
pub fn mate_distance_window(alpha: i32, beta: i32, ply: usize) -> (r: (i32, i32))
    requires
        ply < 256,
    ensures
        r.0 == (if alpha >= -(MATE - ply) { alpha as int } else { -(MATE - ply) }),
        r.1 == (if beta <= MATE - ply - 1 { beta as int } else { MATE - ply - 1 }),
{
    let mate_value = MATE - (ply as i32);
    let a = if alpha >= -mate_value {
        alpha
    } else {
        -mate_value
    };
    let b = if beta <= mate_value - 1 {
        beta
    } else {
        mate_value - 1
    };
    (a, b)
}

/// A principal variation table: a line for each ply.
pub struct PvTable {
    pub lines: Vec<Vec<Move>>,
}

impl PvTable {
    /// Empty lines for plies `0..n`.
    pub fn new(n: usize) -> (r: PvTable)
        ensures
            r.lines@.len() == n,
            forall|i: int| 0 <= i < n ==> (#[trigger] r.lines@[i])@.len() == 0,
    {
        let mut lines: Vec<Vec<Move>> = Vec::new();
        let mut i: usize = 0;
        while i < n
            invariant
                i <= n,
                lines@.len() == i,
                forall|j: int| 0 <= j < i ==> (#[trigger] lines@[j])@.len() == 0,
            decreases n - i,
        {
            lines.push(Vec::new());
            i = i + 1;
        }
        PvTable { lines }
    }

    /// Empties every line.
    pub fn clear_all(&mut self)
        ensures
            final(self).lines@.len() == old(self).lines@.len(),
            forall|j: int| 0 <= j < final(self).lines@.len() ==> (#[trigger] final(self).lines@[j])@.len() == 0,
    {
        let n = self.lines.len();
        let mut i: usize = 0;
        while i < n
            invariant
                i <= n,
                n == self.lines@.len(),
                forall|j: int| 0 <= j < i ==> (#[trigger] self.lines@[j])@.len() == 0,
            decreases n - i,
        {
            self.lines.set(i, Vec::new());
            i = i + 1;
        }
    }

    /// Empties the line of `ply`.
    pub fn clear_line(&mut self, ply: usize)
        requires
            ply < old(self).lines@.len(),
        ensures
            final(self).lines@ == old(self).lines@.update(ply as int, final(self).lines@[ply as int]),
            final(self).lines@[ply as int]@.len() == 0,
    {
        self.lines.set(ply, Vec::new());
    }

    /// Makes `m` followed by the line of the next ply the line of `ply`, and empties the lines
    /// of all deeper plies.
    pub fn update_pv(&mut self, m: Move, ply: usize)
        requires
            ply < old(self).lines@.len(),
        ensures
            final(self).lines@.len() == old(self).lines@.len(),
            final(self).lines@[ply as int]@ == seq![m] + (if ply + 1 < old(self).lines@.len() {
                old(self).lines@[ply + 1]@
            } else {
                Seq::empty()
            }),
            forall|i: int| 0 <= i < ply ==> #[trigger] final(self).lines@[i]@ == old(self).lines@[i]@,
            forall|i: int| ply < i < old(self).lines@.len() ==> (#[trigger] final(self).lines@[i])@.len() == 0,
    {
        let n = self.lines.len();
        let mut line: Vec<Move> = Vec::new();
        line.push(m);
        if ply + 1 < n {
            let k = self.lines[ply + 1].len();
            let mut j: usize = 0;
            while j < k
                invariant
                    ply + 1 < n,
                    n == self.lines@.len(),
                    k == self.lines@[ply + 1]@.len(),
                    j <= k,
                    line@ == seq![m] + self.lines@[ply + 1]@.subrange(0, j as int),
                decreases k - j,
            {
                line.push(self.lines[ply + 1][j]);
                j = j + 1;
                assert(line@ == seq![m] + self.lines@[ply + 1]@.subrange(0, j as int));
            }
            assert(self.lines@[ply + 1]@.subrange(0, k as int) == self.lines@[ply + 1]@);
        }
        let ghost before = self.lines@;
        self.lines.set(ply, line);
        let mut i = ply + 1;
        while i < n
            invariant
                ply < n,
                n == self.lines@.len(),
                ply + 1 <= i <= n,
                self.lines@[ply as int] == line,
                forall|j: int| 0 <= j < ply ==> #[trigger] self.lines@[j] == before[j],
                forall|j: int| ply < j < i ==> (#[trigger] self.lines@[j])@.len() == 0,
            decreases n - i,
        {
            self.lines.set(i, Vec::new());
            i = i + 1;
        }
    }
}

} // verus!
