use vstd::prelude::*;
use crate::board::{
    Board, reversible, lemma_pop_after_push, lemma_push_search_pop, lemma_same_position_facts, lemma_null_search_pop,
    lemma_same_position_move, lemma_same_position_rules, lemma_same_position_trans,
};
use crate::moov::Move;
use crate::move_list::{is_move, MoveList};
use crate::move_sorter::{MoveSorter, scores_capture, see_piece_value, see_spec, see_value};
use crate::piece::PieceType;
use crate::search::{
    Bound, PvTable, RootMove, ASPIRATION_MIN_DEPTH, ASPIRATION_WINDOW, can_apply_delta, can_apply_futility, can_apply_iid, can_apply_lmr, can_apply_null,
    can_apply_rfp, can_singular_extend, futility_margin, mate_distance_window, null_reduction, rfp_margin,
    searchable, DELTA_MARGIN, IID_DEPTH_REDUCTION, RFP_MARGIN_MULTIPLIER, RFP_MAX_DEPTH,
};
use crate::tt::TTEntry;
use core::ops::ControlFlow;
use crate::timer::Timer;
use crate::tt::{TT, depth_of, find_from, value_of, value_to_report};
use crate::types::{MATE, MAX_PLY, Score, is_checkmate_value};

verus! {

/// The largest size of a search value: every value lies in `-VALUE_BOUND..=VALUE_BOUND`.
pub const VALUE_BOUND: i32 = 40000;

/// Whether `eval` is an evaluation the search can call: on any board, with a value of at most
/// `VALUE_BOUND - 1` in size.
pub open spec fn eval_ok<E: Fn(&Board) -> i32>(eval: &E) -> bool {
    &&& forall|b: &Board| #[trigger] call_requires(*eval, (b,))
    &&& forall|b: &Board, v: i32| #[trigger] call_ensures(*eval, (b,), v) ==> -VALUE_BOUND < v < VALUE_BOUND
}

/// Whether `v` is a value that `eval` gives for a board in the same position as `b`.
pub open spec fn evaluates<E: Fn(&Board) -> i32>(eval: &E, b: Board, v: int) -> bool {
    exists|b2: Board, x: i32| b2.same_position(&b) && #[trigger] call_ensures(*eval, (&b2,), x) && x == v
}

/// Whether the moves of `moves` may be scored and played on `b`: each is sound to play, and a
/// capture finds its pieces.
pub open spec fn moves_playable(b: Board, moves: Seq<Move>) -> bool {
    &&& b.position_sound()
    &&& forall|i: int| 0 <= i < moves.len() ==> #[trigger] reversible(b.squares(), b.side(), moves[i])
}

/// The moves generated on a sound board may be played, and their captures find their pieces.
pub proof fn lemma_generated_playable(b: Board, moves: Seq<Move>, q: bool, hash_move: Option<Move>)
    requires
        b.wf(),
        b.position_sound(),
        b.appended_ok(Seq::empty(), moves, q),
    ensures
        moves_playable(b, moves),
        forall|i: int| 0 <= i < moves.len() && scores_capture(#[trigger] moves[i], hash_move) ==> b.squares()[moves[i].to_idx()] is Some
            && b.squares()[moves[i].from_idx()] is Some,
{
    assert forall|i: int| 0 <= i < moves.len() implies #[trigger] reversible(b.squares(), b.side(), moves[i]) by {
        assert(b.generated_ok(moves[i]));
    }
    assert forall|i: int| 0 <= i < moves.len() && scores_capture(#[trigger] moves[i], hash_move) implies b.squares()[moves[i].to_idx()] is Some
        && b.squares()[moves[i].from_idx()] is Some by {
        assert(reversible(b.squares(), b.side(), moves[i]));
    }
}

/// The index of the best scored move not tried yet, the first of equal scores; `None` when
/// every move was tried.
pub fn next_best(scores: &Vec<i32>, tried: &Vec<bool>) -> (r: Option<usize>)
    requires
        scores@.len() == tried@.len(),
    ensures
        r matches Some(i) ==> i < tried@.len() && !tried@[i as int],
        r is None ==> forall|j: int| 0 <= j < tried@.len() ==> #[trigger] tried@[j],
{
    let mut best: Option<usize> = None;
    let mut i: usize = 0;
    while i < tried.len()
        invariant
            scores@.len() == tried@.len(),
            i <= tried@.len(),
            best matches Some(b) ==> b < i && !tried@[b as int],
            best is None ==> forall|j: int| 0 <= j < i ==> #[trigger] tried@[j],
        decreases tried@.len() - i,
    {
        if !tried[i] {
            match best {
                None => {
                    best = Some(i);
                },
                Some(b) => {
                    if scores[i] > scores[b] {
                        best = Some(i);
                    }
                },
            }
        }
        i = i + 1;
    }
    best
}

/// The searcher of one thread: its clock, the transposition table, the move ordering tables,
/// and per ply the move excluded by a singular search, the static evaluation and the
/// principal variation.
pub struct Search {
    id: u16,
    sel_depth: usize,
    show_wdl: bool,
    multi_pv: usize,
    pub timer: Timer,
    pub tt: TT,
    scorer: MoveSorter,
    excluded_moves: Vec<Option<Move>>,
    eval_stack: Vec<i32>,
    pv_table: PvTable,
    lmr_table: Vec<i8>,
}

impl Search {
    /// The tables have their sizes and the clock, the table and the ordering are sound.
    pub closed spec fn wf(&self) -> bool {
        &&& self.timer.wf()
        &&& self.tt.wf()
        &&& self.tt.words().len() > 0
        &&& self.scorer.wf()
        &&& self.excluded_moves@.len() == MAX_PLY
        &&& self.eval_stack@.len() == MAX_PLY
        &&& self.pv_table.lines@.len() == MAX_PLY
        &&& self.lmr_table@.len() == 4096
    }

    /// The transposition table.
    pub closed spec fn table(&self) -> TT {
        self.tt
    }

    /// The move excluded at `ply` by a singular search, if any.
    pub closed spec fn excluded_at(&self, ply: int) -> Option<Move> {
        self.excluded_moves@[ply]
    }

    /// What the transposition table holds for `b` when a node `ply` plies from the root reads
    /// it: the depth of the entry, the code of its bound, and its value as seen from there.
    pub open spec fn tt_entry_spec(&self, b: Board, ply: int) -> Option<(int, u64, int)> {
        let h = b.hash_spec();
        let base = self.table().base_of(h);
        match find_from(self.table().words(), base, h >> 48u64, 0) {
            None => None,
            Some(k) => {
                let w = self.table().words()[base + k];
                Some((depth_of(w) as int, (w >> 40u64) & 3u64, ((value_to_report(value_of(w), ply) as i16) as i32) as int))
            },
        }
    }

    /// Whether no king of the side to move is attacked.
    pub open spec fn not_in_check(b: Board) -> bool {
        forall|k: int| #[trigger] b.is_king_square(b.side(), k) ==> !b.attacked_spec(k)
    }

    /// Whether a quiescence node `ply` plies from the root gets as far as the table: the
    /// board can be played on, the node is not the deepest, and the position is no draw.
    pub open spec fn q_reaches_table(b: Board, ply: usize) -> bool {
        b.push_ready_spec() && ply < MAX_PLY - 1 && !b.draw_spec()
    }

    /// Whether a node of the main search gets as far as the table: the board can be played
    /// on, the node is not the deepest, the window left by mate distance pruning is not
    /// empty, some depth is left, and the position is no draw.
    pub open spec fn reaches_table(b: Board, depth: i32, alpha: i32, beta: i32, ply: usize) -> bool {
        let (a, bt) = Search::mate_window(alpha, beta, ply);
        b.push_ready_spec() && ply < MAX_PLY - 1 && a < bt && depth >= 1 && !b.draw_spec()
    }

    /// The clock.
    pub closed spec fn timer_spec(&self) -> Timer {
        self.timer
    }

    /// The transposition table.
    pub closed spec fn tt_spec(&self) -> TT {
        self.tt
    }

    /// The deepest ply the search reached.
    pub closed spec fn sel_depth_spec(&self) -> usize {
        self.sel_depth
    }

    /// A searcher with clock `timer` and table `tt`. `lmr_table` holds the late move reduction
    /// for each depth and move number below 64, at `64 * depth + number`.
    pub fn new(timer: Timer, tt: TT, id: u16, show_wdl: bool, multi_pv: usize, lmr_table: Vec<i8>) -> (r: Search)
        requires
            timer.wf(),
            tt.wf(),
            tt.words().len() > 0,
            lmr_table@.len() == 4096,
        ensures
            r.wf(),
            r.timer_spec() == timer,
            r.tt_spec() == tt,
    {
        let mut excluded_moves: Vec<Option<Move>> = Vec::new();
        let mut eval_stack: Vec<i32> = Vec::new();
        let mut i: usize = 0;
        while i < MAX_PLY
            invariant
                i <= MAX_PLY,
                excluded_moves@.len() == i,
                eval_stack@.len() == i,
            decreases MAX_PLY - i,
        {
            excluded_moves.push(None);
            eval_stack.push(0);
            i = i + 1;
        }
        Search {
            id,
            sel_depth: 0,
            show_wdl,
            multi_pv,
            timer,
            tt,
            scorer: MoveSorter::new(),
            excluded_moves,
            eval_stack,
            pv_table: PvTable::new(MAX_PLY),
            lmr_table,
        }
    }

    /// Whether the capture `m` is searched in quiescence: a capture that could raise the
    /// evaluation `eval` above `alpha`, or one that delta pruning does not judge, and one
    /// that does not lose material; en passant captures are not judged by the exchange.
    fn q_searchable(board: &Board, m: Move, eval: i32, alpha: i32) -> (r: bool)
        requires
            board.wf(),
            -VALUE_BOUND <= eval <= VALUE_BOUND,
            -VALUE_BOUND <= alpha <= VALUE_BOUND,
            m.flag_code() >= 4,
            m.flag_code() == 4 || m.flag_code() >= 12 ==> board.squares()[m.to_idx()] is Some
                && board.squares()[m.from_idx()] is Some,
        ensures
            r == ((!(m.flag_code() % 8 >= 4 && m.promotion_spec() is None && !is_checkmate_value(alpha)) || eval
                + Search::delta_margin_spec(*board, m) > alpha) && (m.flag_code() == 5 || see_spec(*board, m))),
    {
        let code = m.move_int();
        assert(code / 4096 != 6 && code / 4096 != 7);
        let delta_ok = !can_apply_delta(m, alpha) || eval + Search::delta_margin(board, m) > alpha;
        delta_ok && (m.is_ep() || MoveSorter::see(board, m))
    }

    /// Whether reverse futility pruning cuts a node `depth` plies deep off on the static
    /// evaluation `v`, however the evaluation has moved: shallow enough, not in check, not a
    /// principal variation node, beta no mate score, no move excluded, and `v` at least beta
    /// plus 63 per ply.
    pub open spec fn rfp_cuts(depth: i32, in_check: bool, is_pv: bool, beta: i32, excluded_move: Option<Move>, v: int) -> bool {
        &&& depth <= RFP_MAX_DEPTH
        &&& !in_check
        &&& !is_pv
        &&& !is_checkmate_value(beta)
        &&& excluded_move is None
        &&& v - RFP_MARGIN_MULTIPLIER * depth >= beta
    }

    /// The window of a node `ply` plies from the root after mate distance pruning: no side can
    /// mate sooner than the node allows.
    pub open spec fn mate_window(alpha: i32, beta: i32, ply: usize) -> (int, int) {
        (
            if alpha >= -(MATE - ply) { alpha as int } else { -(MATE - ply) },
            if beta <= MATE - ply - 1 { beta as int } else { MATE - ply - 1 },
        )
    }

    /// The value of what the capture `m` takes, a pawn when the target is empty, and 200.
    pub open spec fn delta_margin_spec(board: Board, m: Move) -> int {
        let captured = if m.flag_code() == 5 {
            PieceType::Pawn
        } else {
            match board.squares()[m.to_idx()] {
                Some(pc) => pc.type_of_spec(),
                None => PieceType::Pawn,
            }
        };
        see_value(captured.idx()) + DELTA_MARGIN
    }

    /// The margin of delta pruning for the capture `m`: the value of what it takes, and 200.
    fn delta_margin(board: &Board, m: Move) -> (r: i32)
        requires
            board.wf(),
        ensures
            0 < r <= 10200,
            r == Search::delta_margin_spec(*board, m),
    {
        let captured = if m.is_ep() {
            PieceType::Pawn
        } else {
            match board.piece_type_at(m.to_sq()) {
                Some(pt) => pt,
                None => PieceType::Pawn,
            }
        };
        see_piece_value(captured) + DELTA_MARGIN
    }

    /// Quiescence search of `board` in the window `alpha..beta`, `ply` plies from the root:
    /// captures only, and every evasion when in check; the board comes back as it was. An
    /// exact table entry answers at once, and out of check the static evaluation stands in
    /// for the value unless a capture does better; a stopped search answers 0.
    pub fn q_search<E: Fn(&Board) -> i32>(&mut self, board: &mut Board, alpha: i32, beta: i32, ply: usize, eval: &E) -> (r: i32)
        requires
            old(self).wf(),
            old(board).wf(),
            ply < MAX_PLY,
            -VALUE_BOUND <= alpha <= VALUE_BOUND,
            -VALUE_BOUND <= beta <= VALUE_BOUND,
            eval_ok(eval),
        ensures
            final(self).wf(),
            final(board).wf(),
            final(board).same_position(&*old(board)),
            -VALUE_BOUND <= r <= VALUE_BOUND,
            !old(board).push_ready_spec() ==> call_ensures(*eval, (&*old(board),), r),
            old(board).push_ready_spec() && ply < MAX_PLY - 1 && old(board).draw_spec() ==> r == 0,
            Search::q_reaches_table(*old(board), ply) ==> match old(self).tt_entry_spec(*old(board), ply as int) {
                Some((_, code, v)) => code == 0 ==> (r == 0 || r == v),
                None => Search::not_in_check(*old(board)) ==> (r == 0 || exists|v: i32|
                    #[trigger] call_ensures(*eval, (&*old(board),), v) && r >= (if v < beta { v } else { beta })),
            },
        decreases MAX_PLY - ply, 1int,
    {
        let ghost b0 = *board;
        let mut alpha = alpha;
        let mut beta = beta;
        if !board.push_ready() {
            return eval(board);
        }
        if ply >= MAX_PLY - 1 {
            return if board.in_check() {
                0
            } else {
                eval(board)
            };
        }
        self.pv_table.clear_line(ply);
        if self.timer.stop_check() {
            return 0;
        }
        if board.is_draw() {
            return 0;
        }
        if ply > self.sel_depth {
            self.sel_depth = ply;
        }
        let is_pv = alpha != beta - 1;
        let tt_entry = self.tt.get(board, ply);
        match tt_entry {
            Some(e) => {
                let tt_value = e.value();
                match e.bound() {
                    Bound::Exact => return tt_value,
                    Bound::Lower => {
                        if tt_value > alpha {
                            alpha = tt_value;
                        }
                    },
                    Bound::Upper => {
                        if tt_value < beta {
                            beta = tt_value;
                        }
                    },
                }
                if alpha >= beta {
                    return tt_value;
                }
            },
            None => {},
        }
        let in_check = board.in_check();
        let mate_value = MATE - (ply as i32);
        let static_eval: i32;
        let mut best_value: i32;
        let ghost mut ev_seen: i32 = 0;
        if in_check {
            static_eval = -MATE;
            best_value = -mate_value;
        } else {
            let ev = eval(board);
            proof {
                ev_seen = ev;
                assert(call_ensures(*eval, (&*old(board),), ev));
            }
            if ev >= beta {
                self.tt.insert(board, 0, ev, None, Bound::Lower, ply);
                return ev;
            }
            if ev > alpha {
                alpha = ev;
            }
            static_eval = ev;
            best_value = ev;
        }
        let moves = if in_check {
            MoveList::from::<false>(board)
        } else {
            MoveList::from::<true>(board)
        };
        let hash_move = match tt_entry {
            Some(e) => e.best_move(),
            None => None,
        };
        proof {
            lemma_generated_playable(*board, moves@, !in_check, hash_move);
        }
        let scores = self.scorer.score_moves(&moves, board, ply, hash_move);
        let (best_value, best_move, tt_flag, stopped) = self.q_moves(board, &moves, &scores, hash_move, alpha, beta, static_eval, best_value, ply, in_check, is_pv, eval);
        if stopped {
            return 0;
        }
        if !self.timer.is_stopped() {
            self.tt.insert(board, 0, best_value, best_move, tt_flag, ply);
        }
        proof {
            if !in_check {
                assert(call_ensures(*eval, (&*old(board),), ev_seen));
                assert(best_value >= ev_seen);
            }
        }
        best_value
    }

    /// The moves of a quiescence node, best scored first: each one searched raises the best
    /// value, the bound and the principal variation, until one reaches `beta`.
    fn q_moves<E: Fn(&Board) -> i32>(
        &mut self,
        board: &mut Board,
        moves: &MoveList,
        scores: &Vec<i32>,
        hash_move: Option<Move>,
        alpha: i32,
        beta: i32,
        static_eval: i32,
        best_value: i32,
        ply: usize,
        in_check: bool,
        is_pv: bool,
        eval: &E,
    ) -> (r: (i32, Option<Move>, Bound, bool))
        requires
            old(self).wf(),
            old(board).wf(),
            old(board).push_ready_spec(),
            moves_playable(*old(board), moves@),
            forall|i: int| 0 <= i < moves@.len() && scores_capture(#[trigger] moves@[i], hash_move) ==> old(board).squares()[moves@[i].to_idx()] is Some
                && old(board).squares()[moves@[i].from_idx()] is Some,
            !in_check ==> forall|i: int| 0 <= i < moves@.len() ==> (#[trigger] moves@[i]).flag_code() >= 4,
            scores@.len() == moves@.len(),
            ply < MAX_PLY - 1,
            -VALUE_BOUND <= alpha <= VALUE_BOUND,
            -VALUE_BOUND <= beta <= VALUE_BOUND,
            -VALUE_BOUND <= best_value <= VALUE_BOUND,
            -VALUE_BOUND <= static_eval <= VALUE_BOUND,
            eval_ok(eval),
        ensures
            final(self).wf(),
            final(board).wf(),
            final(board).same_position(&*old(board)),
            -VALUE_BOUND <= r.0 <= VALUE_BOUND,
            moves@.len() == 0 ==> r == (best_value, None::<Move>, Bound::Upper, false),
            r.3 ==> r.0 == 0,
            !r.3 ==> r.0 >= best_value,
            !r.3 && r.2 == Bound::Lower ==> r.0 >= beta,
            !r.3 ==> (r.2 == Bound::Upper <==> r.1 is None),
            !r.3 && r.1 is Some ==> moves@.contains(r.1->0) && r.0 > alpha,
        decreases MAX_PLY - ply, 0int,
    {
        let ghost alpha0 = alpha;
        let ghost best0 = best_value;
        let mut alpha = alpha;
        let mut best_value = best_value;
        let mut tried: Vec<bool> = Vec::new();
        let n = moves.len();
        let mut k: usize = 0;
        while k < n
            invariant
                n == moves@.len(),
                k <= n,
                tried@.len() == k,
            decreases n - k,
        {
            tried.push(false);
            k = k + 1;
        }
        let mut tt_flag = Bound::Upper;
        let mut best_move: Option<Move> = None;
        let ghost start = *board;
        let mut done = false;
        let mut count: usize = 0;
        while count < n && !done
            invariant
                n == moves@.len(),
                count <= n,
                self.wf(),
                board.wf(),
                board.same_position(&start),
                start == *old(board),
                start.wf(),
                start.push_ready_spec(),
                moves_playable(start, moves@),
                forall|i: int| 0 <= i < moves@.len() && scores_capture(#[trigger] moves@[i], hash_move) ==> start.squares()[moves@[i].to_idx()] is Some
                    && start.squares()[moves@[i].from_idx()] is Some,
                !in_check ==> forall|i: int| 0 <= i < moves@.len() ==> (#[trigger] moves@[i]).flag_code() >= 4,
                scores@.len() == moves@.len(),
                tried@.len() == moves@.len(),
                ply < MAX_PLY - 1,
                -VALUE_BOUND <= alpha <= VALUE_BOUND,
                -VALUE_BOUND <= beta <= VALUE_BOUND,
                -VALUE_BOUND <= best_value <= VALUE_BOUND,
                -VALUE_BOUND <= static_eval <= VALUE_BOUND,
                eval_ok(eval),
                n == 0 ==> best_value == best0 && best_move is None && tt_flag == Bound::Upper,
                best_value >= best0,
                alpha >= alpha0,
                tt_flag == Bound::Lower ==> best_value >= beta,
                tt_flag == Bound::Upper <==> best_move is None,
                best_move is Some ==> moves@.contains(best_move->0) && best_value > alpha0,
            decreases n - count,
        {
            count = count + 1;
            let pick = next_best(scores, &tried);
            match pick {
                None => {
                    done = true;
                },
                Some(i) => {
                    tried.set(i, true);
                    let m = *moves.get(i).unwrap();
                    proof {
                        lemma_same_position_facts(*board, start);
                    }
                    let searchable = in_check || {
                        proof {
                            assert(reversible(start.squares(), start.side(), m));
                            assert(m.flag_code() >= 4);
                        }
                        Search::q_searchable(board, m, static_eval, alpha)
                    };
                    if searchable {
                        proof {
                            lemma_same_position_rules(*board, start);
                            assert(reversible(start.squares(), start.side(), m));
                        }
                        let ghost before = *board;
                        let value = self.q_child(board, m, alpha, beta, ply, eval);
                        proof {
                            lemma_same_position_trans(*board, before, start);
                        }
                        if self.timer.is_stopped() {
                            return (0, best_move, tt_flag, true);
                        }
                        if value > best_value {
                            best_value = value;
                            if value > alpha {
                                best_move = Some(m);
                                if is_pv {
                                    self.pv_table.update_pv(m, ply);
                                }
                                if value >= beta {
                                    tt_flag = Bound::Lower;
                                    done = true;
                                } else {
                                    tt_flag = Bound::Exact;
                                    alpha = value;
                                }
                            }
                        }
                    }
                },
            }
        }
        (best_value, best_move, tt_flag, false)
    }


    /// Plays `m`, searches the reply in quiescence with the window turned round, and takes the
    /// move back; the value is from this side's view.
    fn q_child<E: Fn(&Board) -> i32>(&mut self, board: &mut Board, m: Move, alpha: i32, beta: i32, ply: usize, eval: &E) -> (r: i32)
        requires
            old(self).wf(),
            old(board).wf(),
            old(board).push_ready_spec(),
            reversible(old(board).squares(), old(board).side(), m),
            ply < MAX_PLY - 1,
            -VALUE_BOUND <= alpha <= VALUE_BOUND,
            -VALUE_BOUND <= beta <= VALUE_BOUND,
            eval_ok(eval),
        ensures
            final(self).wf(),
            final(board).wf(),
            final(board).same_position(&*old(board)),
            -VALUE_BOUND <= r <= VALUE_BOUND,
            exists|b1: Board| #[trigger] Board::pushed(*old(board), b1, m) && (!b1.push_ready_spec() ==> evaluates(eval, b1, -r)),
        decreases MAX_PLY - ply - 1, 2int,
    {
        let ghost before = *board;
        proof {
            lemma_pop_after_push(board.squares(), board.side(), m, board.mat_hash());
        }
        board.push(m);
        let ghost b1 = *board;
        let v = self.q_search(board, -beta, -alpha, ply + 1, eval);
        proof {
            if !b1.push_ready_spec() {
                assert(b1.same_position(&b1) && call_ensures(*eval, (&b1,), v));
                assert(evaluates(eval, b1, v as int));
            }
        }
        let value = -v;
        let ghost b1x = *board;
        proof {
            lemma_same_position_facts(b1x, b1);
            assert(b1x.current().moov == Some(m));
            assert(b1x.squares() == b1.squares());
            assert(b1x.side().other() == before.side());
            assert(b1x.current().captured == b1.current().captured);
            before.lemma_ply_nonneg();
            assert(b1x.ply_spec() >= 1);
        }
        let r = board.pop();
        proof {
            lemma_push_search_pop(before, b1, b1x, *board, m, r);
        }
        value
    }


    /// The depth `d` as an `i8`, held to the range that the table stores.
    fn to_i8(d: i32) -> (r: i8)
        ensures
            -126 <= r <= 127,
            -126 <= d <= 127 ==> r == d,
            d > 127 ==> r == 127,
            d < -126 ==> r == -126,
    {
        if d < -126 {
            -126
        } else if d > 127 {
            127
        } else {
            d as i8
        }
    }

    /// The late move reduction at depth `depth` for the `move_index`-th move.
    fn late_move_reduction(&self, depth: i32, move_index: usize) -> (r: i8)
        requires
            self.wf(),
            depth >= 0,
        ensures
            r >= 0,
            ({
                let v = self.lmr_table@[(if depth > 63 { 63 } else { depth as int }) * 64 + (if move_index > 63 {
                    63
                } else {
                    move_index as int
                })];
                r == (if v < 0 { 0 } else { v })
            }),
    {
        let d: usize = if depth > 63 {
            63
        } else {
            depth as usize
        };
        let i: usize = if move_index > 63 {
            63
        } else {
            move_index
        };
        let r = self.lmr_table[d * 64 + i];
        if r < 0 {
            0
        } else {
            r
        }
    }

    /// Principal variation search of `board` in the window `alpha..beta`, `depth` plies deep and
    /// `ply` plies from the root: mate distance pruning, the transposition table, reverse
    /// futility pruning, null moves, internal iterative deepening, futility pruning, singular
    /// extensions and late move reductions, with quiescence search at the horizon. The board
    /// comes back as it was.
    #[verifier::rlimit(50)]
    pub fn search<E: Fn(&Board) -> i32>(&mut self, board: &mut Board, depth: i32, alpha: i32, beta: i32, ply: usize, eval: &E) -> (r: i32)
        requires
            old(self).wf(),
            old(board).wf(),
            ply < MAX_PLY,
            -200 <= depth <= 400 + ply,
            -VALUE_BOUND <= alpha <= VALUE_BOUND,
            -VALUE_BOUND <= beta <= VALUE_BOUND,
            eval_ok(eval),
        ensures
            final(self).wf(),
            final(board).wf(),
            final(board).same_position(&*old(board)),
            -VALUE_BOUND <= r <= VALUE_BOUND,
            !old(board).push_ready_spec() ==> call_ensures(*eval, (&*old(board),), r),
            ({
                let (a, b) = Search::mate_window(alpha, beta, ply);
                old(board).push_ready_spec() && ply < MAX_PLY - 1 ==> (if a >= b {
                    r == a
                } else {
                    old(board).draw_spec() ==> r == 0
                })
            }),
            Search::reaches_table(*old(board), depth, alpha, beta, ply) ==> match old(self).tt_entry_spec(*old(board), ply as int) {
                Some((d, code, v)) => code == 0 && d >= depth + 1 && Search::mate_window(alpha, beta, ply).0
                    == Search::mate_window(alpha, beta, ply).1 - 1 && old(self).excluded_at(ply as int) is None ==> (r == 0 || r == v),
                None => true,
            },
        decreases MAX_PLY - ply, 4 * depth + 1200,
    {
        let ghost b0 = *board;
        let ghost dp: int = depth as int;
        if !board.push_ready() {
            return eval(board);
        }
        if ply >= MAX_PLY - 1 {
            return self.q_search(board, alpha, beta, ply, eval);
        }
        self.pv_table.clear_line(ply);
        if ply > self.sel_depth {
            self.sel_depth = ply;
        }
        let mate_value = MATE - (ply as i32);
        let (alpha, beta) = mate_distance_window(alpha, beta, ply);
        let mut alpha = alpha;
        let mut beta = beta;
        if alpha >= beta {
            return alpha;
        }
        let in_check = board.in_check();
        let mut depth = depth;
        if in_check {
            depth = depth + 1;
        }
        if depth <= 0 {
            return self.q_search(board, alpha, beta, ply, eval);
        }
        if self.timer.stop_check() {
            return 0;
        }
        if board.is_draw() {
            return 0;
        }
        let is_pv = alpha != beta - 1;
        let excluded_move = self.excluded_moves[ply];
        let tt_entry = self.tt.get(board, ply);
        match tt_entry {
            Some(e) => {
                if e.depth() as i32 >= depth && !is_pv && excluded_move.is_none() {
                    let tt_value = e.value();
                    match e.bound() {
                        Bound::Exact => return tt_value,
                        Bound::Lower => {
                            if tt_value > alpha {
                                alpha = tt_value;
                            }
                        },
                        Bound::Upper => {
                            if tt_value < beta {
                                beta = tt_value;
                            }
                        },
                    }
                    if alpha >= beta {
                        return tt_value;
                    }
                }
            },
            None => {},
        }
        self.search_body(board, depth, alpha, beta, ply, in_check, is_pv, excluded_move, tt_entry, mate_value, eval, Ghost(dp))
    }

    /// The value of a node once its moves are searched, from what the stop check said, the
    /// best value found, whether there was no move to play, the move excluded by a singular
    /// search and whether the side to move is in check: what was found when the search
    /// stopped; else, with no move and none excluded, a loss by mate `mate_value` plies deep
    /// when in check and a draw when not; else the best value.
    pub fn node_value(
        stopped: bool,
        best_value: i32,
        no_move: bool,
        excluded_move: Option<Move>,
        in_check: bool,
        mate_value: i32,
    ) -> (r: i32)
        requires
            mate_value > i32::MIN,
        ensures
            r == if stopped {
                best_value as int
            } else if no_move && excluded_move is None {
                if in_check {
                    -mate_value
                } else {
                    0
                }
            } else {
                best_value as int
            },
    {
        if stopped {
            best_value
        } else if no_move && excluded_move.is_none() {
            if in_check {
                -mate_value
            } else {
                0
            }
        } else {
            best_value
        }
    }

    /// The part of `search` after the transposition table: the static evaluation and the
    /// pruning it allows, internal iterative deepening, the moves, and the table entry.
    #[verifier::rlimit(50)]
    fn search_body<E: Fn(&Board) -> i32>(
        &mut self,
        board: &mut Board,
        depth: i32,
        alpha: i32,
        beta: i32,
        ply: usize,
        in_check: bool,
        is_pv: bool,
        excluded_move: Option<Move>,
        tt_entry: Option<TTEntry>,
        mate_value: i32,
        eval: &E,
        Ghost(dp): Ghost<int>,
    ) -> (r: i32)
        requires
            old(self).wf(),
            old(board).wf(),
            old(board).push_ready_spec(),
            in_check ==> old(board).has_king(old(board).side()),
            ply < MAX_PLY - 1,
            1 <= depth <= dp + 1,
            !in_check ==> depth <= dp,
            -200 <= dp <= 400 + ply,
            -VALUE_BOUND <= alpha < beta,
            -VALUE_BOUND <= beta <= VALUE_BOUND,
            mate_value == MATE - ply,
            eval_ok(eval),
        ensures
            final(self).wf(),
            final(board).wf(),
            final(board).same_position(&*old(board)),
            -VALUE_BOUND <= r <= VALUE_BOUND,
            !in_check ==> exists|v: i32| #[trigger] call_ensures(*eval, (&*old(board),), v) && (Search::rfp_cuts(
                depth,
                in_check,
                is_pv,
                beta,
                excluded_move,
                v as int,
            ) ==> r == v),
        decreases MAX_PLY - ply, 4 * dp + 1199,
    {
        let ghost entry = *board;
        let mut depth = depth;
        let mut alpha = alpha;
        let pruned = self.prune(board, depth, beta, ply, in_check, is_pv, excluded_move, eval, Ghost(dp));
        let static_eval = match pruned {
            Ok(v) => v,
            Err(v) => return v,
        };
        proof {
            if !in_check {
                let v = choose|v: i32| #[trigger] call_ensures(*eval, (&entry,), v) && (pruned is Ok ==> pruned->Ok_0 == v) && (
                Search::rfp_cuts(depth, in_check, is_pv, beta, excluded_move, v as int) ==> pruned == Err::<i32, i32>(v));
                assert(!Search::rfp_cuts(depth, in_check, is_pv, beta, excluded_move, v as int));
                assert(v == static_eval);
            }
        }
        proof {
            lemma_same_position_facts(*board, entry);
            lemma_same_position_rules(*board, entry);
        }
        let ghost mid = *board;
        if can_apply_iid(tt_entry, Search::to_i8(depth)) {
            depth = depth - IID_DEPTH_REDUCTION as i32;
        }
        let d8 = Search::to_i8(depth);
        let futile = can_apply_futility(d8, in_check, is_pv, alpha, excluded_move) && static_eval + futility_margin(d8)
            <= alpha;
        let moves = MoveList::from::<false>(board);
        let hash_move = match tt_entry {
            Some(e) => e.best_move(),
            None => None,
        };
        proof {
            lemma_generated_playable(*board, moves@, false, hash_move);
        }
        let scores = self.scorer.score_moves(&moves, board, ply, hash_move);
        let (best_value, best_move, tt_flag, stopped) = self.s_moves(
            board,
            &moves,
            &scores,
            hash_move,
            tt_entry,
            excluded_move,
            futile,
            depth,
            alpha,
            beta,
            ply,
            is_pv,
            eval,
            Ghost(dp),
        );
        proof {
            lemma_same_position_trans(*board, mid, entry);
        }
        let no_move_played = moves.len() == 0;
        let best_value = Search::node_value(stopped, best_value, no_move_played, excluded_move, in_check, mate_value);
        if stopped {
            return best_value;
        }
        if !self.timer.is_stopped() && excluded_move.is_none() {
            let mut chosen = best_move;
            if chosen.is_none() {
                chosen = match self.tt.get(board, ply) {
                    Some(e) => e.best_move(),
                    None => None,
                };
            }
            if chosen.is_none() && moves.len() > 0 {
                chosen = Some(*moves.get(0).unwrap());
            }
            self.tt.insert(board, Search::to_i8(depth), best_value, chosen, tt_flag, ply);
        }
        best_value
    }


    /// The moves of a node, best scored first, skipping the excluded move and, in a futile
    /// node, quiet moves after the first: each is extended when singular, searched with a
    /// null window and a reduction when late, and raises the best value, the bound and the
    /// principal variation until one reaches `beta`, which then feeds the killer, history and
    /// counter tables. The last flag tells that the node's value is the first one, as when the
    /// search stopped or a singular search proved the node.
    fn s_moves<E: Fn(&Board) -> i32>(
        &mut self,
        board: &mut Board,
        moves: &MoveList,
        scores: &Vec<i32>,
        hash_move: Option<Move>,
        tt_entry: Option<TTEntry>,
        excluded_move: Option<Move>,
        futile: bool,
        depth: i32,
        alpha: i32,
        beta: i32,
        ply: usize,
        is_pv: bool,
        eval: &E,
        Ghost(dp): Ghost<int>,
    ) -> (r: (i32, Option<Move>, Bound, bool))
        requires
            old(self).wf(),
            old(board).wf(),
            old(board).push_ready_spec(),
            moves_playable(*old(board), moves@),
            scores@.len() == moves@.len(),
            ply < MAX_PLY - 1,
            1 <= depth <= dp + 1,
            -200 <= dp <= 400 + ply,
            -VALUE_BOUND <= alpha < beta,
            -VALUE_BOUND <= beta <= VALUE_BOUND,
            eval_ok(eval),
        ensures
            final(self).wf(),
            final(board).wf(),
            final(board).same_position(&*old(board)),
            -VALUE_BOUND <= r.0 <= VALUE_BOUND,
            moves@.len() == 0 ==> r == ((-MATE) as i32, None::<Move>, Bound::Upper, false),
            !r.3 ==> r.0 >= -MATE,
            !r.3 && r.2 == Bound::Lower ==> r.0 >= beta,
            !r.3 ==> (r.2 == Bound::Upper <==> r.1 is None),
            !r.3 && r.1 is Some ==> moves@.contains(r.1->0) && r.0 > alpha,
        decreases MAX_PLY - ply, 4 * dp + 1198,
    {
        let ghost alpha0 = alpha;
        let mut alpha = alpha;
        let mut tried: Vec<bool> = Vec::new();
        let n = moves.len();
        let mut k: usize = 0;
        while k < n
            invariant
                n == moves@.len(),
                k <= n,
                tried@.len() == k,
            decreases n - k,
        {
            tried.push(false);
            k = k + 1;
        }
        let mut tt_flag = Bound::Upper;
        let mut best_move: Option<Move> = None;
        let mut best_value: i32 = -MATE;
        let ghost start = *board;
        let mut done = false;
        let mut count: usize = 0;
        let d8 = Search::to_i8(depth);
        while count < n && !done
            invariant
                n == moves@.len(),
                count <= n,
                self.wf(),
                board.wf(),
                board.same_position(&start),
                start == *old(board),
                start.wf(),
                start.push_ready_spec(),
                moves_playable(start, moves@),
                scores@.len() == moves@.len(),
                tried@.len() == moves@.len(),
                ply < MAX_PLY - 1,
                1 <= depth <= dp + 1,
                depth > 127 ==> d8 == 127,
                depth <= 127 ==> d8 == depth,
                -200 <= dp <= 400 + ply,
                -VALUE_BOUND <= alpha < beta,
                -VALUE_BOUND <= beta <= VALUE_BOUND,
                -VALUE_BOUND <= best_value <= VALUE_BOUND,
                eval_ok(eval),
                n == 0 ==> best_value == -MATE && best_move is None && tt_flag == Bound::Upper,
                best_value >= -MATE,
                alpha >= alpha0,
                tt_flag == Bound::Lower ==> best_value >= beta,
                tt_flag == Bound::Upper <==> best_move is None,
                best_move is Some ==> moves@.contains(best_move->0) && best_value > alpha0,
            decreases n - count,
        {
            let idx = count;
            count = count + 1;
            let pick = next_best(scores, &tried);
            match pick {
                None => {
                    done = true;
                },
                Some(i) => {
                    tried.set(i, true);
                    let m = *moves.get(i).unwrap();
                    if searchable(m, idx, futile, excluded_move) {
                        let mut extension: i32 = 0;
                        match tt_entry {
                            Some(e) => {
                                if can_singular_extend(e, m, d8, excluded_move) {
                                    let ghost before = *board;
                                    match self.singular_extension(board, e, m, depth, beta, ply, eval, Ghost(dp)) {
                                        ControlFlow::Continue(x) => {
                                            extension = x;
                                        },
                                        ControlFlow::Break(v) => {
                                            proof {
                                                lemma_same_position_trans(*board, before, start);
                                            }
                                            return (v, best_move, tt_flag, true);
                                        },
                                    }
                                    proof {
                                        lemma_same_position_trans(*board, before, start);
                                    }
                                }
                            },
                            None => {},
                        }
                        proof {
                            lemma_same_position_facts(*board, start);
                            lemma_same_position_rules(*board, start);
                            assert(reversible(start.squares(), start.side(), m));
                        }
                        let ghost before = *board;
                        let value = if idx == 0 {
                            self.play_child(board, m, depth + extension - 1, 0, alpha, beta, ply, true, eval)
                        } else {
                            let reduction: i32 = if can_apply_lmr(m, d8, idx) {
                                self.late_move_reduction(depth, idx) as i32
                            } else {
                                0
                            };
                            self.play_child(board, m, depth + extension, reduction, alpha, beta, ply, false, eval)
                        };
                        proof {
                            lemma_same_position_trans(*board, before, start);
                        }
                        if self.timer.is_stopped() {
                            return (0, best_move, tt_flag, true);
                        }
                        if value > best_value {
                            best_value = value;
                            if value > alpha {
                                best_move = Some(m);
                                if is_pv {
                                    self.pv_table.update_pv(m, ply);
                                }
                                if value >= beta {
                                    if m.is_quiet() {
                                        self.scorer.add_killer(m, ply);
                                        self.scorer.add_history(m, board.ctm(), d8);
                                        match board.peek() {
                                            Some(p) => self.scorer.add_counter(p, m),
                                            None => {},
                                        }
                                    }
                                    tt_flag = Bound::Lower;
                                    done = true;
                                } else {
                                    tt_flag = Bound::Exact;
                                    alpha = value;
                                }
                            }
                        }
                    }
                },
            }
        }
        (best_value, best_move, tt_flag, false)
    }

    /// Plays `m`, searches the reply `depth` plies deep with the window turned round (the first
    /// move of a node in full, a later one by `pvs_child`), and takes the move back; the value
    /// is from this side's view.
    fn play_child<E: Fn(&Board) -> i32>(
        &mut self,
        board: &mut Board,
        m: Move,
        depth: i32,
        reduction: i32,
        alpha: i32,
        beta: i32,
        ply: usize,
        first: bool,
        eval: &E,
    ) -> (r: i32)
        requires
            old(self).wf(),
            old(board).wf(),
            old(board).push_ready_spec(),
            reversible(old(board).squares(), old(board).side(), m),
            ply < MAX_PLY - 1,
            -130 <= depth <= 402 + ply,
            first ==> depth <= 401 + ply,
            0 <= reduction <= 127,
            -VALUE_BOUND <= alpha < VALUE_BOUND,
            -VALUE_BOUND <= beta <= VALUE_BOUND,
            eval_ok(eval),
        ensures
            final(self).wf(),
            final(board).wf(),
            final(board).same_position(&*old(board)),
            -VALUE_BOUND <= r <= VALUE_BOUND,
            exists|b1: Board| #[trigger] Board::pushed(*old(board), b1, m) && (!b1.push_ready_spec() ==> evaluates(eval, b1, -r)),
        decreases MAX_PLY - ply - 1, 5001int,
    {
        let ghost before = *board;
        proof {
            lemma_pop_after_push(board.squares(), board.side(), m, board.mat_hash());
        }
        board.push(m);
        let ghost b1 = *board;
        let value = if first {
            let v = self.search(board, depth, -beta, -alpha, ply + 1, eval);
            proof {
                if !b1.push_ready_spec() {
                    assert(b1.same_position(&b1) && call_ensures(*eval, (&b1,), v));
                    assert(evaluates(eval, b1, v as int));
                }
            }
            -v
        } else {
            self.pvs_child(board, depth, reduction, alpha, beta, ply, eval)
        };
        let ghost b1x = *board;
        proof {
            lemma_same_position_facts(b1x, b1);
            before.lemma_ply_nonneg();
        }
        let r = board.pop();
        proof {
            lemma_push_search_pop(before, b1, b1x, *board, m, r);
        }
        value
    }

    /// The value of a later move, already played: a null window search first, reduced by
    /// `reduction`, and a full window search when it clears `alpha`; a reduced search that
    /// clears `alpha` is searched again without the reduction.
    fn pvs_child<E: Fn(&Board) -> i32>(
        &mut self,
        board: &mut Board,
        depth: i32,
        reduction: i32,
        alpha: i32,
        beta: i32,
        ply: usize,
        eval: &E,
    ) -> (r: i32)
        requires
            old(self).wf(),
            old(board).wf(),
            ply < MAX_PLY - 1,
            -130 <= depth <= 402 + ply,
            0 <= reduction <= 127,
            -VALUE_BOUND <= alpha < VALUE_BOUND,
            -VALUE_BOUND <= beta <= VALUE_BOUND,
            eval_ok(eval),
        ensures
            final(self).wf(),
            final(board).wf(),
            final(board).same_position(&*old(board)),
            -VALUE_BOUND <= r <= VALUE_BOUND,
            !old(board).push_ready_spec() ==> evaluates(eval, *old(board), -r),
        decreases MAX_PLY - ply - 1, 5000int,
    {
        let ghost start = *board;
        let mut reduction = reduction;
        let mut value: i32;
        loop
            invariant
                self.wf(),
                board.wf(),
                board.same_position(&start),
                start == *old(board),
                start.wf(),
                ply < MAX_PLY - 1,
                -130 <= depth <= 402 + ply,
                0 <= reduction <= 127,
                -VALUE_BOUND <= alpha < VALUE_BOUND,
                -VALUE_BOUND <= beta <= VALUE_BOUND,
                eval_ok(eval),
            ensures
                -VALUE_BOUND <= value <= VALUE_BOUND,
                board.wf(),
                self.wf(),
                board.same_position(&start),
                !start.push_ready_spec() ==> evaluates(eval, start, -value),
            decreases (if reduction > 0 { 1int } else { 0int }),
        {
            let child_depth = depth - reduction - 1;
            let child_depth = if child_depth < -200 {
                -200
            } else {
                child_depth
            };
            let ghost before = *board;
            let v = self.search(board, child_depth, -alpha - 1, -alpha, ply + 1, eval);
            value = -v;
            proof {
                lemma_same_position_trans(*board, before, start);
                lemma_same_position_facts(before, start);
                lemma_same_position_rules(before, start);
                if !start.push_ready_spec() {
                    assert(before.same_position(&start) && call_ensures(*eval, (&before,), v));
                    assert(evaluates(eval, start, v as int));
                }
            }
            if value > alpha {
                let ghost before2 = *board;
                let v2 = self.search(board, child_depth, -beta, -alpha, ply + 1, eval);
                value = -v2;
                proof {
                    lemma_same_position_trans(*board, before2, start);
                    lemma_same_position_trans(before2, before2, start);
                    lemma_same_position_facts(before2, start);
                    lemma_same_position_rules(before2, start);
                    if !start.push_ready_spec() {
                        assert(before2.same_position(&start) && call_ensures(*eval, (&before2,), v2));
                        assert(evaluates(eval, start, v2 as int));
                    }
                }
            }
            if reduction > 0 && value > alpha {
                reduction = 0;
            } else {
                break;
            }
        }
        value
    }

    /// The singular extension of the table's move `m`: a search of the node without `m`, at
    /// half the depth and just below the table's value less twice the depth, tells whether `m`
    /// alone holds the value. It is extended by a ply when it does; the node is cut off when
    /// even the other moves reach `beta`; it is reduced when the table's value reaches
    /// `beta`.
    fn singular_extension<E: Fn(&Board) -> i32>(
        &mut self,
        board: &mut Board,
        entry: TTEntry,
        m: Move,
        depth: i32,
        beta: i32,
        ply: usize,
        eval: &E,
        Ghost(dp): Ghost<int>,
    ) -> (r: ControlFlow<i32, i32>)
        requires
            old(self).wf(),
            old(board).wf(),
            ply < MAX_PLY - 1,
            4 <= depth <= dp + 1,
            -200 <= dp <= 400 + ply,
            -VALUE_BOUND <= beta <= VALUE_BOUND,
            eval_ok(eval),
        ensures
            final(self).wf(),
            final(board).wf(),
            final(board).same_position(&*old(board)),
            r matches ControlFlow::Continue(x) ==> -1 <= x <= 1,
            r matches ControlFlow::Break(v) ==> -VALUE_BOUND <= v <= VALUE_BOUND,
        decreases MAX_PLY - ply, 4 * depth + 1190,
    {
        let v = entry.value();
        let target = v - 2 * depth;
        self.excluded_moves.set(ply, Some(m));
        let value = self.search(board, (depth - 1) / 2, target - 1, target, ply, eval);
        self.excluded_moves.set(ply, None);
        if self.timer.is_stopped() {
            return ControlFlow::Break(0);
        }
        if value < target {
            return ControlFlow::Continue(1);
        }
        if target >= beta {
            return ControlFlow::Break(target);
        }
        if v >= beta {
            return ControlFlow::Continue(-1);
        }
        ControlFlow::Continue(0)
    }


    /// The static evaluation of the node, and the pruning it allows before any move: reverse
    /// futility pruning, and a null move search. `Err` holds the value of a pruned node,
    /// `Ok` the static evaluation (`-MATE` in check).
    fn prune<E: Fn(&Board) -> i32>(
        &mut self,
        board: &mut Board,
        depth: i32,
        beta: i32,
        ply: usize,
        in_check: bool,
        is_pv: bool,
        excluded_move: Option<Move>,
        eval: &E,
        Ghost(dp): Ghost<int>,
    ) -> (r: Result<i32, i32>)
        requires
            old(self).wf(),
            old(board).wf(),
            old(board).push_ready_spec(),
            ply < MAX_PLY - 1,
            1 <= depth <= dp + 1,
            !in_check ==> depth <= dp,
            -200 <= dp <= 400 + ply,
            -VALUE_BOUND < beta <= VALUE_BOUND,
            eval_ok(eval),
        ensures
            final(self).wf(),
            final(board).wf(),
            final(board).same_position(&*old(board)),
            r matches Ok(v) ==> -VALUE_BOUND <= v <= VALUE_BOUND,
            r matches Err(v) ==> -VALUE_BOUND <= v <= VALUE_BOUND,
            in_check ==> r == Ok::<i32, i32>((-MATE) as i32),
            !in_check ==> exists|v: i32| #[trigger] call_ensures(*eval, (&*old(board),), v) && (r is Ok ==> r->Ok_0 == v) && (
            Search::rfp_cuts(depth, in_check, is_pv, beta, excluded_move, v as int) ==> r == Err::<i32, i32>(v)),
        decreases MAX_PLY - ply, 4 * dp + 1197,
    {
        let static_eval = if in_check {
            -MATE
        } else {
            eval(board)
        };
        proof {
            if !in_check {
                assert(call_ensures(*eval, (&*old(board),), static_eval));
            }
        }
        self.eval_stack.set(ply, static_eval);
        let improving = if !in_check && ply >= 2 {
            let mut prev = self.eval_stack[ply - 2];
            if prev == -MATE && ply >= 4 {
                prev = self.eval_stack[ply - 4];
            }
            static_eval > prev
        } else {
            false
        };
        let d8 = Search::to_i8(depth);
        if can_apply_rfp(d8, in_check, is_pv, beta, excluded_move) && static_eval - rfp_margin(d8, improving) >= beta {
            return Err(static_eval);
        }
        if can_apply_null(board, d8, beta, static_eval, in_check, is_pv, excluded_move) {
            let r = null_reduction(d8) as i32;
            let ghost before = *board;
            board.push_null();
            let ghost b1 = *board;
            let value = -self.search(board, depth - r - 1, -beta, -beta + 1, ply, eval);
            let ghost b1x = *board;
            proof {
                lemma_same_position_facts(b1x, b1);
                before.lemma_ply_nonneg();
            }
            board.pop_null();
            proof {
                lemma_null_search_pop(before, b1, b1x, *board);
            }
            self.eval_stack.set(ply, static_eval);
            if self.timer.is_stopped() {
                return Err(0);
            }
            if value >= beta {
                return Err(value);
            }
        }
        Ok(static_eval)
    }


    /// The moves of the root lines.
    pub open spec fn line_moves(lines: Seq<RootMove>) -> Seq<Move> {
        Seq::new(lines.len(), |i: int| lines[i].m)
    }

    /// Whether every line starts with a move that may be played on `b`.
    pub open spec fn lines_playable(b: Board, lines: Seq<RootMove>) -> bool {
        &&& b.wf()
        &&& b.push_ready_spec()
        &&& forall|i: int| 0 <= i < lines.len() ==> #[trigger] reversible(b.squares(), b.side(), lines[i].m)
        &&& forall|i: int| 0 <= i < lines.len() ==> b.generated_ok(#[trigger] lines[i].m)
    }

    /// The legal moves of `board` as root lines, in the order of the move scores, the table's
    /// move first; none when the board cannot be played on.
    #[verifier::rlimit(30)]
    pub fn root_moves(&mut self, board: &Board) -> (r: Vec<RootMove>)
        requires
            old(self).wf(),
            board.wf(),
        ensures
            final(self).wf(),
            Search::lines_playable(*board, r@) || r@.len() == 0,
            forall|i: int| 0 <= i < r@.len() ==> (#[trigger] r@[i]).value == -MATE && r@[i].pv@.len() == 0,
            !board.push_ready_spec() ==> r@.len() == 0,
            board.push_ready_spec() && (exists|t: int| #[trigger] board.safe_king_step(t)) ==> r@.len() > 0,
    {
        let mut lines: Vec<RootMove> = Vec::new();
        if !board.push_ready() {
            return lines;
        }
        let moves = MoveList::from::<false>(board);
        let hash_move = match self.tt.get(board, 0) {
            Some(e) => e.best_move(),
            None => None,
        };
        proof {
            lemma_generated_playable(*board, moves@, false, hash_move);
        }
        let scores = self.scorer.score_moves(&moves, board, 0, hash_move);
        let mut tried: Vec<bool> = Vec::new();
        let n = moves.len();
        let mut k: usize = 0;
        while k < n
            invariant
                n == moves@.len(),
                k <= n,
                tried@.len() == k,
                forall|j: int| 0 <= j < k ==> !(#[trigger] tried@[j]),
            decreases n - k,
        {
            tried.push(false);
            k = k + 1;
        }
        proof {
            if board.push_ready_spec() && (exists|t: int| #[trigger] board.safe_king_step(t)) {
                let t = choose|t: int| #[trigger] board.safe_king_step(t);
                assert(exists|i: int| 0 <= i < moves@.len() && is_move(moves@[i], board.lowest_king(board.side()), t, board.step_flag(t)));
            }
        }
        let mut count: usize = 0;
        while count < n
            invariant
                n == moves@.len(),
                count <= n,
                scores@.len() == n,
                tried@.len() == n,
                board.wf(),
                board.push_ready_spec(),
                moves_playable(*board, moves@),
                board.appended_ok(Seq::empty(), moves@, false),
                lines@.len() <= count,
                forall|i: int| 0 <= i < lines@.len() ==> #[trigger] reversible(board.squares(), board.side(), lines@[i].m),
                forall|i: int| 0 <= i < lines@.len() ==> board.generated_ok(#[trigger] lines@[i].m),
                forall|i: int| 0 <= i < lines@.len() ==> (#[trigger] lines@[i]).value == -MATE && lines@[i].pv@.len() == 0,
                count == 0 ==> forall|j: int| 0 <= j < n ==> !(#[trigger] tried@[j]),
                count > 0 && n > 0 ==> lines@.len() > 0,
            decreases n - count,
        {
            let ghost first = count == 0;
            count = count + 1;
            match next_best(&scores, &tried) {
                Some(i) => {
                    tried.set(i, true);
                    let m = *moves.get(i).unwrap();
                    assert(reversible(board.squares(), board.side(), moves@[i as int]));
                    assert(board.generated_ok(moves@[i as int]));
                    lines.push(RootMove::new(m));
                },
                None => {
                    proof {
                        if first && n > 0 {
                            assert(tried@[0]);
                        }
                    }
                },
            }
        }
        lines
    }

    /// A copy of the moves of `v`.
    fn copy_moves(v: &Vec<Move>) -> (r: Vec<Move>)
        ensures
            r@ == v@,
    {
        let mut out: Vec<Move> = Vec::new();
        let mut i: usize = 0;
        while i < v.len()
            invariant
                i <= v@.len(),
                out@ == v@.subrange(0, i as int),
            decreases v@.len() - i,
        {
            out.push(v[i]);
            i = i + 1;
            assert(out@ =~= v@.subrange(0, i as int));
        }
        assert(v@.subrange(0, v@.len() as int) =~= v@);
        out
    }

    /// Searches the root lines from `start` on, `depth` plies deep in the window `alpha..beta`,
    /// and moves the best line to `start` with its new value, selective depth and principal
    /// variation (the old one when the search found none); the others keep their order. The
    /// result is the best value and its bound.
    pub fn search_root<E: Fn(&Board) -> i32>(
        &mut self,
        board: &mut Board,
        depth: i8,
        alpha: i32,
        beta: i32,
        lines: &mut Vec<RootMove>,
        start: usize,
        eval: &E,
    ) -> (r: (i32, Bound))
        requires
            old(self).wf(),
            Search::lines_playable(*old(board), old(lines)@),
            start < old(lines)@.len(),
            1 <= depth,
            -MATE <= alpha < beta <= MATE,
            eval_ok(eval),
        ensures
            final(self).wf(),
            final(board).wf(),
            final(board).same_position(&*old(board)),
            final(lines)@.len() == old(lines)@.len(),
            Search::lines_playable(*final(board), final(lines)@),
            -VALUE_BOUND <= r.0 <= VALUE_BOUND,
            final(lines)@[start as int].value == r.0,
            r.1 == Bound::Lower ==> r.0 >= beta,
            r.1 == Bound::Exact ==> alpha < r.0 < beta,
            r.1 == Bound::Upper ==> r.0 <= alpha,
            exists|i: int|
                #![trigger old(lines)@[i]]
                start <= i < old(lines)@.len() && final(lines)@[start as int].m == old(lines)@[i].m && final(lines)@
                    == old(lines)@.remove(i).insert(start as int, final(lines)@[start as int]),
    {
        let ghost b0 = *board;
        let ghost alpha0 = alpha;
        let mut alpha = alpha;
        self.pv_table.clear_all();
        let mut k: usize = 0;
        while k < MAX_PLY
            invariant
                k <= MAX_PLY,
                self.wf(),
            decreases MAX_PLY - k,
        {
            self.excluded_moves.set(k, None);
            k = k + 1;
        }
        let mut depth = depth as i32;
        let in_check = board.in_check();
        if in_check {
            depth = depth + 1;
        }
        let root_eval = if in_check {
            -MATE
        } else {
            eval(board)
        };
        self.eval_stack.set(0, root_eval);
        let mut best_idx = start;
        let mut best_value = -MATE;
        let mut tt_flag = Bound::Upper;
        let n = lines.len();
        let mut idx = start;
        let mut done = false;
        while idx < n && !done
            invariant
                self.wf(),
                board.wf(),
                board.same_position(&b0),
                b0.wf(),
                b0.push_ready_spec(),
                Search::lines_playable(b0, lines@),
                lines@ == old(lines)@,
                n == lines@.len(),
                start <= idx <= n,
                start <= best_idx < n,
                1 <= depth <= 128,
                -MATE <= alpha < beta <= MATE,
                -VALUE_BOUND <= best_value <= VALUE_BOUND,
                eval_ok(eval),
                alpha0 <= alpha,
                tt_flag == Bound::Lower ==> best_value >= beta,
                tt_flag == Bound::Exact ==> best_value == alpha && alpha0 < best_value < beta,
                tt_flag == Bound::Upper ==> best_value <= alpha0 && alpha == alpha0,
            decreases n - idx + (if done { 0int } else { 1int }),
        {
            let m = lines[idx].m;
            proof {
                lemma_same_position_facts(*board, b0);
                lemma_same_position_rules(*board, b0);
                assert(reversible(b0.squares(), b0.side(), lines@[idx as int].m));
            }
            let ghost before = *board;
            let value = if idx == start {
                self.play_child(board, m, depth - 1, 0, alpha, beta, 0, true, eval)
            } else {
                let v = self.play_child(board, m, depth, 0, alpha, beta, 0, false, eval);
                if v > alpha {
                    v
                } else {
                    -MATE
                }
            };
            proof {
                lemma_same_position_trans(*board, before, b0);
            }
            if self.timer.is_stopped() {
                done = true;
            } else {
                self.timer.update_node_table(m);
                if value > best_value {
                    best_value = value;
                    best_idx = idx;
                    if value > alpha {
                        self.pv_table.update_pv(m, 0);
                        if value >= beta {
                            tt_flag = Bound::Lower;
                            done = true;
                        } else {
                            alpha = value;
                            tt_flag = Bound::Exact;
                        }
                    }
                }
                idx = idx + 1;
            }
        }
        let pv = if self.pv_table.lines[0].len() == 0 {
            Search::copy_moves(&lines[best_idx].pv)
        } else {
            Search::copy_moves(&self.pv_table.lines[0])
        };
        let winner = RootMove { m: lines[best_idx].m, value: best_value, pv, sel_depth: self.sel_depth };
        proof {
            assert(reversible(b0.squares(), b0.side(), lines@[best_idx as int].m));
        }
        let ghost before_lines = lines@;
        let _old = lines.remove(best_idx);
        lines.insert(start, winner);
        proof {
            assert(lines@ == before_lines.remove(best_idx as int).insert(start as int, winner));
            assert(lines@[start as int] == winner);
        }
        proof {
            lemma_same_position_facts(*board, b0);
            lemma_same_position_rules(*board, b0);
            assert forall|i: int| 0 <= i < lines@.len() implies #[trigger] reversible(board.squares(), board.side(), lines@[i].m) by {
                if i < start {
                    assert(lines@[i] == old(lines)@[i]);
                } else if i == start {
                } else if i <= best_idx {
                    assert(lines@[i] == old(lines)@[i - 1]);
                } else {
                    assert(lines@[i] == old(lines)@[i]);
                }
            }
            assert forall|i: int| 0 <= i < lines@.len() implies board.generated_ok(#[trigger] lines@[i].m) by {
                if i < start {
                    assert(lines@[i] == old(lines)@[i]);
                } else if i == start {
                    assert(lines@[i].m == old(lines)@[best_idx as int].m);
                } else if i <= best_idx {
                    assert(lines@[i] == old(lines)@[i - 1]);
                } else {
                    assert(lines@[i] == old(lines)@[i]);
                }
                lemma_same_position_move(*board, b0, lines@[i].m);
            }
        }
        (best_value, tt_flag)
    }

    /// Searches the root lines from `start` on, `depth` plies deep, in a window around the
    /// line's last value that widens on each failure, from the fourth depth on; below it in
    /// the full window. The window gives up after sixty-four failures.
    pub fn aspiration<E: Fn(&Board) -> i32>(
        &mut self,
        board: &mut Board,
        depth: i8,
        lines: &mut Vec<RootMove>,
        start: usize,
        eval: &E,
    ) -> (r: (i32, Bound))
        requires
            old(self).wf(),
            Search::lines_playable(*old(board), old(lines)@),
            start < old(lines)@.len(),
            1 <= depth,
            eval_ok(eval),
        ensures
            final(self).wf(),
            final(board).wf(),
            final(board).same_position(&*old(board)),
            final(lines)@.len() == old(lines)@.len(),
            Search::lines_playable(*final(board), final(lines)@),
            -VALUE_BOUND <= r.0 <= VALUE_BOUND,
            final(lines)@[start as int].value == r.0,
    {
        if depth < ASPIRATION_MIN_DEPTH {
            return self.search_root(board, depth, -MATE, MATE, lines, start, eval);
        }
        let ghost b0 = *board;
        let pred = lines[start].value;
        let pred = if pred < -MATE {
            -MATE
        } else if pred > MATE {
            MATE
        } else {
            pred
        };
        let mut delta: i32 = ASPIRATION_WINDOW;
        let mut alpha = if pred - delta > -MATE {
            pred - delta
        } else {
            -MATE
        };
        let mut beta = if pred + delta < MATE {
            pred + delta
        } else {
            MATE
        };
        let mut tries: usize = 0;
        let mut result = (0i32, Bound::Upper);
        let mut done = false;
        while tries < 64 && !done
            invariant
                self.wf(),
                board.wf(),
                board.same_position(&b0),
                b0.wf(),
                Search::lines_playable(*board, lines@),
                lines@.len() == old(lines)@.len(),
                start < lines@.len(),
                1 <= depth,
                -MATE <= alpha < beta <= MATE,
                16 <= delta <= MATE,
                -VALUE_BOUND <= result.0 <= VALUE_BOUND,
                eval_ok(eval),
                tries > 0 ==> lines@[start as int].value == result.0,
                done ==> tries > 0,
            decreases 64 - tries,
        {
            tries = tries + 1;
            let ghost before = *board;
            let (value, bound) = self.search_root(board, depth, alpha, beta, lines, start, eval);
            proof {
                lemma_same_position_trans(*board, before, b0);
            }
            result = (value, bound);
            if self.timer.is_stopped() {
                done = true;
            } else if value <= alpha {
                alpha = if value - delta > -MATE {
                    value - delta
                } else {
                    -MATE
                };
            } else if value >= beta {
                beta = if value + delta < MATE {
                    value + delta
                } else {
                    MATE
                };
            } else {
                done = true;
            }
            if delta < MATE / 2 {
                delta = delta + delta / 2;
            }
        }
        result
    }


    /// Searches `board` deeper and deeper, from depth one up to depth 126, while the clock lets
    /// a depth start and until it stops the search: each depth searches the first `multi_pv`
    /// lines in turn, each in an aspiration window over the lines from its own on, stores the
    /// first line's result in the table, orders the lines by value and, in the main thread,
    /// hands each line to `report` with the board, the depth, its number when several lines
    /// are searched, the time spent in nanoseconds, the nodes and the table's fill. The depth
    /// may start within the budget that `scaled` gives (see `Timer::start_budget`). The main
    /// thread stops the clock at the end. The result is the best line's move, and the second
    /// move of its principal variation when that move may be played after the first; none
    /// when the board has no move or cannot be played on.
    pub fn go<E: Fn(&Board) -> i32, S: Fn(u64, u128, u128) -> u128, R: Fn(&Board, i8, &RootMove, Option<usize>, u128, u64, usize)>(
        &mut self,
        board: &mut Board,
        eval: &E,
        scaled: &S,
        report: &R,
    ) -> (r: (Option<Move>, Option<Move>))
        requires
            old(self).wf(),
            old(board).wf(),
            eval_ok(eval),
            forall|e: u64, t: u128, g: u128| #[trigger] call_requires(*scaled, (e, t, g)),
            forall|b: &Board, d: i8, l: &RootMove, p: Option<usize>, el: u128, n: u64, h: usize| #[trigger] call_requires(
                *report,
                (b, d, l, p, el, n, h),
            ),
        ensures
            final(self).wf(),
            final(board).wf(),
            final(board).same_position(&*old(board)),
            !old(board).push_ready_spec() ==> r == (None::<Move>, None::<Move>),
            old(board).push_ready_spec() && (exists|t: int| #[trigger] old(board).safe_king_step(t)) ==> r.0 is Some,
            r.0 matches Some(m) ==> reversible(old(board).squares(), old(board).side(), m) && old(board).generated_ok(m),
            r.1 matches Some(p) ==> (r.0 matches Some(m) && exists|a: Board, b1: Board|
                a.same_position(&*old(board)) && #[trigger] Board::pushed(a, b1, m) && b1.generated_ok(p)),
    {
        let ghost b0 = *board;
        let mut lines = self.root_moves(board);
        if lines.len() == 0 {
            return (None, None);
        }
        let multi_pv = if self.multi_pv < lines.len() {
            self.multi_pv
        } else {
            lines.len()
        };
        let mut depth: i8 = 1;
        let mut stopped = false;
        while depth < 127 && !stopped
            invariant
                self.wf(),
                board.wf(),
                board.same_position(&b0),
                b0.wf(),
                Search::lines_playable(*board, lines@),
                lines@.len() > 0,
                multi_pv <= lines@.len(),
                1 <= depth <= 127,
                eval_ok(eval),
                forall|e: u64, t: u128, g: u128| #[trigger] call_requires(*scaled, (e, t, g)),
                forall|b: &Board, d: i8, l: &RootMove, p: Option<usize>, el: u128, n: u64, h: usize| #[trigger] call_requires(
                    *report,
                    (b, d, l, p, el, n, h),
                ),
            decreases 127 - depth, (if stopped { 0int } else { 1int }),
        {
            let budget = self.timer.start_budget(lines[0].m, depth, scaled);
            if !self.timer.start_check(depth, budget) {
                stopped = true;
            } else {
                let mut pv_idx: usize = 0;
                while pv_idx < multi_pv && !stopped
                    invariant
                        self.wf(),
                        board.wf(),
                        board.same_position(&b0),
                        b0.wf(),
                        Search::lines_playable(*board, lines@),
                        lines@.len() > 0,
                        multi_pv <= lines@.len(),
                        pv_idx <= multi_pv,
                        1 <= depth < 127,
                        eval_ok(eval),
                    decreases multi_pv - pv_idx, (if stopped { 0int } else { 1int }),
                {
                    let ghost before = *board;
                    let (value, bound) = self.aspiration(board, depth, &mut lines, pv_idx, eval);
                    proof {
                        lemma_same_position_trans(*board, before, b0);
                    }
                    if self.timer.is_stopped() {
                        stopped = true;
                    } else {
                        if pv_idx == 0 {
                            self.tt.insert(board, depth, value, Some(lines[0].m), bound, 0);
                        }
                        self.sel_depth = 0;
                        pv_idx = pv_idx + 1;
                    }
                }
                if !stopped {
                    let ghost unsorted = lines@;
                    Search::sort_lines(&mut lines, multi_pv);
                    proof {
                        assert forall|t: int| 0 <= t < lines@.len() implies #[trigger] reversible(board.squares(), board.side(), lines@[t].m) by {
                            assert(unsorted.contains(lines@[t]));
                            let u = choose|u: int| 0 <= u < unsorted.len() && unsorted[u] == lines@[t];
                            assert(reversible(board.squares(), board.side(), unsorted[u].m));
                        }
                        assert forall|t: int| 0 <= t < lines@.len() implies board.generated_ok(#[trigger] lines@[t].m) by {
                            assert(unsorted.contains(lines@[t]));
                            let u = choose|u: int| 0 <= u < unsorted.len() && unsorted[u] == lines@[t];
                            assert(board.generated_ok(unsorted[u].m));
                        }
                    }
                    if self.id == 0 && !self.timer.is_stopped() {
                        let mut i: usize = 0;
                        while i < multi_pv
                            invariant
                                multi_pv <= lines@.len(),
                                i <= multi_pv,
                                forall|b: &Board, d: i8, l: &RootMove, p: Option<usize>, el: u128, n: u64, h: usize| #[trigger] call_requires(
                                    *report,
                                    (b, d, l, p, el, n, h),
                                ),
                                self.wf(),
                            decreases multi_pv - i,
                        {
                            let number = if multi_pv > 1 {
                                Some(i + 1)
                            } else {
                                None
                            };
                            report(&*board, depth, &lines[i], number, self.timer.elapsed(), self.timer.nodes(), self.tt.hashfull());
                            i = i + 1;
                        }
                    }
                    depth = depth + 1;
                }
            }
        }
        let best = lines[0].m;
        if self.id == 0 {
            self.timer.set_stop();
        }
        proof {
            lemma_same_position_facts(*board, b0);
            lemma_same_position_rules(*board, b0);
            lemma_same_position_move(*board, b0, best);
        }
        let ponder = if lines[0].pv.len() > 1 {
            let p = lines[0].pv[1];
            let ghost before = *board;
            proof {
                assert(reversible(board.squares(), board.side(), lines@[0].m));
                lemma_pop_after_push(board.squares(), board.side(), best, board.mat_hash());
            }
            board.push(best);
            let ghost b1 = *board;
            let playable = if board.kings_stand() {
                let moves = MoveList::from::<false>(board);
                let found = moves.contains(p);
                proof {
                    if found {
                        let k = choose|k: int| 0 <= k < moves@.len() && moves@[k] == p;
                        assert(b1.generated_ok(moves@[k]));
                    }
                }
                found
            } else {
                false
            };
            proof {
                before.lemma_ply_nonneg();
            }
            let r = board.pop();
            proof {
                lemma_push_search_pop(before, b1, b1, *board, best, r);
                lemma_same_position_trans(*board, before, b0);
            }
            proof {
                lemma_same_position_trans(before, before, b0);
            }
            if playable {
                Some(p)
            } else {
                None
            }
        } else {
            None
        };
        (Some(best), ponder)
    }

    /// Orders the first `k` lines by value, the best first; the lines from `k` on stay where
    /// they are, and every line is one of the old lines.
    fn sort_lines(lines: &mut Vec<RootMove>, k: usize)
        requires
            k <= old(lines)@.len(),
        ensures
            final(lines)@.len() == old(lines)@.len(),
            forall|t: int| 0 <= t < final(lines)@.len() ==> old(lines)@.contains(#[trigger] final(lines)@[t]),
            forall|t: int| k <= t < final(lines)@.len() ==> #[trigger] final(lines)@[t] == old(lines)@[t],
            forall|x: int, y: int| 0 <= x < y < k ==> final(lines)@[x].value >= final(lines)@[y].value,
    {
        let ghost start = lines@;
        let mut i: usize = 1;
        while i < k
            invariant
                1 <= i,
                k <= lines@.len(),
                lines@.len() == start.len(),
                forall|t: int| 0 <= t < lines@.len() ==> start.contains(#[trigger] lines@[t]),
                forall|t: int| k <= t < lines@.len() ==> #[trigger] lines@[t] == start[t],
                forall|x: int, y: int| 0 <= x < y < i && y < k ==> lines@[x].value >= lines@[y].value,
            decreases k - i,
        {
            let v = lines[i].value;
            let mut j = i;
            while j > 0 && lines[j - 1].value < v
                invariant
                    0 <= j <= i,
                    i < k,
                    k <= lines@.len(),
                    lines@[i as int].value == v,
                    forall|x: int| j <= x < i ==> lines@[x].value < v,
                decreases j,
            {
                j = j - 1;
            }
            let ghost before = lines@;
            let line = lines.remove(i);
            lines.insert(j, line);
            proof {
                assert(start.contains(before[i as int]));
                assert forall|t: int| 0 <= t < lines@.len() implies start.contains(#[trigger] lines@[t]) by {
                    if t < j {
                        assert(lines@[t] == before[t]);
                    } else if t == j {
                    } else if t <= i {
                        assert(lines@[t] == before[t - 1]);
                    } else {
                        assert(lines@[t] == before[t]);
                    }
                }
                assert forall|t: int| k <= t < lines@.len() implies #[trigger] lines@[t] == start[t] by {
                    assert(lines@[t] == before[t]);
                }
                assert forall|x: int, y: int| 0 <= x < y < i + 1 && y < k implies lines@[x].value >= lines@[y].value by {
                    let xo = if x < j { x } else if x == j { i as int } else { x - 1 };
                    let yo = if y < j { y } else if y == j { i as int } else { y - 1 };
                    assert(lines@[x] == before[xo]);
                    assert(lines@[y] == before[yo]);
                    if y == j {
                        assert(x < j);
                        assert(before[j - 1].value >= v) by {
                            if j > 0 {}
                        }
                        assert(before[x].value >= before[j - 1].value || x == j - 1);
                    } else if x == j {
                        assert(j <= yo < i);
                    }
                }
            }
            i = i + 1;
        }
    }

}

} // verus!
