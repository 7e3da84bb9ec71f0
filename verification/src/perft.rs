use vstd::prelude::*;
use crate::board::{Board, reversible, lemma_pop_after_push, lemma_push_search_pop, lemma_same_position_facts};
use crate::moov::Move;
use crate::move_list::{is_move, MoveList};

verus! {

/// The sum of the counts of `lines`, held at `u128::MAX` when it would pass it.
pub open spec fn counts_total(lines: Seq<(Move, u128)>) -> u128
    decreases lines.len(),
{
    if lines.len() == 0 {
        0
    } else {
        let rest = counts_total(lines.drop_last());
        if rest + lines.last().1 > u128::MAX {
            u128::MAX
        } else {
            (rest + lines.last().1) as u128
        }
    }
}

/// The number of move paths `depth` plies long from `board`; the moves of the last ply are
/// counted, not played. A position in which a king is missing, or whose history has no room
/// for one more move, ends the paths through it and counts none. The board is left as it
/// was; counts stop at `u128::MAX`.
pub fn perft(board: &mut Board, depth: i8) -> (r: u128)
    requires
        old(board).wf(),
        1 <= depth,
    ensures
        final(board).wf(),
        final(board).same_position(&*old(board)),
        !old(board).has_king(old(board).side()) ==> r == 0,
        !old(board).has_king(old(board).side().other()) ==> r == 0,
        depth == 1 && (exists|t: int| #[trigger] old(board).safe_king_step(t)) ==> r >= 1,
    decreases depth, 1int,
{
    proof {
        reveal(Board::safe_king_step);
    }
    if !board.kings_stand() {
        return 0;
    }
    let moves = MoveList::from::<false>(board);
    if depth == 1 {
        proof {
            if exists|t: int| #[trigger] board.safe_king_step(t) {
                let t = choose|t: int| #[trigger] board.safe_king_step(t);
                assert(exists|i: int| 0 <= i < moves@.len() && is_move(moves@[i], board.lowest_king(board.side()), t, board.step_flag(t)));
            }
        }
        return moves.len() as u128;
    }
    if !board.push_ready() {
        return 0;
    }
    let ghost b0 = *board;
    let mut nodes: u128 = 0;
    let mut i: usize = 0;
    while i < moves.len()
        invariant
            board.wf(),
            b0.wf(),
            b0.push_ready_spec(),
            board.same_position(&b0),
            b0.appended_ok(Seq::empty(), moves@, false),
            2 <= depth,
            i <= moves@.len(),
        decreases moves@.len() - i,
    {
        let m = *moves.get(i).unwrap();
        assert(b0.generated_ok(moves@[i as int]));
        let count = perft_child(board, m, depth - 1, Ghost(b0));
        nodes = nodes.saturating_add(count);
        i = i + 1;
    }
    nodes
}

/// Plays `m` on `board`, counts the paths `depth` plies long from there and takes `m` back.
fn perft_child(board: &mut Board, m: Move, depth: i8, Ghost(b0): Ghost<Board>) -> (r: u128)
    requires
        old(board).wf(),
        b0.wf(),
        b0.push_ready_spec(),
        old(board).same_position(&b0),
        b0.generated_ok(m),
        1 <= depth,
    ensures
        final(board).wf(),
        final(board).same_position(&b0),
        exists|b1: Board| #[trigger] Board::pushed(*old(board), b1, m) && (!b1.has_king(b1.side()) ==> r == 0) && (depth == 1
            && (exists|t: int| #[trigger] b1.safe_king_step(t)) ==> r >= 1),
    decreases depth + 1, 0int,
{
    proof {
        lemma_same_position_facts(*board, b0);
        crate::board::lemma_same_position_rules(*board, b0);
        assert(reversible(b0.squares(), b0.side(), m));
        lemma_pop_after_push(board.squares(), board.side(), m, board.mat_hash());
    }
    let ghost before = *board;
    board.push(m);
    let ghost b1 = *board;
    let count = perft(board, depth);
    let ghost b1x = *board;
    proof {
        lemma_same_position_facts(b1x, b1);
        before.lemma_ply_nonneg();
    }
    let r = board.pop();
    proof {
        lemma_push_search_pop(before, b1, b1x, *board, m, r);
        crate::board::lemma_same_position_trans(*board, before, b0);
    }
    count
}

/// The root lines of a count `depth` plies deep: each legal move of `board` with the number
/// of paths that start with it, and the total of the counts; with no lines at depth one,
/// where the moves are only counted. The board is left as it was.
pub fn perft_divide(board: &mut Board, depth: i8) -> (r: (u128, Vec<(Move, u128)>))
    requires
        old(board).wf(),
        1 <= depth,
    ensures
        final(board).wf(),
        final(board).same_position(&*old(board)),
        depth == 1 ==> r.1@.len() == 0,
        depth > 1 ==> r.0 == counts_total(r.1@),
        depth == 1 && (exists|t: int| #[trigger] old(board).safe_king_step(t)) ==> r.0 >= 1,
        depth > 1 && old(board).push_ready_spec() && (exists|t: int| #[trigger] old(board).safe_king_step(t)) ==> r.1@.len()
            >= 1,
        forall|i: int| 0 <= i < r.1@.len() ==> reversible(old(board).squares(), old(board).side(), (#[trigger] r.1@[i]).0),
{
    let mut lines: Vec<(Move, u128)> = Vec::new();
    if depth == 1 || !board.kings_stand() {
        let n = perft(board, depth);
        return (n, lines);
    }
    let moves = MoveList::from::<false>(board);
    if !board.push_ready() {
        return (0, lines);
    }
    proof {
        if exists|t: int| #[trigger] board.safe_king_step(t) {
            let t = choose|t: int| #[trigger] board.safe_king_step(t);
            assert(exists|i: int| 0 <= i < moves@.len() && is_move(moves@[i], board.lowest_king(board.side()), t, board.step_flag(t)));
        }
    }
    let ghost b0 = *board;
    let mut nodes: u128 = 0;
    let mut i: usize = 0;
    while i < moves.len()
        invariant
            board.wf(),
            b0.wf(),
            b0.push_ready_spec(),
            board.same_position(&b0),
            b0.appended_ok(Seq::empty(), moves@, false),
            2 <= depth,
            i <= moves@.len(),
            nodes == counts_total(lines@),
            lines@.len() == i,
            forall|k: int| 0 <= k < lines@.len() ==> reversible(b0.squares(), b0.side(), (#[trigger] lines@[k]).0),
        decreases moves@.len() - i,
    {
        let m = *moves.get(i).unwrap();
        assert(b0.generated_ok(moves@[i as int]));
        let count = perft_child(board, m, depth - 1, Ghost(b0));
        let ghost prev = lines@;
        lines.push((m, count));
        proof {
            assert(lines@.drop_last() =~= prev);
            assert(reversible(b0.squares(), b0.side(), m));
        }
        nodes = nodes.saturating_add(count);
        i = i + 1;
    }
    (nodes, lines)
}

} // verus!
