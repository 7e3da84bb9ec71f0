use vstd::prelude::*;
use crate::board::{lemma_lowest_king, Board};
use crate::color::Color;
use crate::evaluation::eval::{eval_spec, search_eval, EVAL_LIMIT};
use crate::piece::{Piece, PieceType};
use crate::square::SQ;

verus! {

/// Inputs of one perspective: twelve kinds of piece on sixty-four squares.
pub const N_INPUTS: usize = 768;

/// Width of the accumulator of one perspective.
pub const L1: usize = 768;

/// King buckets, one table of embeddings each.
pub const N_KING_BUCKETS: usize = 4;

/// Output buckets, chosen by the number of pieces on the board.
pub const N_BUCKETS: usize = 8;

/// Where the input bias starts among the weights: after the embeddings of every bucket.
pub const BIAS_OFFSET: usize = 2359296;

/// Where the weights of the output layers start: after the input bias.
pub const HIDDEN_OFFSET: usize = 2360064;

/// The number of weights: embeddings, input bias and one output layer of `2 * L1` per bucket.
pub const N_WEIGHTS: usize = 2372352;

/// The ceiling of the clipped activation.
pub const INPUT_SCALE: i32 = 255;

/// The scale of the output bias.
pub const HIDDEN_SCALE: i32 = 64;

/// Network units per centipawn scale.
pub const NNUE2SCORE: i32 = 400;

/// `HIDDEN_SCALE * INPUT_SCALE`.
pub const COMB_SCALE: i32 = 16320;

/// The number of floating-point weights and biases of the win/draw/loss layers, which end
/// the network file.
pub const N_WDL_FLOATS: usize = 36888;

/// The size of the network file: the weights and output biases in sixteen bits, then the
/// win/draw/loss layers in thirty-two.
pub const NET_BYTES: usize = 4892272;

/// The sixteen-bit integer stored little-endian in the bytes `lo` and `hi`.
pub open spec fn le_i16(lo: u8, hi: u8) -> i16 {
    (lo + 256 * hi) as i16
}

/// The `n` sixteen-bit integers stored little-endian in `b` from byte `start` on.
pub open spec fn i16_words(b: Seq<u8>, start: int, n: int) -> Seq<i16> {
    Seq::new(n as nat, |i: int| le_i16(b[start + 2 * i], b[start + 2 * i + 1]))
}

/// The square `i` on the same rank, with the file seen from the other wing.
pub open spec fn hmirror_idx(i: int) -> int {
    8 * (i / 8) + 7 - i % 8
}

/// The square `i` seen from side `c`: for Black, the same file on the mirrored rank.
pub open spec fn rel_sq(i: int, c: Color) -> int {
    if c == Color::White {
        i
    } else {
        8 * (7 - i / 8) + i % 8
    }
}

/// The king bucket of a king on square `i` of the queen's wing: its rank, the third and
/// fourth ranks sharing one, and every rank above them one more.
pub open spec fn king_bucket_spec(i: int) -> int {
    if i / 8 == 0 {
        0
    } else if i / 8 == 1 {
        1
    } else if i / 8 <= 3 {
        2
    } else {
        3
    }
}

/// The perspective of a side whose king stands on `ksq_rel`, seen from that side: mirrored
/// when the king is on the king's wing, and the bucket of the king's square after mirroring.
pub open spec fn perspective_spec(ksq_rel: int) -> Perspective {
    let mirrored = ksq_rel % 8 >= 4;
    let norm = if mirrored {
        hmirror_idx(ksq_rel)
    } else {
        ksq_rel
    };
    Perspective { bucket: king_bucket_spec(norm) as usize, mirrored }
}

/// The number of the piece `pc` seen from side `c`: its kind, and six more when it belongs to
/// the other side.
pub open spec fn rel_piece_idx(pc: Piece, c: Color) -> int {
    if pc.color_of_spec() == c {
        pc.type_of_spec().idx()
    } else {
        pc.type_of_spec().idx() + 6
    }
}

/// The input that the piece `pc` on square `sq` feeds in the perspective `p` of side `c`.
pub open spec fn feature_spec(p: Perspective, pc: Piece, sq: int, c: Color) -> int {
    let s = rel_sq(sq, c);
    rel_piece_idx(pc, c) * 64 + if p.mirrored {
        hmirror_idx(s)
    } else {
        s
    }
}

/// Where the embedding of that input starts among the weights.
pub open spec fn row_of(p: Perspective, pc: Piece, sq: int, c: Color) -> int {
    (p.bucket * N_INPUTS + feature_spec(p, pc, sq, c)) * L1
}

/// Lane `lane` of the embeddings of the pieces on the first `n` squares of `s`, summed.
pub open spec fn feature_sum(w: Seq<i16>, s: Seq<Option<Piece>>, p: Perspective, c: Color, lane: int, n: int) -> int
    decreases n,
{
    if n <= 0 {
        0
    } else {
        feature_sum(w, s, p, c, lane, n - 1) + match s[n - 1] {
            Some(pc) => w[row_of(p, pc, n - 1, c) + lane] as int,
            None => 0,
        }
    }
}

/// Lane `lane` of the accumulator of side `c`: the input bias and the embedding of every
/// piece, added in sixteen bits that wrap.
pub open spec fn acc_spec(w: Seq<i16>, s: Seq<Option<Piece>>, p: Perspective, c: Color, lane: int) -> i16 {
    (w[BIAS_OFFSET + lane] + feature_sum(w, s, p, c, lane, 64)) as i16
}

/// The accumulator of side `c`, all its lanes.
pub open spec fn accumulator_spec(w: Seq<i16>, s: Seq<Option<Piece>>, p: Perspective, c: Color) -> Seq<i16> {
    Seq::new(L1 as nat, |lane: int| acc_spec(w, s, p, c, lane))
}

/// An activation clipped to `0..=255`.
pub open spec fn clamp255(a: i16) -> int {
    if a < 0 {
        0
    } else if a > 255 {
        255
    } else {
        a as int
    }
}

/// What one lane gives the output: the weight times the clipped activation, kept in sixteen
/// bits, times the clipped activation again.
pub open spec fn lane_term(wt: i16, a: i16) -> int {
    let c = clamp255(a);
    ((wt * c) as i16) * c
}

/// The first `n` lanes of `acc` against the weights from `off` on.
pub open spec fn half_sum(w: Seq<i16>, off: int, acc: Seq<i16>, n: int) -> int
    decreases n,
{
    if n <= 0 {
        0
    } else {
        half_sum(w, off, acc, n - 1) + lane_term(w[off + n - 1], acc[n - 1])
    }
}

/// Division that rounds toward zero, as Rust's does.
pub open spec fn trunc_div(a: int, b: int) -> int {
    if a >= 0 {
        a / b
    } else {
        -((-a) / b)
    }
}

/// The number of pieces on the first `n` squares of `s`.
pub open spec fn piece_count(s: Seq<Option<Piece>>, n: int) -> int
    decreases n,
{
    if n <= 0 {
        0
    } else {
        piece_count(s, n - 1) + if s[n - 1] is Some {
            1int
        } else {
            0
        }
    }
}

/// The output bucket of a board with `count` pieces.
pub open spec fn bucket_spec(count: int) -> int {
    (count - 2) / 4
}

/// The raw output of output layer `bucket` on the two accumulators, the side to move first,
/// summed in thirty-two bits that wrap.
pub open spec fn forward_spec(w: Seq<i16>, bucket: int, stm: Seq<i16>, nstm: Seq<i16>) -> i32 {
    let off = HIDDEN_OFFSET + bucket * 2 * L1;
    (half_sum(w, off, stm, L1 as int) + half_sum(w, off + L1, nstm, L1 as int)) as i32
}

/// The score of output `out` with output bias `bias`, in centipawns: the bias and the output
/// each scaled, the product of the output's scaling wrapping in thirty-two bits.
pub open spec fn score_spec(bias: i16, out: i32) -> int {
    trunc_div(bias * NNUE2SCORE, HIDDEN_SCALE as int) + trunc_div(
        ((trunc_div(out as int, INPUT_SCALE as int) * NNUE2SCORE) as i32) as int,
        COMB_SCALE as int,
    )
}

/// The evaluation of `b` for the side `ctm` by the network with weights `w` and output
/// biases `biases`: each side's accumulator in the perspective of its lowest king, and the
/// output bucket of the number of pieces.
pub open spec fn nnue_spec(w: Seq<i16>, biases: Seq<i16>, b: Board, ctm: Color) -> int {
    let s = b.squares();
    let bucket = bucket_spec(piece_count(s, 64));
    let p_stm = perspective_spec(rel_sq(b.lowest_king(ctm), ctm));
    let p_nstm = perspective_spec(rel_sq(b.lowest_king(ctm.other()), ctm.other()));
    let out = forward_spec(
        w,
        bucket,
        accumulator_spec(w, s, p_stm, ctm),
        accumulator_spec(w, s, p_nstm, ctm.other()),
    );
    score_spec(biases[bucket], out)
}

/// What square `sq` holding `x` adds to lane `lane` of the accumulator of side `c`.
pub open spec fn square_input(w: Seq<i16>, x: Option<Piece>, p: Perspective, c: Color, lane: int, sq: int) -> int {
    match x {
        Some(pc) => w[row_of(p, pc, sq, c) + lane] as int,
        None => 0,
    }
}

/// Changing what stands on one square changes the sum of the embeddings by what that square
/// adds: the law by which an accumulator can follow a move by adding and taking away the
/// embeddings of the squares it changes, and stay equal to one built from the whole board.
pub proof fn lemma_feature_update(
    w: Seq<i16>,
    s: Seq<Option<Piece>>,
    p: Perspective,
    c: Color,
    lane: int,
    sq: int,
    x: Option<Piece>,
    n: int,
)
    requires
        0 <= sq < s.len(),
        n <= s.len(),
    ensures
        feature_sum(w, s.update(sq, x), p, c, lane, n) == feature_sum(w, s, p, c, lane, n) + if sq < n {
            square_input(w, x, p, c, lane, sq) - square_input(w, s[sq], p, c, lane, sq)
        } else {
            0
        },
    decreases n,
{
    if n > 0 {
        lemma_feature_update(w, s, p, c, lane, sq, x, n - 1);
    }
}

/// The network's evaluation depends on the pieces alone: two boards with the same pieces, a
/// king of each side among them, evaluate alike for either side to move.
pub proof fn lemma_nnue_same_pieces(w: Seq<i16>, biases: Seq<i16>, b1: Board, b2: Board, ctm: Color)
    requires
        b1.squares() == b2.squares(),
        b1.has_king(Color::White),
        b1.has_king(Color::Black),
    ensures
        nnue_spec(w, biases, b1, ctm) == nnue_spec(w, biases, b2, ctm),
{
    b1.lemma_lowest_king_holds(Color::White);
    b1.lemma_lowest_king_holds(Color::Black);
    let kw = b1.lowest_king(Color::White);
    let kb = b1.lowest_king(Color::Black);
    assert(b2.holds(kw, Color::White, PieceType::King));
    assert(b2.holds(kb, Color::Black, PieceType::King));
    assert forall|j: int| 0 <= j < kw implies !b2.holds(j, Color::White, PieceType::King) by {
        assert(!b1.holds(j, Color::White, PieceType::King));
    }
    assert forall|j: int| 0 <= j < kb implies !b2.holds(j, Color::Black, PieceType::King) by {
        assert(!b1.holds(j, Color::Black, PieceType::King));
    }
    lemma_lowest_king(b2, Color::White, kw);
    lemma_lowest_king(b2, Color::Black, kb);
}

/// Playing a move and taking it back leaves the network's evaluation as it was.
pub proof fn lemma_push_pop_nnue(
    w: Seq<i16>,
    biases: Seq<i16>,
    b0: Board,
    b1: Board,
    b2: Board,
    m: crate::moov::Move,
    r: Option<crate::moov::Move>,
    ctm: Color,
)
    requires
        b0.wf(),
        b1.wf(),
        b0.has_king(Color::White),
        b0.has_king(Color::Black),
        crate::board::reversible(b0.squares(), b0.side(), m),
        Board::pushed(b0, b1, m),
        Board::popped(b1, b2, r),
    ensures
        nnue_spec(w, biases, b2, ctm) == nnue_spec(w, biases, b0, ctm),
{
    crate::board::lemma_push_pop(b0, b1, b2, m, r);
    lemma_nnue_same_pieces(w, biases, b0, b2, ctm);
}

/// `v` held within `-EVAL_LIMIT..=EVAL_LIMIT`.
pub open spec fn limited(v: int) -> int {
    if v > EVAL_LIMIT {
        EVAL_LIMIT as int
    } else if v < -EVAL_LIMIT {
        -EVAL_LIMIT
    } else {
        v
    }
}

/// Whether the network takes `b`: a king of each side, and few enough pieces for an output
/// bucket.
pub open spec fn network_takes(b: Board) -> bool {
    b.has_king(Color::White) && b.has_king(Color::Black) && piece_count(b.squares(), 64) <= 33
}

/// The evaluation as the search reads it with a network: the network's score for the side to
/// move where the network takes the board, the hand-written evaluation elsewhere, held
/// within `-EVAL_LIMIT..=EVAL_LIMIT` so that no static value reaches the mate values.
pub fn network_search_eval(net: &Network, board: &Board) -> (r: i32)
    requires
        net.wf(),
        board.wf(),
    ensures
        r == if network_takes(*board) {
            limited(nnue_spec(net.weights_view(), net.biases_view(), *board, board.side()))
        } else {
            limited(eval_spec(*board))
        },
{
    if Network::can_eval(board) {
        let v = net.eval(board.ctm(), board);
        if v > EVAL_LIMIT {
            EVAL_LIMIT
        } else if v < -EVAL_LIMIT {
            -EVAL_LIMIT
        } else {
            v
        }
    } else {
        search_eval(board)
    }
}

/// How a side looks at the board: the king bucket whose embeddings it uses, and whether the
/// files are mirrored so that its king stands on the queen's wing.
#[derive(Clone, Copy, PartialEq, Eq, Structural, Debug)]
pub struct Perspective {
    pub bucket: usize,
    pub mirrored: bool,
}

impl Perspective {
    /// The perspective of a side whose king stands on `ksq_rel`, seen from that side.
    pub fn new(ksq_rel: SQ) -> (r: Perspective)
        ensures
            r == perspective_spec(ksq_rel.idx()),
    {
        let mirrored = ksq_rel.index() % 8 >= 4;
        let ksq_norm = if mirrored {
            ksq_rel.hmirror()
        } else {
            ksq_rel
        };
        Perspective { bucket: Perspective::king_bucket(ksq_norm), mirrored }
    }

    /// The king bucket of a king on `ksq_norm`, on the queen's wing.
    pub fn king_bucket(ksq_norm: SQ) -> (r: usize)
        ensures
            r == king_bucket_spec(ksq_norm.idx()),
            r < N_KING_BUCKETS,
    {
        let rank = ksq_norm.index() / 8;
        if rank == 0 {
            0
        } else if rank == 1 {
            1
        } else if rank <= 3 {
            2
        } else {
            3
        }
    }

    /// The input that `pc` on `sq` feeds in this perspective of side `color`.
    pub fn feature_idx(self, pc: Piece, sq: SQ, color: Color) -> (r: usize)
        ensures
            r == feature_spec(self, pc, sq.idx(), color),
            r < N_INPUTS,
    {
        let sq_rel = sq.relative(color);
        let sq_rel = if self.mirrored {
            sq_rel.hmirror()
        } else {
            sq_rel
        };
        let t = pc.type_of().index();
        let own = match (pc.color_of(), color) {
            (Color::White, Color::White) => true,
            (Color::Black, Color::Black) => true,
            _ => false,
        };
        let rel = if own {
            t
        } else {
            t + 6
        };
        rel * 64 + sq_rel.index()
    }
}

/// The weights of the network: the embeddings of every king bucket, the input bias and the
/// output layers, and the bias of each output layer.
pub struct Network {
    weights: Vec<i16>,
    biases: Vec<i16>,
}

impl Network {
    /// The weights, in the order the network file stores them.
    pub closed spec fn weights_view(&self) -> Seq<i16> {
        self.weights@
    }

    /// The bias of each output layer.
    pub closed spec fn biases_view(&self) -> Seq<i16> {
        self.biases@
    }

    /// The network has every weight and one bias per output bucket.
    pub open spec fn wf(&self) -> bool {
        &&& self.weights_view().len() == N_WEIGHTS
        &&& self.biases_view().len() == N_BUCKETS
    }

    /// The network with these weights and output biases, when there are as many as it needs.
    pub fn from_weights(weights: Vec<i16>, biases: Vec<i16>) -> (r: Option<Network>)
        ensures
            r is Some <==> weights@.len() == N_WEIGHTS && biases@.len() == N_BUCKETS,
            r matches Some(n) ==> n.wf() && n.weights_view() == weights@ && n.biases_view() == biases@,
    {
        if weights.len() == N_WEIGHTS && biases.len() == N_BUCKETS {
            Some(Network { weights, biases })
        } else {
            None
        }
    }

    /// The `n` sixteen-bit integers stored little-endian in `bytes` from byte `start` on.
    fn read_words(bytes: &[u8], start: usize, n: usize) -> (r: Vec<i16>)
        requires
            start + 2 * n <= bytes@.len(),
        ensures
            r@ == i16_words(bytes@, start as int, n as int),
    {
        let len = bytes.len();
        let mut v: Vec<i16> = Vec::new();
        let mut i: usize = 0;
        while i < n
            invariant
                i <= n,
                start + 2 * n <= bytes@.len(),
                len == bytes@.len(),
                v@.len() == i,
                forall|k: int| 0 <= k < i ==> #[trigger] v@[k] == le_i16(bytes@[start + 2 * k], bytes@[start + 2 * k + 1]),
            decreases n - i,
        {
            let lo = bytes[start + 2 * i];
            let hi = bytes[start + 2 * i + 1];
            let w: u16 = lo as u16 + (hi as u16) * 256;
            assert(w == lo + 256 * hi);
            v.push(w as i16);
            i = i + 1;
        }
        assert(v@ =~= i16_words(bytes@, start as int, n as int));
        v
    }

    /// The network in the bytes of a network file: the weights, then the output biases, each
    /// a sixteen-bit integer stored little-endian; the win/draw/loss layers that end the file
    /// are not read here. `None` when the file does not have the size of a network file.
    pub fn from_bytes(bytes: &[u8]) -> (r: Option<Network>)
        ensures
            r is Some <==> bytes@.len() == NET_BYTES,
            r matches Some(n) ==> n.wf() && n.weights_view() == i16_words(bytes@, 0, N_WEIGHTS as int)
                && n.biases_view() == i16_words(bytes@, 2 * N_WEIGHTS, N_BUCKETS as int),
    {
        if bytes.len() != NET_BYTES {
            return None;
        }
        let weights = Network::read_words(bytes, 0, N_WEIGHTS);
        let biases = Network::read_words(bytes, 2 * N_WEIGHTS, N_BUCKETS);
        Some(Network { weights, biases })
    }

    /// The accumulator of side `c` in perspective `p`: the input bias and the embedding of
    /// every piece on the board.
    fn accumulate(&self, board: &Board, p: Perspective, c: Color) -> (r: Vec<i16>)
        requires
            self.wf(),
            board.wf(),
            p.bucket < N_KING_BUCKETS,
        ensures
            r@ == accumulator_spec(self.weights_view(), board.squares(), p, c),
    {
        let ghost w = self.weights@;
        let ghost s = board.squares();
        let mut acc: Vec<i32> = Vec::new();
        let mut lane: usize = 0;
        while lane < L1
            invariant
                lane <= L1,
                w == self.weights@,
                w.len() == N_WEIGHTS,
                acc@.len() == lane,
                forall|l: int| 0 <= l < lane ==> #[trigger] acc@[l] == w[BIAS_OFFSET + l] + feature_sum(w, s, p, c, l, 0),
            decreases L1 - lane,
        {
            acc.push(self.weights[BIAS_OFFSET + lane] as i32);
            lane = lane + 1;
        }
        let mut sq: usize = 0;
        while sq < 64
            invariant
                sq <= 64,
                w == self.weights@,
                w.len() == N_WEIGHTS,
                s == board.squares(),
                board.wf(),
                p.bucket < N_KING_BUCKETS,
                acc@.len() == L1,
                forall|l: int| 0 <= l < L1 ==> #[trigger] acc@[l] == w[BIAS_OFFSET + l] + feature_sum(w, s, p, c, l, sq as int),
                forall|l: int| 0 <= l < L1 ==> -32768 * (sq + 1) <= #[trigger] acc@[l] <= 32767 * (sq + 1),
            decreases 64 - sq,
        {
            let square = SQ::from_u8(sq as u8);
            match board.piece_at(square) {
                Some(pc) => {
                    let f = p.feature_idx(pc, square, c);
                    let row = (p.bucket * N_INPUTS + f) * L1;
                    assert(row == row_of(p, pc, sq as int, c));
                    assert(row + L1 <= BIAS_OFFSET) by (nonlinear_arith)
                        requires
                            row == (p.bucket * N_INPUTS + f) * L1,
                            p.bucket < 4,
                            f < 768,
                    ;
                    let ghost before = acc@;
                    let mut l: usize = 0;
                    while l < L1
                        invariant
                            l <= L1,
                            sq < 64,
                            w == self.weights@,
                            w.len() == N_WEIGHTS,
                            row + L1 <= BIAS_OFFSET,
                            row == row_of(p, pc, sq as int, c),
                            s[sq as int] == Some(pc),
                            acc@.len() == L1,
                            before.len() == L1,
                            forall|k: int| 0 <= k < L1 ==> #[trigger] before[k] == w[BIAS_OFFSET + k] + feature_sum(w, s, p, c, k, sq as int),
                            forall|k: int| 0 <= k < L1 ==> -32768 * (sq + 1) <= #[trigger] before[k] <= 32767 * (sq + 1),
                            forall|k: int| 0 <= k < l ==> #[trigger] acc@[k] == before[k] + w[row + k],
                            forall|k: int| l <= k < L1 ==> #[trigger] acc@[k] == before[k],
                        decreases L1 - l,
                    {
                        let v = acc[l] + self.weights[row + l] as i32;
                        acc.set(l, v);
                        l = l + 1;
                    }
                },
                None => {},
            }
            assert forall|l: int| 0 <= l < L1 implies #[trigger] acc@[l] == w[BIAS_OFFSET + l] + feature_sum(w, s, p, c, l, sq + 1) by {
                assert(feature_sum(w, s, p, c, l, sq + 1) == feature_sum(w, s, p, c, l, sq as int) + match s[sq as int] {
                    Some(pc) => w[row_of(p, pc, sq as int, c) + l] as int,
                    None => 0,
                });
            }
            sq = sq + 1;
        }
        let mut out: Vec<i16> = Vec::new();
        let mut k: usize = 0;
        while k < L1
            invariant
                k <= L1,
                w == self.weights@,
                acc@.len() == L1,
                out@.len() == k,
                forall|l: int| 0 <= l < L1 ==> #[trigger] acc@[l] == w[BIAS_OFFSET + l] + feature_sum(w, s, p, c, l, 64),
                forall|l: int| 0 <= l < k ==> #[trigger] out@[l] == acc_spec(w, s, p, c, l),
            decreases L1 - k,
        {
            let a = acc[k];
            out.push(a as i16);
            k = k + 1;
        }
        assert(out@ =~= accumulator_spec(w, s, p, c));
        out
    }

    /// The first `n` lanes of `acc` against the weights from `off` on, summed exactly.
    fn half_forward(&self, off: usize, acc: &Vec<i16>) -> (r: i64)
        requires
            self.wf(),
            acc@.len() == L1,
            off + L1 <= N_WEIGHTS,
        ensures
            r == half_sum(self.weights_view(), off as int, acc@, L1 as int),
            -8355840 * 768 <= r <= 8355840 * 768,
    {
        let ghost w = self.weights@;
        let mut sum: i64 = 0;
        let mut i: usize = 0;
        while i < L1
            invariant
                i <= L1,
                w == self.weights@,
                w.len() == N_WEIGHTS,
                off + L1 <= N_WEIGHTS,
                acc@.len() == L1,
                sum == half_sum(w, off as int, acc@, i as int),
                -8355840 * i <= sum <= 8355840 * i,
            decreases L1 - i,
        {
            let a = acc[i];
            let c: i32 = if a < 0 {
                0
            } else if a > 255 {
                255
            } else {
                a as i32
            };
            let wt = self.weights[off + i];
            assert(-8355840 <= wt * c <= 8355840) by (nonlinear_arith)
                requires
                    -32768 <= wt <= 32767,
                    0 <= c <= 255,
            ;
            let wc: i16 = (wt as i32 * c) as i16;
            assert(-8355840 <= wc * c <= 8355840) by (nonlinear_arith)
                requires
                    -32768 <= wc <= 32767,
                    0 <= c <= 255,
            ;
            let term: i64 = wc as i64 * c as i64;
            assert(term == lane_term(w[off + i], acc@[i as int]));
            assert(-8355840 <= term <= 8355840) by (nonlinear_arith)
                requires
                    term == wc * c,
                    -32768 <= wc <= 32767,
                    0 <= c <= 255,
            ;
            sum = sum + term;
            i = i + 1;
        }
        sum
    }

    /// The lowest square of a king of side `c`.
    fn king_square(board: &Board, c: Color) -> (r: SQ)
        requires
            board.wf(),
            board.has_king(c),
        ensures
            r.idx() == board.lowest_king(c),
    {
        let kings = board.bitboard_of(c, PieceType::King);
        assert(kings.0 != 0) by {
            let k = choose|k: int| board.holds(k, c, PieceType::King);
            assert(kings.has(k));
            crate::bitboard::lemma_bit_zero(k);
        }
        let sq = kings.lsb();
        proof {
            assert forall|j: int| 0 <= j < sq.idx() implies !board.holds(j, c, PieceType::King) by {
                assert(!kings.has(j));
            }
            lemma_lowest_king(*board, c, sq.idx());
        }
        sq
    }

    /// The number of pieces on the board.
    pub fn count_pieces(board: &Board) -> (r: usize)
        requires
            board.wf(),
        ensures
            r == piece_count(board.squares(), 64),
    {
        let mut n: usize = 0;
        let mut i: usize = 0;
        while i < 64
            invariant
                i <= 64,
                board.wf(),
                n == piece_count(board.squares(), i as int),
                n <= i,
            decreases 64 - i,
        {
            if board.piece_at(SQ::from_u8(i as u8)).is_some() {
                n = n + 1;
            }
            i = i + 1;
        }
        n
    }

    /// Division of `a` by the positive `b`, rounding toward zero.
    fn div_toward_zero(a: i64, b: i64) -> (r: i64)
        requires
            b > 0,
            a > i64::MIN,
        ensures
            r == trunc_div(a as int, b as int),
    {
        if a >= 0 {
            ((a as u64) / (b as u64)) as i64
        } else {
            -((((-a) as u64) / (b as u64)) as i64)
        }
    }

    /// The accumulators of the side to move `ctm` and of the other side, each in the
    /// perspective of its lowest king.
    pub fn accumulators(&self, ctm: Color, board: &Board) -> (r: (Vec<i16>, Vec<i16>))
        requires
            self.wf(),
            board.wf(),
            board.has_king(Color::White),
            board.has_king(Color::Black),
        ensures
            r.0@ == accumulator_spec(
                self.weights_view(),
                board.squares(),
                perspective_spec(rel_sq(board.lowest_king(ctm), ctm)),
                ctm,
            ),
            r.1@ == accumulator_spec(
                self.weights_view(),
                board.squares(),
                perspective_spec(rel_sq(board.lowest_king(ctm.other()), ctm.other())),
                ctm.other(),
            ),
    {
        let them = match ctm {
            Color::White => Color::Black,
            Color::Black => Color::White,
        };
        assert(them == ctm.other());
        let p_stm = Perspective::new(Network::king_square(board, ctm).relative(ctm));
        let p_nstm = Perspective::new(Network::king_square(board, them).relative(them));
        let stm = self.accumulate(board, p_stm, ctm);
        let nstm = self.accumulate(board, p_nstm, them);
        (stm, nstm)
    }

    /// Whether `eval` takes `board`: a king of each side, and few enough pieces for an output
    /// bucket.
    pub fn can_eval(board: &Board) -> (r: bool)
        requires
            board.wf(),
        ensures
            r == (board.has_king(Color::White) && board.has_king(Color::Black) && piece_count(board.squares(), 64) <= 33),
    {
        let wk = board.bitboard_of(Color::White, PieceType::King);
        let bk = board.bitboard_of(Color::Black, PieceType::King);
        proof {
            if board.has_king(Color::White) {
                let k = choose|k: int| board.holds(k, Color::White, PieceType::King);
                assert(wk.has(k));
                crate::bitboard::lemma_bit_zero(k);
            }
            if board.has_king(Color::Black) {
                let k = choose|k: int| board.holds(k, Color::Black, PieceType::King);
                assert(bk.has(k));
                crate::bitboard::lemma_bit_zero(k);
            }
            crate::bitboard::lemma_zero_iff_no_bits(wk.0);
            crate::bitboard::lemma_zero_iff_no_bits(bk.0);
            if wk.0 != 0 {
                let k = choose|k: int| 0 <= k < 64 && crate::bitboard::bit(wk.0, k);
                assert(wk.has(k));
                assert(board.holds(k, Color::White, PieceType::King));
            }
            if bk.0 != 0 {
                let k = choose|k: int| 0 <= k < 64 && crate::bitboard::bit(bk.0, k);
                assert(bk.has(k));
                assert(board.holds(k, Color::Black, PieceType::King));
            }
        }
        wk.0 != 0 && bk.0 != 0 && Network::count_pieces(board) <= 33
    }

    /// The output bucket of `board`: the number of pieces less the two kings, in steps of four.
    pub fn output_bucket(board: &Board) -> (r: usize)
        requires
            board.wf(),
            board.has_king(Color::White),
            board.has_king(Color::Black),
            piece_count(board.squares(), 64) <= 33,
        ensures
            r == bucket_spec(piece_count(board.squares(), 64)),
            r < N_BUCKETS,
    {
        let count = Network::count_pieces(board);
        proof {
            Network::lemma_two_kings(*board);
        }
        (count - 2) / 4
    }

    /// The evaluation of `board` for the side `ctm`, in centipawns: each side's accumulator in
    /// the perspective of its king, the output layer of the bucket of the number of pieces,
    /// and its bias, scaled.
    pub fn eval(&self, ctm: Color, board: &Board) -> (r: i32)
        requires
            self.wf(),
            board.wf(),
            board.has_king(Color::White),
            board.has_king(Color::Black),
            piece_count(board.squares(), 64) <= 33,
        ensures
            r == nnue_spec(self.weights_view(), self.biases_view(), *board, ctm),
    {
        let ghost w = self.weights@;
        let (stm, nstm) = self.accumulators(ctm, board);
        let bucket = Network::output_bucket(board);
        let off = HIDDEN_OFFSET + bucket * 2 * L1;
        let total = self.half_forward(off, &stm) + self.half_forward(off + L1, &nstm);
        let out = total as i32;
        assert(out == forward_spec(w, bucket as int, stm@, nstm@));
        let bias = self.biases[bucket];
        let first = Network::div_toward_zero(bias as i64 * NNUE2SCORE as i64, HIDDEN_SCALE as i64);
        let q = Network::div_toward_zero(out as i64, INPUT_SCALE as i64);
        let scaled = (q * NNUE2SCORE as i64) as i32;
        let second = Network::div_toward_zero(scaled as i64, COMB_SCALE as i64);
        assert(-204800 <= first <= 204800);
        assert(-131600 <= second <= 131600);
        (first + second) as i32
    }

    /// A board with a king of each side holds at least two pieces.
    proof fn lemma_two_kings(b: Board)
        requires
            b.wf(),
            b.has_king(Color::White),
            b.has_king(Color::Black),
        ensures
            piece_count(b.squares(), 64) >= 2,
    {
        let kw = choose|k: int| b.holds(k, Color::White, PieceType::King);
        let kb = choose|k: int| b.holds(k, Color::Black, PieceType::King);
        assert(kw != kb);
        Network::lemma_count_two(b.squares(), kw, kb, 64);
    }

    /// Two distinct occupied squares below `n` count twice.
    proof fn lemma_count_two(s: Seq<Option<Piece>>, a: int, c: int, n: int)
        requires
            0 <= a < n,
            0 <= c < n,
            a != c,
            s[a] is Some,
            s[c] is Some,
        ensures
            piece_count(s, n) >= 2,
        decreases n,
    {
        Network::lemma_count_nonneg(s, n - 1);
        if a == n - 1 || c == n - 1 {
            let other = if a == n - 1 {
                c
            } else {
                a
            };
            Network::lemma_count_one(s, other, n - 1);
        } else {
            Network::lemma_count_two(s, a, c, n - 1);
        }
    }

    /// An occupied square below `n` counts once.
    proof fn lemma_count_one(s: Seq<Option<Piece>>, a: int, n: int)
        requires
            0 <= a < n,
            s[a] is Some,
        ensures
            piece_count(s, n) >= 1,
        decreases n,
    {
        Network::lemma_count_nonneg(s, n - 1);
        if a != n - 1 {
            Network::lemma_count_one(s, a, n - 1);
        }
    }

    /// Counts are never negative.
    proof fn lemma_count_nonneg(s: Seq<Option<Piece>>, n: int)
        ensures
            piece_count(s, n) >= 0,
        decreases n,
    {
        if n > 0 {
            Network::lemma_count_nonneg(s, n - 1);
        }
    }
}

} // verus!
