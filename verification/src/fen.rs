use vstd::prelude::*;
use crate::castling::rights_of_letters;
use crate::parse::{digits_value, is_digit, is_digits_from, is_number, split_words, words, words_view};
use crate::piece::Piece;

verus! {

/// The length of the Unicode white space character whose UTF-8 bytes start `s` at `i`, or 0.
/// White space is what `char::is_whitespace` counts: the ASCII tab, line feed, vertical tab,
/// form feed, carriage return and space, and U+0085, U+00A0, U+1680, U+2000 to U+200A,
/// U+2028, U+2029, U+202F, U+205F and U+3000.
pub open spec fn space_len_at(s: Seq<u8>, i: int) -> int {
    if 0 <= i < s.len() && (9 <= s[i] <= 13 || s[i] == 32) {
        1
    } else if 0 <= i && i + 1 < s.len() && s[i] == 0xC2 && (s[i + 1] == 0x85 || s[i + 1] == 0xA0) {
        2
    } else if 0 <= i && i + 2 < s.len() && ((s[i] == 0xE1 && s[i + 1] == 0x9A && s[i + 2] == 0x80) || (s[i]
        == 0xE2 && s[i + 1] == 0x80 && (0x80 <= s[i + 2] <= 0x8A || s[i + 2] == 0xA8 || s[i + 2] == 0xA9
        || s[i + 2] == 0xAF)) || (s[i] == 0xE2 && s[i + 1] == 0x81 && s[i + 2] == 0x9F) || (s[i] == 0xE3
        && s[i + 1] == 0x80 && s[i + 2] == 0x80)) {
        3
    } else {
        0
    }
}

/// The length of the white space character whose bytes end `s[..j]`, or 0, looking no
/// further back than `lo`.
pub open spec fn space_len_before(s: Seq<u8>, lo: int, j: int) -> int {
    if j - 1 >= lo && space_len_at(s, j - 1) == 1 {
        1
    } else if j - 2 >= lo && space_len_at(s, j - 2) == 2 {
        2
    } else if j - 3 >= lo && space_len_at(s, j - 3) == 3 {
        3
    } else {
        0
    }
}

/// Where the text `s[i..]` starts once leading white space is skipped.
pub open spec fn trim_start(s: Seq<u8>, i: int) -> int
    decreases s.len() - i,
{
    if 0 <= i < s.len() && space_len_at(s, i) > 0 {
        trim_start(s, i + space_len_at(s, i))
    } else {
        i
    }
}

/// Where the text `s[lo..j]` ends once trailing white space is dropped.
pub open spec fn trim_end(s: Seq<u8>, lo: int, j: int) -> int
    decreases j,
{
    if j > lo && space_len_before(s, lo, j) > 0 {
        trim_end(s, lo, j - space_len_before(s, lo, j))
    } else {
        j
    }
}

/// The bytes of `s` without leading and trailing white space, as `str::trim` leaves them.
pub open spec fn trimmed(s: Seq<u8>) -> Seq<u8> {
    let a = trim_start(s, 0);
    s.subrange(a, trim_end(s, a, s.len() as int))
}

/// The bounds of `s` without leading and trailing white space.
pub fn trim_bounds(s: &[u8]) -> (r: (usize, usize))
    ensures
        r.0 == trim_start(s@, 0),
        r.1 == trim_end(s@, r.0 as int, s@.len() as int),
        r.0 <= r.1 <= s@.len(),
{
    let n = s.len();
    let mut a: usize = 0;
    let mut k: usize = if n > 0 {
        space_len_at_exec(s, 0)
    } else {
        0
    };
    while k > 0
        invariant
            n == s@.len(),
            a <= n,
            k == (if a < n { space_len_at(s@, a as int) } else { 0 }),
            k > 0 ==> a + k <= n,
            trim_start(s@, a as int) == trim_start(s@, 0),
        decreases n - a,
    {
        a = a + k;
        k = if a < n {
            space_len_at_exec(s, a)
        } else {
            0
        };
    }
    let mut e: usize = n;
    let mut k2: usize = if e > a {
        space_len_before_exec(s, a, e)
    } else {
        0
    };
    while k2 > 0
        invariant
            n == s@.len(),
            a <= e <= n,
            a == trim_start(s@, 0),
            k2 == (if e > a { space_len_before(s@, a as int, e as int) } else { 0 }),
            k2 <= e - a,
            trim_end(s@, a as int, e as int) == trim_end(s@, a as int, n as int),
        decreases e,
    {
        e = e - k2;
        k2 = if e > a {
            space_len_before_exec(s, a, e)
        } else {
            0
        };
    }
    (a, e)
}

fn space_len_at_exec(s: &[u8], i: usize) -> (r: usize)
    requires
        i < s@.len(),
    ensures
        r == space_len_at(s@, i as int),
        r <= 3,
        r > 0 ==> i + r <= s@.len(),
{
    let n = s.len();
    let c = s[i];
    if (9 <= c && c <= 13) || c == 32 {
        1
    } else if n - i > 1 && c == 0xC2 && (s[i + 1] == 0x85 || s[i + 1] == 0xA0) {
        2
    } else if n - i > 2 && ((c == 0xE1 && s[i + 1] == 0x9A && s[i + 2] == 0x80) || (c == 0xE2 && s[i + 1]
        == 0x80 && ((0x80 <= s[i + 2] && s[i + 2] <= 0x8A) || s[i + 2] == 0xA8 || s[i + 2] == 0xA9 || s[i
        + 2] == 0xAF)) || (c == 0xE2 && s[i + 1] == 0x81 && s[i + 2] == 0x9F) || (c == 0xE3 && s[i + 1]
        == 0x80 && s[i + 2] == 0x80)) {
        3
    } else {
        0
    }
}

fn space_len_before_exec(s: &[u8], lo: usize, j: usize) -> (r: usize)
    requires
        lo < j <= s@.len(),
    ensures
        r == space_len_before(s@, lo as int, j as int),
        r <= j - lo,
{
    if j - 1 >= lo && space_len_at_exec(s, j - 1) == 1 {
        1
    } else if j - lo >= 2 && space_len_at_exec(s, j - 2) == 2 {
        2
    } else if j - lo >= 3 && space_len_at_exec(s, j - 3) == 3 {
        3
    } else {
        0
    }
}

/// The pieces of `s` between the separator bytes `sep`, empty pieces included; `cur` is the
/// piece being read and `acc` those complete when `s[i..]` is left.
pub open spec fn split_from(s: Seq<u8>, sep: u8, i: int, cur: Seq<u8>, acc: Seq<Seq<u8>>) -> Seq<Seq<u8>>
    decreases s.len() - i,
{
    if i >= s.len() {
        acc.push(cur)
    } else if s[i] == sep {
        split_from(s, sep, i + 1, Seq::empty(), acc.push(cur))
    } else {
        split_from(s, sep, i + 1, cur.push(s[i]), acc)
    }
}

/// The pieces of `s` between the separator bytes `sep`, as `str::split` gives them.
pub open spec fn split_on(s: Seq<u8>, sep: u8) -> Seq<Seq<u8>> {
    split_from(s, sep, 0, Seq::empty(), Seq::empty())
}

/// Whether `c` may stand in the piece placement field: a piece letter, a digit from 1 to 8,
/// or the rank separator.
pub open spec fn placement_byte(c: u8) -> bool {
    c == 75 || c == 81 || c == 82 || c == 66 || c == 78 || c == 80 || c == 107 || c == 113 || c == 114
        || c == 98 || c == 110 || c == 112 || (49 <= c <= 56) || c == 47
}

/// Whether `c` may stand in the castling field.
pub open spec fn castling_byte(c: u8) -> bool {
    c == 75 || c == 81 || c == 107 || c == 113 || c == 45
}

/// Whether `c` may stand in the en passant field.
pub open spec fn ep_byte(c: u8) -> bool {
    (97 <= c <= 104) || (49 <= c <= 56) || c == 45
}

/// Whether the words `w` have the shape of a FEN: placement, side (`w` or `b`), castling and
/// en passant, then an optional half move clock and an optional full move number.
pub open spec fn fen_shape(w: Seq<Seq<u8>>) -> bool {
    &&& 4 <= w.len() <= 6
    &&& w[0].len() > 0 && forall|i: int| 0 <= i < w[0].len() ==> placement_byte(#[trigger] w[0][i])
    &&& w[1] == seq![119u8] || w[1] == seq![98u8]
    &&& w[2].len() > 0 && forall|i: int| 0 <= i < w[2].len() ==> castling_byte(#[trigger] w[2][i])
    &&& w[3].len() > 0 && forall|i: int| 0 <= i < w[3].len() ==> ep_byte(#[trigger] w[3][i])
    &&& w.len() > 4 ==> is_number(w[4])
    &&& w.len() > 5 ==> is_number(w[5])
}

/// Whether `t` is one line of ASCII text.
pub open spec fn ascii_line(t: Seq<u8>) -> bool {
    t.len() > 0 && forall|i: int| 0 <= i < t.len() ==> #[trigger] t[i] < 128 && t[i] != 10
}

/// The piece whose FEN letter is `c`, one of `PNBRQKpnbrqk`.
pub open spec fn letter_piece(c: u8) -> Piece {
    if c == 80 {
        Piece::WhitePawn
    } else if c == 78 {
        Piece::WhiteKnight
    } else if c == 66 {
        Piece::WhiteBishop
    } else if c == 82 {
        Piece::WhiteRook
    } else if c == 81 {
        Piece::WhiteQueen
    } else if c == 75 {
        Piece::WhiteKing
    } else if c == 112 {
        Piece::BlackPawn
    } else if c == 110 {
        Piece::BlackKnight
    } else if c == 98 {
        Piece::BlackBishop
    } else if c == 114 {
        Piece::BlackRook
    } else if c == 113 {
        Piece::BlackQueen
    } else {
        Piece::BlackKing
    }
}

/// The piece whose FEN letter is `c`, which must be one.
pub fn piece_of_letter(c: u8) -> (r: Piece)
    ensures
        r == letter_piece(c),
{
    if c == 80 {
        Piece::WhitePawn
    } else if c == 78 {
        Piece::WhiteKnight
    } else if c == 66 {
        Piece::WhiteBishop
    } else if c == 82 {
        Piece::WhiteRook
    } else if c == 81 {
        Piece::WhiteQueen
    } else if c == 75 {
        Piece::WhiteKing
    } else if c == 112 {
        Piece::BlackPawn
    } else if c == 110 {
        Piece::BlackKnight
    } else if c == 98 {
        Piece::BlackBishop
    } else if c == 114 {
        Piece::BlackRook
    } else if c == 113 {
        Piece::BlackQueen
    } else {
        Piece::BlackKing
    }
}

/// Places the letters and digits `chars[i..]` of a rank on `squares` from square `idx` on:
/// a digit skips that many squares, a letter puts its piece. The result is the squares and
/// the index reached, or `None` when a piece would fall beyond the board.
pub open spec fn place_rank(chars: Seq<u8>, i: int, idx: int, squares: Seq<Option<Piece>>) -> Option<(Seq<Option<Piece>>, int)>
    decreases chars.len() - i,
{
    if i >= chars.len() || i < 0 {
        Some((squares, idx))
    } else if is_digit(chars[i]) {
        place_rank(chars, i + 1, idx + (chars[i] - 48), squares)
    } else if idx > 63 {
        None
    } else {
        place_rank(chars, i + 1, idx + 1, squares.update(idx, Some(letter_piece(chars[i]))))
    }
}

/// Places the ranks `ranks[r..]`, the eighth rank first, on `squares`; `None` when a piece
/// falls beyond the board or a rank does not fill its eight squares.
pub open spec fn place_ranks(ranks: Seq<Seq<u8>>, r: int, squares: Seq<Option<Piece>>) -> Option<Seq<Option<Piece>>>
    decreases 8 - r,
{
    if r >= 8 || r < 0 {
        Some(squares)
    } else {
        match place_rank(ranks[r], 0, (7 - r) * 8, squares) {
            None => None,
            Some((sq, idx)) => if idx != 64 - 8 * r {
                None
            } else {
                place_ranks(ranks, r + 1, sq)
            },
        }
    }
}

/// Whether placing the ranks `ranks[r..]` fails because a piece falls beyond the board,
/// rather than because a rank does not fill its eight squares.
pub open spec fn place_overflows(ranks: Seq<Seq<u8>>, r: int, squares: Seq<Option<Piece>>) -> bool
    decreases 8 - r,
{
    if r >= 8 || r < 0 {
        false
    } else {
        match place_rank(ranks[r], 0, (7 - r) * 8, squares) {
            None => true,
            Some((sq, idx)) => if idx != 64 - 8 * r {
                false
            } else {
                place_overflows(ranks, r + 1, sq)
            },
        }
    }
}

/// The words of the FEN `fen`, once trimmed.
pub open spec fn fen_words(fen: Seq<u8>) -> Seq<Seq<u8>> {
    words(trimmed(fen), 0)
}

/// Whether `fen` passes the checks before its numbers are read: one ASCII line of the shape of
/// a FEN, with eight ranks.
pub open spec fn fen_framed(fen: Seq<u8>) -> bool {
    ascii_line(trimmed(fen)) && fen_shape(fen_words(fen)) && split_on(fen_words(fen)[0], 47).len() == 8
}

/// The full move number of the FEN, 1 when it gives none.
pub open spec fn fen_fullmove(fen: Seq<u8>) -> nat {
    if fen_words(fen).len() == 6 {
        digits_value(fen_words(fen)[5])
    } else {
        1
    }
}

/// The half move clock of the FEN, 0 when it gives none.
pub open spec fn fen_halfmove(fen: Seq<u8>) -> nat {
    if fen_words(fen).len() >= 5 {
        digits_value(fen_words(fen)[4])
    } else {
        0
    }
}

/// Whether Black is to move in the FEN.
pub open spec fn fen_black(fen: Seq<u8>) -> bool {
    fen_words(fen)[1] == seq![98u8]
}

/// The ply the FEN sets: two per full move, one more with Black to move.
pub open spec fn fen_ply(fen: Seq<u8>) -> int {
    2 * (fen_fullmove(fen) - 1) + if fen_black(fen) { 1int } else { 0 }
}

/// The squares the FEN puts its pieces on, if its placement is sound.
pub open spec fn fen_squares(fen: Seq<u8>) -> Option<Seq<Option<Piece>>> {
    place_ranks(split_on(fen_words(fen)[0], 47), 0, Seq::new(64, |i: int| None::<Piece>))
}

/// Whether the placement of the FEN fails because a piece falls beyond the board.
pub open spec fn fen_overflows(fen: Seq<u8>) -> bool {
    place_overflows(split_on(fen_words(fen)[0], 47), 0, Seq::new(64, |i: int| None::<Piece>))
}

/// The en passant square of the FEN: `Some(None)` for `-`, `Some(Some(n))` for the square
/// numbered `n`, `None` when the field names no square.
pub open spec fn fen_epsq(fen: Seq<u8>) -> Option<Option<int>> {
    let e = fen_words(fen)[3];
    if e == seq![45u8] {
        Some(None)
    } else if e.len() == 2 && 97 <= e[0] <= 104 && 49 <= e[1] <= 56 {
        Some(Some((e[1] - 49) * 8 + (e[0] - 97)))
    } else {
        None
    }
}

/// The castling rights of the FEN, as bits, if its field names rights.
pub open spec fn fen_rights(fen: Seq<u8>) -> Option<u8> {
    let c = fen_words(fen)[2];
    if c == seq![45u8] {
        Some(0u8)
    } else {
        rights_of_letters(c)
    }
}

/// Whether every field of a framed FEN reads: the full move number fits a `usize` and is not
/// zero, the placement is sound, and the en passant square, the half move clock (a `u16`) and
/// the castling rights read.
pub open spec fn fen_fields_read(fen: Seq<u8>) -> bool {
    &&& fen_fullmove(fen) <= usize::MAX
    &&& fen_squares(fen) is Some
    &&& fen_epsq(fen) is Some
    &&& fen_halfmove(fen) <= u16::MAX
    &&& fen_rights(fen) is Some
}

/// Whether `set_fen` accepts `fen`: it reads and its ply lies within the history.
pub open spec fn fen_ok(fen: Seq<u8>, n_plies: int) -> bool {
    fen_framed(fen) && fen_fields_read(fen) && fen_fullmove(fen) >= 1 && fen_ply(fen) < n_plies
}

/// Whether reading `fen` would fail on its full move number rather than report an error: a
/// zero or oversized number, or a ply beyond the history once every other field reads.
pub open spec fn fen_panics(fen: Seq<u8>, n_plies: int) -> bool {
    &&& fen_framed(fen)
    &&& fen_fullmove(fen) <= usize::MAX
    &&& (fen_fullmove(fen) == 0 || fen_fullmove(fen) - 1 > usize::MAX / 2 || (fen_fields_read(fen)
        && fen_ply(fen) >= n_plies))
}

/// The bytes of `s` without leading and trailing white space.
pub fn trimmed_copy(s: &[u8]) -> (r: Vec<u8>)
    ensures
        r@ == trimmed(s@),
{
    let (a, e) = trim_bounds(s);
    let mut v: Vec<u8> = Vec::new();
    let mut i = a;
    while i < e
        invariant
            a <= i <= e <= s@.len(),
            v@ == s@.subrange(a as int, i as int),
        decreases e - i,
    {
        v.push(s[i]);
        i = i + 1;
        assert(v@ =~= s@.subrange(a as int, i as int));
    }
    v
}

/// Whether `t` is one line of ASCII text.
pub fn is_ascii_line(t: &Vec<u8>) -> (r: bool)
    ensures
        r == ascii_line(t@),
{
    if t.len() == 0 {
        return false;
    }
    let mut i: usize = 0;
    while i < t.len()
        invariant
            i <= t@.len(),
            forall|k: int| 0 <= k < i ==> #[trigger] t@[k] < 128 && t@[k] != 10,
        decreases t.len() - i,
    {
        if t[i] >= 128 || t[i] == 10 {
            return false;
        }
        i = i + 1;
    }
    true
}

fn all_bytes_in(t: &Vec<u8>, class: u8) -> (r: bool)
    requires
        class < 3,
    ensures
        r == (t@.len() > 0 && forall|i: int| 0 <= i < t@.len() ==> (if class == 0 {
            placement_byte(#[trigger] t@[i])
        } else if class == 1 {
            castling_byte(t@[i])
        } else {
            ep_byte(t@[i])
        })),
{
    if t.len() == 0 {
        return false;
    }
    let mut i: usize = 0;
    while i < t.len()
        invariant
            class < 3,
            i <= t@.len(),
            forall|k: int| 0 <= k < i ==> (if class == 0 {
                placement_byte(#[trigger] t@[k])
            } else if class == 1 {
                castling_byte(t@[k])
            } else {
                ep_byte(t@[k])
            }),
        decreases t.len() - i,
    {
        let c = t[i];
        let ok = if class == 0 {
            c == 75 || c == 81 || c == 82 || c == 66 || c == 78 || c == 80 || c == 107 || c == 113 || c
                == 114 || c == 98 || c == 110 || c == 112 || (49 <= c && c <= 56) || c == 47
        } else if class == 1 {
            c == 75 || c == 81 || c == 107 || c == 113 || c == 45
        } else {
            (97 <= c && c <= 104) || (49 <= c && c <= 56) || c == 45
        };
        if !ok {
            return false;
        }
        i = i + 1;
    }
    true
}

/// Whether the words `w` have the shape of a FEN.
pub fn has_fen_shape(w: &Vec<Vec<u8>>) -> (r: bool)
    ensures
        r == fen_shape(words_view(w@)),
{
    let ghost ws = words_view(w@);
    if w.len() < 4 || w.len() > 6 {
        return false;
    }
    assert(ws[0] == w@[0]@ && ws[1] == w@[1]@ && ws[2] == w@[2]@ && ws[3] == w@[3]@);
    if !all_bytes_in(&w[0], 0) {
        return false;
    }
    let side = &w[1];
    if !(side.len() == 1 && (side[0] == 119 || side[0] == 98)) {
        assert(!(ws[1] == seq![119u8] || ws[1] == seq![98u8])) by {
            if ws[1] == seq![119u8] || ws[1] == seq![98u8] {
                assert(ws[1].len() == 1);
            }
        }
        return false;
    }
    assert(ws[1] =~= seq![side@[0]]);
    if !all_bytes_in(&w[2], 1) || !all_bytes_in(&w[3], 2) {
        return false;
    }
    if w.len() > 4 {
        assert(ws[4] == w@[4]@);
        assert(w@[4]@.subrange(0, w@[4]@.len() as int) =~= w@[4]@);
        if !is_digits_from(&w[4], 0) {
            return false;
        }
    }
    if w.len() > 5 {
        assert(ws[5] == w@[5]@);
        assert(w@[5]@.subrange(0, w@[5]@.len() as int) =~= w@[5]@);
        if !is_digits_from(&w[5], 0) {
            return false;
        }
    }
    true
}

/// Splits `s` at the bytes `sep`, keeping empty pieces.
pub fn split_bytes(s: &Vec<u8>, sep: u8) -> (r: Vec<Vec<u8>>)
    ensures
        words_view(r@) == split_on(s@, sep),
{
    let mut acc: Vec<Vec<u8>> = Vec::new();
    let mut cur: Vec<u8> = Vec::new();
    let mut i: usize = 0;
    let ghost mut acc_v: Seq<Seq<u8>> = Seq::empty();
    while i < s.len()
        invariant
            i <= s@.len(),
            acc@.len() == acc_v.len(),
            forall|k: int| 0 <= k < acc@.len() ==> (#[trigger] acc@[k])@ == acc_v[k],
            split_from(s@, sep, i as int, cur@, acc_v) == split_on(s@, sep),
        decreases s.len() - i,
    {
        let c = s[i];
        if c == sep {
            proof {
                acc_v = acc_v.push(cur@);
            }
            acc.push(cur);
            cur = Vec::new();
            assert(cur@ =~= Seq::<u8>::empty());
        } else {
            cur.push(c);
        }
        i = i + 1;
    }
    proof {
        acc_v = acc_v.push(cur@);
    }
    acc.push(cur);
    assert(words_view(acc@) =~= acc_v);
    acc
}

/// Makes a `String` of the ASCII bytes `bytes`, one character each, with
/// `String::from_utf8`: ASCII is valid UTF-8, so its error arm is not taken.
#[verifier::external_body]
pub fn ascii_string(bytes: Vec<u8>) -> (r: String)
    requires
        all_ascii(bytes@),
    ensures
        r@ == Seq::new(bytes@.len(), |i: int| bytes@[i] as char),
{
    match String::from_utf8(bytes) {
        Ok(s) => s,
        Err(_) => String::new(),
    }
}

/// The digit of a run of `run` empty squares in a FEN, or nothing for none.
pub open spec fn run_digit(run: int) -> Seq<u8> {
    if run > 0 {
        seq![(48 + run) as u8]
    } else {
        Seq::empty()
    }
}

/// The FEN text of the squares of rank `r` from file `f` on, after a run of `run` empty
/// squares: piece letters, and digits for runs of empty squares.
pub open spec fn rank_text(squares: Seq<Option<Piece>>, r: int, f: int, run: int) -> Seq<u8>
    decreases 8 - f,
{
    if f >= 8 || f < 0 {
        run_digit(run)
    } else {
        match squares[8 * r + f] {
            None => rank_text(squares, r, f + 1, run + 1),
            Some(pc) => run_digit(run) + seq![pc.symbol() as u8] + rank_text(squares, r, f + 1, 0),
        }
    }
}

/// The FEN placement text of the ranks `r` down to the first, separated by `/`.
pub open spec fn placement_text(squares: Seq<Option<Piece>>, r: int) -> Seq<u8>
    decreases r,
{
    if r <= 0 {
        rank_text(squares, 0, 0, 0)
    } else {
        rank_text(squares, r, 0, 0) + seq![47u8] + placement_text(squares, r - 1)
    }
}

/// The decimal digits of `n`.
pub open spec fn decimal(n: nat) -> Seq<u8>
    decreases n,
{
    if n < 10 {
        seq![(48 + n) as u8]
    } else {
        decimal(n / 10).push((48 + n % 10) as u8)
    }
}

/// The name of the square numbered `i`: its file letter and rank digit.
pub open spec fn square_text(i: int) -> Seq<u8> {
    seq![(97 + i % 8) as u8, (49 + i / 8) as u8]
}

/// The decimal digits of `n`.
pub fn decimal_bytes(n: u64) -> (r: Vec<u8>)
    ensures
        r@ == decimal(n as nat),
    decreases n,
{
    if n < 10 {
        let mut v: Vec<u8> = Vec::new();
        v.push((48 + n) as u8);
        assert(v@ =~= decimal(n as nat));
        v
    } else {
        let mut v = decimal_bytes(n / 10);
        v.push((48 + n % 10) as u8);
        v
    }
}

/// Whether every byte of `s` is ASCII.
pub open spec fn all_ascii(s: Seq<u8>) -> bool {
    forall|i: int| 0 <= i < s.len() ==> #[trigger] s[i] < 128
}

/// The text of a rank is ASCII.
pub proof fn lemma_rank_text_ascii(squares: Seq<Option<Piece>>, r: int, f: int, run: int)
    requires
        0 <= run <= f <= 8,
    ensures
        all_ascii(rank_text(squares, r, f, run)),
    decreases 8 - f,
{
    if f < 8 {
        match squares[8 * r + f] {
            None => {
                lemma_rank_text_ascii(squares, r, f + 1, run + 1);
            },
            Some(pc) => {
                lemma_rank_text_ascii(squares, r, f + 1, 0);
                let a = run_digit(run) + seq![pc.symbol() as u8];
                assert(all_ascii(a));
                assert(rank_text(squares, r, f, run) == a + rank_text(squares, r, f + 1, 0));
            },
        }
    }
}

/// The placement text is ASCII.
pub proof fn lemma_placement_text_ascii(squares: Seq<Option<Piece>>, r: int)
    ensures
        all_ascii(placement_text(squares, r)),
    decreases r,
{
    if r <= 0 {
        lemma_rank_text_ascii(squares, 0, 0, 0);
    } else {
        lemma_rank_text_ascii(squares, r, 0, 0);
        lemma_placement_text_ascii(squares, r - 1);
        assert(placement_text(squares, r) == rank_text(squares, r, 0, 0) + seq![47u8] + placement_text(squares, r - 1));
    }
}

/// Decimal digits are ASCII.
pub proof fn lemma_decimal_ascii(n: nat)
    ensures
        all_ascii(decimal(n)),
    decreases n,
{
    if n >= 10 {
        lemma_decimal_ascii(n / 10);
    }
}

} // verus!
