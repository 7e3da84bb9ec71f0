use vstd::prelude::*;
use vstd::string::StringSliceAdditionalSpecFns;
use crate::parse::{
    all_digits, digits_to_u64, digits_value, is_digit, is_digits_from, is_number, is_space, is_space_byte,
    split_words, word_is, words, words_view,
};

use std::sync::Arc;
use std::sync::atomic::{AtomicBool, AtomicU64, Ordering};
use std::time::Instant;
use crate::board::Board;
use crate::color::Color;
use crate::moov::Move;

verus! {

#[verifier::external_type_specification]
#[verifier::external_body]
pub struct ExInstant(Instant);

/// `Instant::now()`: the current time of the monotonic clock. Nothing is stated of it.
pub assume_specification[ Instant::now ]() -> Instant;

/// The nanoseconds since `start`: `start.elapsed().as_nanos()`. It depends on the clock;
/// nothing is stated of it.
#[verifier::external_body]
fn nanos_since(start: &Instant) -> (r: u128) {
    start.elapsed().as_nanos()
}


/// The keys of a `go` command that take a value.
#[derive(Clone, Copy, PartialEq, Eq, Structural, Debug)]
pub enum GoKey {
    Depth,
    Nodes,
    Movetime,
    Wtime,
    Btime,
    Winc,
    Binc,
    Mate,
    Movestogo,
}

/// The word that names `k` on a `go` command line.
pub open spec fn key_word(k: GoKey) -> Seq<u8> {
    match k {
        GoKey::Depth => seq![100u8, 101, 112, 116, 104],
        GoKey::Nodes => seq![110u8, 111, 100, 101, 115],
        GoKey::Movetime => seq![109u8, 111, 118, 101, 116, 105, 109, 101],
        GoKey::Wtime => seq![119u8, 116, 105, 109, 101],
        GoKey::Btime => seq![98u8, 116, 105, 109, 101],
        GoKey::Winc => seq![119u8, 105, 110, 99],
        GoKey::Binc => seq![98u8, 105, 110, 99],
        GoKey::Mate => seq![109u8, 97, 116, 101],
        GoKey::Movestogo => seq![109u8, 111, 118, 101, 115, 116, 111, 103, 111],
    }
}

/// The word `infinite`.
pub open spec fn infinite_word() -> Seq<u8> {
    seq![105u8, 110, 102, 105, 110, 105, 116, 101]
}

/// The key that the word `t` names, if any.
pub open spec fn key_of(t: Seq<u8>) -> Option<GoKey> {
    if t == key_word(GoKey::Depth) {
        Some(GoKey::Depth)
    } else if t == key_word(GoKey::Nodes) {
        Some(GoKey::Nodes)
    } else if t == key_word(GoKey::Movetime) {
        Some(GoKey::Movetime)
    } else if t == key_word(GoKey::Wtime) {
        Some(GoKey::Wtime)
    } else if t == key_word(GoKey::Btime) {
        Some(GoKey::Btime)
    } else if t == key_word(GoKey::Winc) {
        Some(GoKey::Winc)
    } else if t == key_word(GoKey::Binc) {
        Some(GoKey::Binc)
    } else if t == key_word(GoKey::Mate) {
        Some(GoKey::Mate)
    } else if t == key_word(GoKey::Movestogo) {
        Some(GoKey::Movestogo)
    } else {
        None
    }
}

/// Reads the key that the word `t` names.
pub fn key_of_word(t: &Vec<u8>) -> (r: Option<GoKey>)
    ensures
        r == key_of(t@),
{
    let w = [100u8, 101, 112, 116, 104];
    assert(w@ == key_word(GoKey::Depth));
    if word_is(t, &w) {
        return Some(GoKey::Depth);
    }
    let w = [110u8, 111, 100, 101, 115];
    assert(w@ == key_word(GoKey::Nodes));
    if word_is(t, &w) {
        return Some(GoKey::Nodes);
    }
    let w = [109u8, 111, 118, 101, 116, 105, 109, 101];
    assert(w@ == key_word(GoKey::Movetime));
    if word_is(t, &w) {
        return Some(GoKey::Movetime);
    }
    let w = [119u8, 116, 105, 109, 101];
    assert(w@ == key_word(GoKey::Wtime));
    if word_is(t, &w) {
        return Some(GoKey::Wtime);
    }
    let w = [98u8, 116, 105, 109, 101];
    assert(w@ == key_word(GoKey::Btime));
    if word_is(t, &w) {
        return Some(GoKey::Btime);
    }
    let w = [119u8, 105, 110, 99];
    assert(w@ == key_word(GoKey::Winc));
    if word_is(t, &w) {
        return Some(GoKey::Winc);
    }
    let w = [98u8, 105, 110, 99];
    assert(w@ == key_word(GoKey::Binc));
    if word_is(t, &w) {
        return Some(GoKey::Binc);
    }
    let w = [109u8, 97, 116, 101];
    assert(w@ == key_word(GoKey::Mate));
    if word_is(t, &w) {
        return Some(GoKey::Mate);
    }
    let w = [109u8, 111, 118, 101, 115, 116, 111, 103, 111];
    assert(w@ == key_word(GoKey::Movestogo));
    if word_is(t, &w) {
        return Some(GoKey::Movestogo);
    }
    None
}

/// For each key of a `go` line, the index of the word that last gave it a value, and whether
/// `infinite` was seen.
#[derive(Clone, Copy, PartialEq, Eq, Structural, Debug)]
pub struct GoCaptures {
    pub infinite: bool,
    pub depth: Option<usize>,
    pub nodes: Option<usize>,
    pub movetime: Option<usize>,
    pub wtime: Option<usize>,
    pub btime: Option<usize>,
    pub winc: Option<usize>,
    pub binc: Option<usize>,
    pub mate: Option<usize>,
    pub movestogo: Option<usize>,
}

impl GoCaptures {
    /// Nothing seen yet.
    pub open spec fn none() -> GoCaptures {
        GoCaptures {
            infinite: false,
            depth: None,
            nodes: None,
            movetime: None,
            wtime: None,
            btime: None,
            winc: None,
            binc: None,
            mate: None,
            movestogo: None,
        }
    }

    /// The index of the word that gave `k` its value.
    pub open spec fn get(self, k: GoKey) -> Option<usize> {
        match k {
            GoKey::Depth => self.depth,
            GoKey::Nodes => self.nodes,
            GoKey::Movetime => self.movetime,
            GoKey::Wtime => self.wtime,
            GoKey::Btime => self.btime,
            GoKey::Winc => self.winc,
            GoKey::Binc => self.binc,
            GoKey::Mate => self.mate,
            GoKey::Movestogo => self.movestogo,
        }
    }

    /// These captures with the value of `k` at word `v`.
    pub open spec fn set(self, k: GoKey, v: usize) -> GoCaptures {
        match k {
            GoKey::Depth => GoCaptures { depth: Some(v), ..self },
            GoKey::Nodes => GoCaptures { nodes: Some(v), ..self },
            GoKey::Movetime => GoCaptures { movetime: Some(v), ..self },
            GoKey::Wtime => GoCaptures { wtime: Some(v), ..self },
            GoKey::Btime => GoCaptures { btime: Some(v), ..self },
            GoKey::Winc => GoCaptures { winc: Some(v), ..self },
            GoKey::Binc => GoCaptures { binc: Some(v), ..self },
            GoKey::Mate => GoCaptures { mate: Some(v), ..self },
            GoKey::Movestogo => GoCaptures { movestogo: Some(v), ..self },
        }
    }

    /// Nothing seen yet.
    pub fn empty() -> (r: GoCaptures)
        ensures
            r == GoCaptures::none(),
    {
        GoCaptures {
            infinite: false,
            depth: None,
            nodes: None,
            movetime: None,
            wtime: None,
            btime: None,
            winc: None,
            binc: None,
            mate: None,
            movestogo: None,
        }
    }

    /// These captures with the value of `k` at word `v`.
    pub fn with(self, k: GoKey, v: usize) -> (r: GoCaptures)
        ensures
            r == self.set(k, v),
    {
        let mut r = self;
        match k {
            GoKey::Depth => r.depth = Some(v),
            GoKey::Nodes => r.nodes = Some(v),
            GoKey::Movetime => r.movetime = Some(v),
            GoKey::Wtime => r.wtime = Some(v),
            GoKey::Btime => r.btime = Some(v),
            GoKey::Winc => r.winc = Some(v),
            GoKey::Binc => r.binc = Some(v),
            GoKey::Mate => r.mate = Some(v),
            GoKey::Movestogo => r.movestogo = Some(v),
        }
        r
    }
}

/// Whether `t` is one or more decimal digits after an optional minus sign.
pub open spec fn is_signed_number(t: Seq<u8>) -> bool {
    is_number(t) || (t.len() > 1 && t[0] == 45 && all_digits(t.drop_first()))
}

/// Whether `t` is a value that the key `k` takes: the clock times may be negative.
pub open spec fn value_ok(k: GoKey, t: Seq<u8>) -> bool {
    match k {
        GoKey::Wtime | GoKey::Btime => is_signed_number(t),
        _ => is_number(t),
    }
}

/// Reads the words `w[i..]` of a `go` line into `c`: `infinite` marks itself, a key followed
/// by a value it takes records the value's index (a later one replaces an earlier one), and
/// any other word is skipped.
pub open spec fn scan(w: Seq<Seq<u8>>, i: int, c: GoCaptures) -> GoCaptures
    decreases w.len() - i,
{
    if i < 0 || i >= w.len() {
        c
    } else if w[i] == infinite_word() {
        scan(w, i + 1, GoCaptures { infinite: true, ..c })
    } else if i + 1 < w.len() && key_of(w[i]) is Some && value_ok(key_of(w[i])->0, w[i + 1]) {
        scan(w, i + 2, c.set(key_of(w[i])->0, (i + 1) as usize))
    } else {
        scan(w, i + 1, c)
    }
}

/// Whether every value recorded in `c` is a word of `w` that its key takes.
pub open spec fn captures_ok(w: Seq<Seq<u8>>, c: GoCaptures) -> bool {
    forall|k: GoKey|
        (#[trigger] c.get(k)) matches Some(i) ==> i < w.len() && value_ok(k, w[i as int])
}

proof fn lemma_scan_ok(w: Seq<Seq<u8>>, i: int, c: GoCaptures)
    requires
        0 <= i,
        w.len() <= usize::MAX,
        captures_ok(w, c),
    ensures
        captures_ok(w, scan(w, i, c)),
    decreases w.len() - i,
{
    if i >= w.len() {
    } else if w[i] == infinite_word() {
        let c2 = GoCaptures { infinite: true, ..c };
        assert forall|k: GoKey| (#[trigger] c2.get(k)) == c.get(k) by {}
        lemma_scan_ok(w, i + 1, c2);
    } else if i + 1 < w.len() && key_of(w[i]) is Some && value_ok(key_of(w[i])->0, w[i + 1]) {
        let k0 = key_of(w[i])->0;
        let c2 = c.set(k0, (i + 1) as usize);
        assert forall|k: GoKey| (#[trigger] c2.get(k)) == (if k == k0 { Some((i + 1) as usize) } else { c.get(k) }) by {}
        lemma_scan_ok(w, i + 2, c2);
    } else {
        lemma_scan_ok(w, i + 1, c);
    }
}


/// Whether the word `t` is a value that the key `k` takes.
pub fn value_ok_for(k: GoKey, t: &Vec<u8>) -> (r: bool)
    ensures
        r == value_ok(k, t@),
{
    assert(t@.subrange(0, t@.len() as int) =~= t@);
    match k {
        GoKey::Wtime | GoKey::Btime => {
            if is_digits_from(t, 0) {
                true
            } else if t.len() > 1 && t[0] == 45 {
                assert(t@.subrange(1, t@.len() as int) =~= t@.drop_first());
                is_digits_from(t, 1)
            } else {
                false
            }
        },
        _ => is_digits_from(t, 0),
    }
}

/// Reads the words of a `go` line into captures, as `scan` says.
pub fn scan_words(w: &Vec<Vec<u8>>) -> (c: GoCaptures)
    ensures
        c == scan(words_view(w@), 0, GoCaptures::none()),
        captures_ok(words_view(w@), c),
{
    let ghost ws = words_view(w@);
    let mut c = GoCaptures::empty();
    let mut i: usize = 0;
    let inf = [105u8, 110, 102, 105, 110, 105, 116, 101];
    assert(inf@ == infinite_word());
    while i < w.len()
        invariant
            ws == words_view(w@),
            i <= w@.len() + 1,
            inf@ == infinite_word(),
            scan(ws, i as int, c) == scan(ws, 0, GoCaptures::none()),
        decreases w@.len() + 1 - i,
    {
        assert(ws[i as int] == w@[i as int]@);
        if word_is(&w[i], &inf) {
            c.infinite = true;
            i = i + 1;
        } else {
            let key = key_of_word(&w[i]);
            match key {
                Some(k) => {
                    if i + 1 < w.len() && value_ok_for(k, &w[i + 1]) {
                        assert(ws[i + 1] == w@[i + 1]@);
                        c = c.with(k, i + 1);
                        i = i + 2;
                    } else {
                        proof {
                            if i + 1 < w.len() {
                                assert(ws[i + 1] == w@[i + 1]@);
                            }
                        }
                        i = i + 1;
                    }
                },
                None => {
                    i = i + 1;
                },
            }
        }
    }
    let n = w.len();
    proof {
        assert(captures_ok(ws, GoCaptures::none()));
        lemma_scan_ok(ws, 0, GoCaptures::none());
    }
    c
}

/// How long and how far a search may run, as a `go` command gives it. Times are in
/// milliseconds.
#[derive(Clone, Copy, PartialEq, Eq, Structural, Debug)]
pub enum TimeControl {
    Infinite,
    FixedDuration(u64),
    FixedDepth(i8),
    FixedNodes(u64),
    Variable {
        wtime: u64,
        btime: u64,
        winc: Option<u64>,
        binc: Option<u64>,
        moves_to_go: Option<u32>,
    },
}

/// Why a `go` command was refused.
#[derive(Clone, Copy, PartialEq, Eq, Structural, Debug)]
pub enum GoError {
    InvalidFormat,
    NotImplemented,
    BadNodes,
    BadDepth,
    BadTime,
    BadMovesToGo,
    SeveralLimits,
    OrphanClockParameter,
    BadCombination,
}

impl GoError {
    /// The text that reports this error, as a sequence of characters.
    pub open spec fn text(self) -> Seq<char> {
        match self {
            GoError::InvalidFormat => "Invalid go format."@,
            GoError::NotImplemented => "Feature is not implemented."@,
            GoError::BadNodes => "Unable to parse nodes."@,
            GoError::BadDepth => "Unable to parse depth."@,
            GoError::BadTime => "Unable to parse time."@,
            GoError::BadMovesToGo => "Unable to parse movestogo."@,
            GoError::SeveralLimits => "Only one of depth, nodes, or movetime may be given."@,
            GoError::OrphanClockParameter => "Increment or movestogo given without a clock time."@,
            GoError::BadCombination => "Bad combination of go parameters provided."@,
        }
    }

    /// The text that reports this error.
    pub fn message(self) -> (r: &'static str)
        ensures
            r@ == self.text(),
    {
        match self {
            GoError::InvalidFormat => "Invalid go format.",
            GoError::NotImplemented => "Feature is not implemented.",
            GoError::BadNodes => "Unable to parse nodes.",
            GoError::BadDepth => "Unable to parse depth.",
            GoError::BadTime => "Unable to parse time.",
            GoError::BadMovesToGo => "Unable to parse movestogo.",
            GoError::SeveralLimits => "Only one of depth, nodes, or movetime may be given.",
            GoError::OrphanClockParameter => "Increment or movestogo given without a clock time.",
            GoError::BadCombination => "Bad combination of go parameters provided.",
        }
    }
}

/// The number at word `idx` of `w`, when it is at most `max`; `Err` when it is larger.
pub open spec fn opt_number(w: Seq<Seq<u8>>, idx: Option<usize>, max: nat) -> Result<Option<nat>, ()> {
    match idx {
        None => Ok(None),
        Some(i) => if digits_value(w[i as int]) <= max {
            Ok(Some(digits_value(w[i as int])))
        } else {
            Err(())
        },
    }
}

/// The time in milliseconds at word `idx` of `w`, read as an `i64` and then clamped below at
/// zero; `Err` when it does not fit an `i64`.
pub open spec fn opt_millis(w: Seq<Seq<u8>>, idx: Option<usize>) -> Result<Option<nat>, ()> {
    match idx {
        None => Ok(None),
        Some(i) => {
            let t = w[i as int];
            if t.len() > 0 && t[0] == 45 {
                if digits_value(t.drop_first()) <= 0x8000_0000_0000_0000 {
                    Ok(Some(0))
                } else {
                    Err(())
                }
            } else if digits_value(t) <= 0x7fff_ffff_ffff_ffff {
                Ok(Some(digits_value(t)))
            } else {
                Err(())
            }
        },
    }
}

/// Reads the number at word `idx`, of at most `max`.
fn read_number(w: &Vec<Vec<u8>>, idx: Option<usize>, max: u64) -> (r: Result<Option<u64>, ()>)
    requires
        idx matches Some(i) ==> i < w@.len() && is_number(w@[i as int]@),
    ensures
        r == (match opt_number(words_view(w@), idx, max as nat) {
            Ok(Some(v)) => Ok(Some(v as u64)),
            Ok(None) => Ok(None),
            Err(e) => Err(e),
        }),
{
    match idx {
        None => Ok(None),
        Some(i) => {
            let t = &w[i];
            assert(words_view(w@)[i as int] == t@);
            assert(t@.subrange(0, t@.len() as int) =~= t@);
            match digits_to_u64(t.as_slice(), 0, t.len()) {
                Some(v) => if v <= max {
                    Ok(Some(v))
                } else {
                    Err(())
                },
                None => Err(()),
            }
        },
    }
}

/// Reads the time at word `idx`, clamped below at zero.
fn read_millis(w: &Vec<Vec<u8>>, idx: Option<usize>) -> (r: Result<Option<u64>, ()>)
    requires
        idx matches Some(i) ==> i < w@.len() && is_signed_number(w@[i as int]@),
    ensures
        r == (match opt_millis(words_view(w@), idx) {
            Ok(Some(v)) => Ok(Some(v as u64)),
            Ok(None) => Ok(None),
            Err(e) => Err(e),
        }),
{
    match idx {
        None => Ok(None),
        Some(i) => {
            let t = &w[i];
            assert(words_view(w@)[i as int] == t@);
            if t.len() > 0 && t[0] == 45 {
                assert(!is_digit(t@[0]));
                assert(t@.subrange(1, t@.len() as int) =~= t@.drop_first());
                match digits_to_u64(t.as_slice(), 1, t.len()) {
                    Some(v) => if v <= 0x8000_0000_0000_0000 {
                        Ok(Some(0))
                    } else {
                        Err(())
                    },
                    None => Err(()),
                }
            } else {
                assert(t@.subrange(0, t@.len() as int) =~= t@);
                match digits_to_u64(t.as_slice(), 0, t.len()) {
                    Some(v) => if v <= 0x7fff_ffff_ffff_ffff {
                        Ok(Some(v))
                    } else {
                        Err(())
                    },
                    None => Err(()),
                }
            }
        },
    }
}

/// What the limits `nodes`, `depth` and `movetime` of a `go` line ask for: at most one of
/// them may be given.
pub open spec fn fixed_spec(w: Seq<Seq<u8>>, c: GoCaptures) -> Result<Option<TimeControl>, GoError> {
    match opt_number(w, c.nodes, u64::MAX as nat) {
        Err(_) => Err(GoError::BadNodes),
        Ok(n) => match opt_number(w, c.depth, 127) {
            Err(_) => Err(GoError::BadDepth),
            Ok(d) => match opt_millis(w, c.movetime) {
                Err(_) => Err(GoError::BadTime),
                Ok(m) => {
                    let count = (if n is Some { 1int } else { 0 }) + (if d is Some { 1int } else { 0 })
                        + (if m is Some { 1int } else { 0 });
                    if count > 1 {
                        Err(GoError::SeveralLimits)
                    } else if n is Some {
                        Ok(Some(TimeControl::FixedNodes(n->0 as u64)))
                    } else if d is Some {
                        Ok(Some(TimeControl::FixedDepth(d->0 as i8)))
                    } else if m is Some {
                        Ok(Some(TimeControl::FixedDuration(m->0 as u64)))
                    } else {
                        Ok(None)
                    }
                },
            },
        },
    }
}

/// What the clock parameters of a `go` line ask for: increments and `movestogo` need a clock
/// time, and a missing clock time counts as zero.
pub open spec fn variable_spec(w: Seq<Seq<u8>>, c: GoCaptures) -> Result<Option<TimeControl>, GoError> {
    match (opt_millis(w, c.wtime), opt_millis(w, c.btime), opt_millis(w, c.winc), opt_millis(
        w,
        c.binc,
    )) {
        (Ok(wt), Ok(bt), Ok(wi), Ok(bi)) => match opt_number(w, c.movestogo, u32::MAX as nat) {
            Err(_) => Err(GoError::BadMovesToGo),
            Ok(mtg) => if wt is None && bt is None {
                if wi is Some || bi is Some || mtg is Some {
                    Err(GoError::OrphanClockParameter)
                } else {
                    Ok(None)
                }
            } else {
                Ok(
                    Some(
                        TimeControl::Variable {
                            wtime: if wt is Some { wt->0 as u64 } else { 0 },
                            btime: if bt is Some { bt->0 as u64 } else { 0 },
                            winc: if wi is Some { Some(wi->0 as u64) } else { None },
                            binc: if bi is Some { Some(bi->0 as u64) } else { None },
                            moves_to_go: if mtg is Some { Some(mtg->0 as u32) } else { None },
                        },
                    ),
                )
            },
        },
        _ => Err(GoError::BadTime),
    }
}

/// Whether `s` starts with the word `go`, alone or followed by white space.
pub open spec fn go_prefix_ok(s: Seq<u8>) -> bool {
    s.len() >= 2 && s[0] == 103 && s[1] == 111 && (s.len() == 2 || is_space(s[2]))
}

/// What a `go` command line asks for. `mate` is refused, `infinite` wins over any limit,
/// a fixed limit and a clock may not be given together, and a line with neither searches
/// until stopped.
pub open spec fn go_spec(s: Seq<u8>) -> Result<TimeControl, GoError> {
    if !go_prefix_ok(s) {
        Err(GoError::InvalidFormat)
    } else {
        let w = words(s, 2);
        let c = scan(w, 0, GoCaptures::none());
        if c.mate is Some {
            Err(GoError::NotImplemented)
        } else if c.infinite {
            Ok(TimeControl::Infinite)
        } else {
            match fixed_spec(w, c) {
                Err(e) => Err(e),
                Ok(f) => match variable_spec(w, c) {
                    Err(e) => Err(e),
                    Ok(v) => if f is Some && v is Some {
                        Err(GoError::BadCombination)
                    } else if f is Some {
                        Ok(f->0)
                    } else if v is Some {
                        Ok(v->0)
                    } else {
                        Ok(TimeControl::Infinite)
                    },
                },
            }
        }
    }
}

impl TimeControl {
    /// Reads the fixed limit of a `go` line from its words and captures.
    pub fn parse_fixed(w: &Vec<Vec<u8>>, c: GoCaptures) -> (r: Result<Option<TimeControl>, GoError>)
        requires
            captures_ok(words_view(w@), c),
        ensures
            r == fixed_spec(words_view(w@), c),
    {
        assert(c.get(GoKey::Nodes) == c.nodes && c.get(GoKey::Depth) == c.depth && c.get(GoKey::Movetime) == c.movetime);
        let nodes = match read_number(w, c.nodes, u64::MAX) {
            Ok(n) => n,
            Err(_) => return Err(GoError::BadNodes),
        };
        let depth = match read_number(w, c.depth, 127) {
            Ok(d) => d,
            Err(_) => return Err(GoError::BadDepth),
        };
        let movetime = match read_millis(w, c.movetime) {
            Ok(m) => m,
            Err(_) => return Err(GoError::BadTime),
        };
        let count = (if nodes.is_some() { 1u32 } else { 0 }) + (if depth.is_some() { 1u32 } else { 0 })
            + (if movetime.is_some() { 1u32 } else { 0 });
        if count > 1 {
            return Err(GoError::SeveralLimits);
        }
        match nodes {
            Some(n) => return Ok(Some(TimeControl::FixedNodes(n))),
            None => {},
        }
        match depth {
            Some(d) => return Ok(Some(TimeControl::FixedDepth(d as i8))),
            None => {},
        }
        match movetime {
            Some(m) => Ok(Some(TimeControl::FixedDuration(m))),
            None => Ok(None),
        }
    }

    /// Reads the clock parameters of a `go` line from its words and captures.
    pub fn parse_variable(w: &Vec<Vec<u8>>, c: GoCaptures) -> (r: Result<Option<TimeControl>, GoError>)
        requires
            captures_ok(words_view(w@), c),
        ensures
            r == variable_spec(words_view(w@), c),
    {
        assert(c.get(GoKey::Wtime) == c.wtime && c.get(GoKey::Btime) == c.btime && c.get(GoKey::Winc) == c.winc
            && c.get(GoKey::Binc) == c.binc && c.get(GoKey::Movestogo) == c.movestogo);
        let wtime = match read_millis(w, c.wtime) {
            Ok(t) => t,
            Err(_) => return Err(GoError::BadTime),
        };
        let btime = match read_millis(w, c.btime) {
            Ok(t) => t,
            Err(_) => return Err(GoError::BadTime),
        };
        let winc = match read_millis(w, c.winc) {
            Ok(t) => t,
            Err(_) => return Err(GoError::BadTime),
        };
        let binc = match read_millis(w, c.binc) {
            Ok(t) => t,
            Err(_) => return Err(GoError::BadTime),
        };
        let moves_to_go = match read_number(w, c.movestogo, 0xffff_ffff) {
            Ok(m) => m,
            Err(_) => return Err(GoError::BadMovesToGo),
        };
        if wtime.is_none() && btime.is_none() {
            if winc.is_some() || binc.is_some() || moves_to_go.is_some() {
                return Err(GoError::OrphanClockParameter);
            }
            return Ok(None);
        }
        Ok(
            Some(
                TimeControl::Variable {
                    wtime: match wtime {
                        Some(t) => t,
                        None => 0,
                    },
                    btime: match btime {
                        Some(t) => t,
                        None => 0,
                    },
                    winc,
                    binc,
                    moves_to_go: match moves_to_go {
                        Some(m) => Some(m as u32),
                        None => None,
                    },
                },
            ),
        )
    }

    /// Reads a `go` command line.
    pub fn parse_go(line: &[u8]) -> (r: Result<TimeControl, GoError>)
        ensures
            r == go_spec(line@),
    {
        if !(line.len() >= 2 && line[0] == 103 && line[1] == 111 && (line.len() == 2 || is_space_byte(line[2]))) {
            return Err(GoError::InvalidFormat);
        }
        let w = split_words(line, 2);
        assert(words_view(w@) =~= words(line@, 2));
        let c = scan_words(&w);
        if c.mate.is_some() {
            return Err(GoError::NotImplemented);
        }
        if c.infinite {
            return Ok(TimeControl::Infinite);
        }
        let fixed = match TimeControl::parse_fixed(&w, c) {
            Ok(f) => f,
            Err(e) => return Err(e),
        };
        let variable = match TimeControl::parse_variable(&w, c) {
            Ok(v) => v,
            Err(e) => return Err(e),
        };
        if fixed.is_some() && variable.is_some() {
            return Err(GoError::BadCombination);
        }
        match fixed {
            Some(f) => Ok(f),
            None => match variable {
                Some(v) => Ok(v),
                None => Ok(TimeControl::Infinite),
            },
        }
    }
}


/// Nanoseconds in a millisecond.
pub const NANOS_PER_MILLI: u128 = 1_000_000;

/// The nodes a search counts before it adds them to the shared counter.
pub const BATCH_SIZE: u64 = 4096;

/// Up to this depth the time a depth may take is not scaled by the best move's effort.
pub const SEARCHES_WO_TIMER_UPDATE: i8 = 8;

/// The time to aim at and the most to spend, in nanoseconds, for `time` left on the clock,
/// `inc` of increment and `mtg` moves to the next time control: a share of the time plus the
/// increment, at most all of it, and a quarter of the rest on top as the maximum.
pub open spec fn time_budget(time: int, inc: int, mtg: int) -> (int, int) {
    let share = time / mtg + inc;
    let target = if time <= share { time } else { share };
    (target, target + (time - target) / 4)
}

/// Whether a search under `control` stops now, `elapsed` nanoseconds after its start, with
/// `overhead` nanoseconds kept in reserve, `maximum` the most a clock game spends, and `nodes`
/// searched so far.
pub open spec fn stop_rule(control: TimeControl, elapsed: int, overhead: int, maximum: int, nodes: int) -> bool {
    match control {
        TimeControl::Infinite => false,
        TimeControl::FixedDuration(ms) => elapsed + overhead >= ms * 1_000_000,
        TimeControl::Variable { .. } => elapsed + overhead >= maximum,
        TimeControl::FixedDepth(_) => false,
        TimeControl::FixedNodes(n) => nodes >= n,
    }
}

/// Whether a search under `control` starts depth `depth`, `elapsed` nanoseconds after its
/// start, with `overhead` in reserve and `budget` the share of the target that a clock game
/// may have spent before a new depth.
pub open spec fn start_rule(control: TimeControl, depth: int, elapsed: int, overhead: int, budget: int) -> bool {
    depth <= 1 || match control {
        TimeControl::Infinite => true,
        TimeControl::FixedDuration(ms) => elapsed + overhead <= ms * 1_000_000,
        TimeControl::FixedDepth(d) => depth <= d,
        TimeControl::FixedNodes(_) => true,
        TimeControl::Variable { .. } => elapsed + overhead <= budget,
    }
}

/// What the start check answers once it has read the stop flag, the pondering flag and the
/// clock: never once stopped, always while pondering, else as `start_rule` says.
pub open spec fn start_decision_spec(
    stopped: bool,
    pondering: bool,
    control: TimeControl,
    depth: int,
    elapsed: int,
    overhead: int,
    budget: int,
) -> bool {
    !stopped && (pondering || start_rule(control, depth, elapsed, overhead, budget))
}

/// What the stop check answers once it has read the stop flag, the pondering flag, the clock
/// and the node counter: always once stopped, never while pondering, else as `stop_rule` says.
pub open spec fn stop_decision_spec(
    stopped: bool,
    pondering: bool,
    control: TimeControl,
    elapsed: int,
    overhead: int,
    maximum: int,
    nodes: int,
) -> bool {
    stopped || (!pondering && stop_rule(control, elapsed, overhead, maximum, nodes))
}

/// The sum of the first `n` entries of `t`.
pub open spec fn table_sum(t: Seq<u64>, n: int) -> int
    decreases n,
{
    if n <= 0 {
        0
    } else {
        table_sum(t, n - 1) + t[n - 1]
    }
}

/// The clock of a search: what it is limited by, when it started, the flags and node counter
/// that the searching threads share, the nodes counted since the last report, the time to aim
/// at and the most to spend, and the nodes spent under each root move.
pub struct Timer {
    control: TimeControl,
    start_time: Instant,
    pondering: Arc<AtomicBool>,
    stop: Arc<AtomicBool>,
    nodes: Arc<AtomicU64>,
    batch: u64,
    time_target: u128,
    time_maximum: u128,
    overhead: u128,
    current_nodes: u64,
    nodes_table: Vec<u64>,
}

/// Whether the shared flag is set.
fn flag_is_set(flag: &Arc<AtomicBool>) -> bool {
    flag.load(Ordering::Acquire)
}

/// Sets the shared flag.
fn raise_flag(flag: &Arc<AtomicBool>) {
    flag.store(true, Ordering::Release);
}

/// Adds `n` to the shared counter.
fn add_to_counter(counter: &Arc<AtomicU64>, n: u64) {
    counter.fetch_add(n, Ordering::Relaxed);
}

/// The shared counter.
fn counter_value(counter: &Arc<AtomicU64>) -> u64 {
    counter.load(Ordering::Relaxed)
}

impl Timer {
    pub closed spec fn control_spec(&self) -> TimeControl {
        self.control
    }

    /// The nodes counted since they were last added to the shared counter.
    pub closed spec fn batch_spec(&self) -> u64 {
        self.batch
    }

    /// The time the depth `depth` may start within: half the time target, scaled after the
    /// first depths by the share of the nodes that the best move `best` took, as `scaled` says
    /// when given that move's nodes, all root nodes and the target; unscaled while no node was
    /// counted.
    pub fn start_budget<S: Fn(u64, u128, u128) -> u128>(&self, best: Move, depth: i8, scaled: &S) -> (r: u128)
        requires
            self.wf(),
            forall|e: u64, t: u128, g: u128| #[trigger] call_requires(*scaled, (e, t, g)),
        ensures
            depth <= SEARCHES_WO_TIMER_UPDATE ==> r == self.target_spec() / 2,
            table_sum(self.table_spec(), 4096) == 0 ==> r == self.target_spec() / 2,
            depth > SEARCHES_WO_TIMER_UPDATE && table_sum(self.table_spec(), 4096) != 0 ==> exists|s: u128|
                r == s / 2 && #[trigger] call_ensures(
                    *scaled,
                    (self.table_spec()[best.from_idx() * 64 + best.to_idx()], table_sum(self.table_spec(), 4096) as u128, self.target_spec()),
                    s,
                ),
    {
        if depth <= SEARCHES_WO_TIMER_UPDATE {
            return self.time_target / 2;
        }
        let (effort, total) = self.node_effort(best);
        if total == 0 {
            return self.time_target / 2;
        }
        let s = scaled(effort, total, self.time_target);
        s / 2
    }

    /// The time to aim at, in nanoseconds.
    pub closed spec fn target_spec(&self) -> u128 {
        self.time_target
    }

    /// The most time to spend, in nanoseconds.
    pub closed spec fn maximum_spec(&self) -> u128 {
        self.time_maximum
    }

    /// The time kept in reserve, in nanoseconds.
    pub closed spec fn overhead_spec(&self) -> u128 {
        self.overhead
    }

    /// The nodes searched since the last root move was accounted.
    pub closed spec fn current_spec(&self) -> u64 {
        self.current_nodes
    }

    /// The nodes spent under each root move, at `from * 64 + to`.
    pub closed spec fn table_spec(&self) -> Seq<u64> {
        self.nodes_table@
    }

    /// The node table has an entry per pair of squares, and a batch is never full.
    pub open spec fn wf(&self) -> bool {
        self.table_spec().len() == 4096 && self.batch_spec() < BATCH_SIZE
    }

    /// A clock for a search of `board` under `control`, started now, sharing the pondering and
    /// stop flags and the node counter, with `overhead_ms` milliseconds kept in reserve.
    pub fn new(
        board: &Board,
        control: TimeControl,
        pondering: Arc<AtomicBool>,
        stop: Arc<AtomicBool>,
        nodes: Arc<AtomicU64>,
        overhead_ms: u64,
    ) -> (r: Timer)
        requires
            board.wf(),
            control matches TimeControl::Variable { moves_to_go, .. } ==> moves_to_go != Some(0u32),
        ensures
            r.wf(),
            r.control_spec() == control,
            r.overhead_spec() == overhead_ms * NANOS_PER_MILLI,
            r.batch_spec() == 0,
            r.current_spec() == 0,
            forall|i: int| 0 <= i < 4096 ==> #[trigger] r.table_spec()[i] == 0,
            match control {
                TimeControl::Variable { wtime, btime, winc, binc, moves_to_go } => {
                    let white = board.side() == Color::White;
                    let time = (if white { wtime } else { btime }) * 1_000_000;
                    let inc = match (if white { winc } else { binc }) { Some(i) => i * 1_000_000, None => 0 };
                    let mtg = match moves_to_go { Some(m) => m as int, None => 40 };
                    (r.target_spec() as int, r.maximum_spec() as int) == time_budget(time, inc, mtg)
                },
                _ => r.target_spec() == 0 && r.maximum_spec() == 0,
            },
    {
        let (time_target, time_maximum) = match control {
            TimeControl::Variable { wtime, btime, winc, binc, moves_to_go } => Timer::calculate_time(
                board,
                wtime,
                btime,
                winc,
                binc,
                moves_to_go,
            ),
            _ => (0, 0),
        };
        let mut nodes_table: Vec<u64> = Vec::new();
        let mut i: usize = 0;
        while i < 4096
            invariant
                i <= 4096,
                nodes_table@.len() == i,
                forall|j: int| 0 <= j < i ==> #[trigger] nodes_table@[j] == 0,
            decreases 4096 - i,
        {
            nodes_table.push(0);
            i = i + 1;
        }
        Timer {
            start_time: Instant::now(),
            pondering,
            stop,
            batch: 0,
            nodes,
            control,
            overhead: (overhead_ms as u128) * NANOS_PER_MILLI,
            time_target,
            time_maximum,
            current_nodes: 0,
            nodes_table,
        }
    }

    /// The time to aim at and the most to spend, in nanoseconds, for the side to move on
    /// `board`.
    fn calculate_time(
        board: &Board,
        wtime: u64,
        btime: u64,
        winc: Option<u64>,
        binc: Option<u64>,
        moves_to_go: Option<u32>,
    ) -> (r: (u128, u128))
        requires
            moves_to_go != Some(0u32),
        ensures
            ({
                let white = board.side() == Color::White;
                let time = (if white { wtime } else { btime }) * 1_000_000;
                let inc = match (if white { winc } else { binc }) { Some(i) => i * 1_000_000, None => 0 };
                let mtg = match moves_to_go { Some(m) => m as int, None => 40 };
                (r.0 as int, r.1 as int) == time_budget(time, inc, mtg)
            }),
    {
        let (time_ms, inc_ms) = match board.ctm() {
            Color::White => (wtime, winc),
            Color::Black => (btime, binc),
        };
        let time = (time_ms as u128) * NANOS_PER_MILLI;
        let inc: u128 = match inc_ms {
            Some(i) => (i as u128) * NANOS_PER_MILLI,
            None => 0,
        };
        let mtg: u128 = match moves_to_go {
            Some(m) => m as u128,
            None => 40,
        };
        let share = time / mtg + inc;
        let target = if time <= share {
            time
        } else {
            share
        };
        (target, target + (time - target) / 4)
    }

    /// Whether the search may start depth `depth`: not once stopped; always while pondering
    /// and for the first depth; else as the limit says, a clock game comparing the time spent
    /// with `budget_ns`, the time target scaled by how much effort the best move took, halved.
    /// When the answer is no, the search is stopped.
    pub fn start_check(&mut self, depth: i8, budget_ns: u128) -> (r: bool)
        requires
            old(self).wf(),
        ensures
            final(self).wf(),
            final(self).control_spec() == old(self).control_spec(),
            final(self).batch_spec() == old(self).batch_spec(),
            final(self).current_spec() == old(self).current_spec(),
            final(self).table_spec() == old(self).table_spec(),
            final(self).target_spec() == old(self).target_spec(),
            final(self).maximum_spec() == old(self).maximum_spec(),
            exists|stopped: bool, pondering: bool, elapsed: u128| r == start_decision_spec(
                stopped,
                pondering,
                old(self).control_spec(),
                depth as int,
                elapsed as int,
                old(self).overhead_spec() as int,
                budget_ns as int,
            ),
    {
        let stopped = flag_is_set(&self.stop);
        let pondering = !stopped && flag_is_set(&self.pondering);
        let elapsed = if stopped || pondering {
            0
        } else {
            self.elapsed()
        };
        let start = Timer::start_decision(stopped, pondering, self.control, depth, elapsed, self.overhead, budget_ns);
        assert(start == start_decision_spec(
            stopped,
            pondering,
            old(self).control_spec(),
            depth as int,
            elapsed as int,
            old(self).overhead_spec() as int,
            budget_ns as int,
        ));
        if !start {
            self.set_stop();
        }
        start
    }

    /// `start_decision_spec`, computed from what was read.
    pub fn start_decision(
        stopped: bool,
        pondering: bool,
        control: TimeControl,
        depth: i8,
        elapsed: u128,
        overhead: u128,
        budget: u128,
    ) -> (r: bool)
        ensures
            r == start_decision_spec(stopped, pondering, control, depth as int, elapsed as int, overhead as int, budget as int),
    {
        if stopped {
            return false;
        }
        if pondering {
            return true;
        }
        Timer::start_allowed(control, depth, elapsed, overhead, budget)
    }

    /// `stop_decision_spec`, computed from what was read.
    pub fn stop_decision(
        stopped: bool,
        pondering: bool,
        control: TimeControl,
        elapsed: u128,
        overhead: u128,
        maximum: u128,
        nodes: u64,
    ) -> (r: bool)
        ensures
            r == stop_decision_spec(stopped, pondering, control, elapsed as int, overhead as int, maximum as int, nodes as int),
    {
        if stopped {
            return true;
        }
        if pondering {
            return false;
        }
        Timer::stop_needed(control, elapsed, overhead, maximum, nodes)
    }

    /// `start_rule`, computed.
    pub fn start_allowed(control: TimeControl, depth: i8, elapsed: u128, overhead: u128, budget: u128) -> (r: bool)
        ensures
            r == start_rule(control, depth as int, elapsed as int, overhead as int, budget as int),
    {
        if depth <= 1 {
            return true;
        }
        match control {
            TimeControl::Infinite => true,
            TimeControl::FixedDuration(ms) => Timer::within(elapsed, overhead, (ms as u128) * NANOS_PER_MILLI),
            TimeControl::FixedDepth(d) => depth <= d,
            TimeControl::FixedNodes(_) => true,
            TimeControl::Variable { .. } => Timer::within(elapsed, overhead, budget),
        }
    }

    /// Counts a node and tells whether the search must stop: when another thread stopped it,
    /// never while pondering, else as the limit says. When the answer is yes, the search is
    /// stopped.
    pub fn stop_check(&mut self) -> (r: bool)
        requires
            old(self).wf(),
        ensures
            final(self).wf(),
            final(self).control_spec() == old(self).control_spec(),
            final(self).current_spec() == old(self).current_spec().wrapping_add(1),
            final(self).batch_spec() == (if old(self).batch_spec() + 1 >= BATCH_SIZE { 0 } else { old(self).batch_spec() + 1 }),
            final(self).table_spec() == old(self).table_spec(),
            exists|stopped: bool, pondering: bool, elapsed: u128, nodes: u64| r == stop_decision_spec(
                stopped,
                pondering,
                old(self).control_spec(),
                elapsed as int,
                old(self).overhead_spec() as int,
                old(self).maximum_spec() as int,
                nodes as int,
            ),
    {
        self.increment();
        let stopped = flag_is_set(&self.stop);
        let pondering = !stopped && flag_is_set(&self.pondering);
        let (elapsed, nodes) = if stopped || pondering {
            (0, 0)
        } else {
            (self.elapsed(), self.nodes())
        };
        let stop = Timer::stop_decision(stopped, pondering, self.control, elapsed, self.overhead, self.time_maximum, nodes);
        if stop {
            self.set_stop();
        }
        stop
    }

    /// Whether `elapsed + overhead <= limit`.
    fn within(elapsed: u128, overhead: u128, limit: u128) -> (r: bool)
        ensures
            r == (elapsed + overhead <= limit),
    {
        overhead <= limit && elapsed <= limit - overhead
    }

    /// Whether `elapsed + overhead == limit`.
    fn reaches(elapsed: u128, overhead: u128, limit: u128) -> (r: bool)
        ensures
            r == (elapsed + overhead == limit),
    {
        overhead <= limit && elapsed == limit - overhead
    }

    /// `stop_rule`, computed.
    pub fn stop_needed(control: TimeControl, elapsed: u128, overhead: u128, maximum: u128, nodes: u64) -> (r: bool)
        ensures
            r == stop_rule(control, elapsed as int, overhead as int, maximum as int, nodes as int),
    {
        match control {
            TimeControl::Infinite => false,
            TimeControl::FixedDuration(ms) => !Timer::within(elapsed, overhead, (ms as u128) * NANOS_PER_MILLI)
                || Timer::reaches(elapsed, overhead, (ms as u128) * NANOS_PER_MILLI),
            TimeControl::Variable { .. } => !Timer::within(elapsed, overhead, maximum) || Timer::reaches(elapsed, overhead, maximum),
            TimeControl::FixedDepth(_) => false,
            TimeControl::FixedNodes(n) => nodes >= n,
        }
    }

    /// Stops the search, for every thread that shares the flag.
    pub fn set_stop(&mut self)
        ensures
            *final(self) == *old(self),
    {
        raise_flag(&self.stop);
    }

    /// The nanoseconds since the search started.
    pub fn elapsed(&self) -> u128 {
        nanos_since(&self.start_time)
    }

    /// Counts a node; every full batch goes to the shared counter.
    pub fn increment(&mut self)
        requires
            old(self).wf(),
        ensures
            final(self).wf(),
            final(self).control_spec() == old(self).control_spec(),
            final(self).current_spec() == old(self).current_spec().wrapping_add(1),
            final(self).batch_spec() == (if old(self).batch_spec() + 1 >= BATCH_SIZE { 0 } else { old(self).batch_spec() + 1 }),
            final(self).table_spec() == old(self).table_spec(),
            final(self).target_spec() == old(self).target_spec(),
            final(self).maximum_spec() == old(self).maximum_spec(),
            final(self).overhead_spec() == old(self).overhead_spec(),
    {
        self.batch = self.batch + 1;
        self.current_nodes = self.current_nodes.wrapping_add(1);
        if self.batch >= BATCH_SIZE {
            add_to_counter(&self.nodes, self.batch);
            self.batch = 0;
        }
    }

    /// The nodes searched by all threads: the shared counter and this thread's batch.
    pub fn nodes(&self) -> u64 {
        counter_value(&self.nodes).wrapping_add(self.batch)
    }

    /// Whether the search was stopped.
    pub fn is_stopped(&self) -> bool {
        flag_is_set(&self.stop)
    }

    /// Charges the nodes counted since the last root move to the root move `m`.
    pub fn update_node_table(&mut self, m: Move)
        requires
            old(self).wf(),
        ensures
            final(self).wf(),
            final(self).table_spec() == old(self).table_spec().update(
                m.from_idx() * 64 + m.to_idx(),
                old(self).table_spec()[m.from_idx() * 64 + m.to_idx()].wrapping_add(old(self).current_spec()),
            ),
            final(self).current_spec() == 0,
            final(self).batch_spec() == old(self).batch_spec(),
            final(self).control_spec() == old(self).control_spec(),
            final(self).target_spec() == old(self).target_spec(),
            final(self).maximum_spec() == old(self).maximum_spec(),
    {
        let (from_sq, to_sq) = m.squares();
        let i = from_sq.index() * 64 + to_sq.index();
        let v = self.nodes_table[i].wrapping_add(self.current_nodes);
        self.nodes_table.set(i, v);
        self.current_nodes = 0;
    }

    /// The nodes charged to the root move `m` and to all root moves together, the share of
    /// effort that decides how much time the next depth may take.
    pub fn node_effort(&self, m: Move) -> (r: (u64, u128))
        requires
            self.wf(),
        ensures
            r.0 == self.table_spec()[m.from_idx() * 64 + m.to_idx()],
            r.1 == table_sum(self.table_spec(), 4096),
    {
        let mut total: u128 = 0;
        let mut i: usize = 0;
        while i < 4096
            invariant
                self.wf(),
                i <= 4096,
                total == table_sum(self.table_spec(), i as int),
                total <= i * 0x1_0000_0000_0000_0000,
            decreases 4096 - i,
        {
            total = total + self.nodes_table[i] as u128;
            i = i + 1;
        }
        let (from_sq, to_sq) = m.squares();
        (self.nodes_table[from_sq.index() * 64 + to_sq.index()], total)
    }

    /// The time to aim at, in nanoseconds.
    pub fn time_target(&self) -> (r: u128)
        ensures
            r == self.target_spec(),
    {
        self.time_target
    }
}

impl core::str::FromStr for TimeControl {
    type Err = &'static str;

    fn from_str(line: &str) -> (r: Result<TimeControl, &'static str>)
        ensures
            r matches Ok(tc) ==> go_spec(line.spec_bytes()) == Ok::<TimeControl, GoError>(tc),
            r matches Err(m) ==> go_spec(line.spec_bytes()) matches Err(e) && m@ == e.text(),
    {
        match TimeControl::parse_go(line.as_bytes()) {
            Ok(tc) => Ok(tc),
            Err(e) => Err(e.message()),
        }
    }
}

/// The budget of a clock game stays within the clock: the target is at most the time left
/// and at least none; the maximum adds to the target a quarter of what the target leaves,
/// so it is short of the whole time left whenever the target is.
pub proof fn lemma_time_budget(time: int, inc: int, mtg: int)
    requires
        time >= 0,
        inc >= 0,
        mtg > 0,
    ensures
        0 <= time_budget(time, inc, mtg).0 <= time,
        time_budget(time, inc, mtg).0 <= time_budget(time, inc, mtg).1 <= time,
        time_budget(time, inc, mtg).0 < time ==> time_budget(time, inc, mtg).1 < time,
        4 * (time_budget(time, inc, mtg).1 - time_budget(time, inc, mtg).0) <= time - time_budget(time, inc, mtg).0,
        time - time_budget(time, inc, mtg).0 < 4 * (time_budget(time, inc, mtg).1 - time_budget(time, inc, mtg).0) + 4,
{
    let share = time / mtg + inc;
    assert(time / mtg >= 0) by (nonlinear_arith)
        requires
            time >= 0,
            mtg > 0,
    ;
}

/// The target of a clock game is the share of the clock for one move, plus the increment,
/// but never more than the whole time left: with a longer clock the target does not fall,
/// and a longer horizon of moves does not raise it.
pub proof fn lemma_time_target(time: int, inc: int, mtg: int, time2: int, mtg2: int)
    requires
        0 <= time <= time2,
        inc >= 0,
        0 < mtg2 <= mtg,
    ensures
        time_budget(time, inc, mtg).0 <= time / mtg + inc,
        time_budget(time, inc, mtg).0 == time || time_budget(time, inc, mtg).0 == time / mtg + inc,
        time_budget(time, inc, mtg).0 <= time_budget(time2, inc, mtg).0,
        time_budget(time, inc, mtg).0 <= time_budget(time, inc, mtg2).0,
{
    assert(time / mtg <= time2 / mtg) by (nonlinear_arith)
        requires
            0 <= time <= time2,
            mtg > 0,
    ;
    assert(time / mtg <= time / mtg2) by (nonlinear_arith)
        requires
            time >= 0,
            0 < mtg2 <= mtg,
    ;
}

} // verus!
