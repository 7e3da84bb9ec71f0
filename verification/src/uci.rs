use vstd::prelude::*;
use vstd::string::StringSliceAdditionalSpecFns;
use crate::fen::{trimmed, trimmed_copy};
use crate::timer::{go_spec, GoError, TimeControl};
use crate::parse::{split_words, words, words_view};
use crate::parse::{all_digits, digits_to_u64, digits_value, is_digit, is_space, is_space_byte, unsigned_text_value, word_is};

verus! {

/// Whether the bytes `w` stand in `s` at `i`.
pub open spec fn starts_at(s: Seq<u8>, i: int, w: Seq<u8>) -> bool {
    0 <= i && i + w.len() <= s.len() && s.subrange(i, i + w.len()) == w
}

/// The end of the run of ASCII white space that starts at `i`.
pub open spec fn ws_end(s: Seq<u8>, i: int) -> int
    decreases s.len() - i,
{
    if 0 <= i < s.len() && is_space(s[i]) {
        ws_end(s, i + 1)
    } else {
        i
    }
}

/// Whether no byte of `s[i..j]` ends a line.
pub open spec fn no_newline(s: Seq<u8>, i: int, j: int) -> bool {
    forall|k: int| i <= k < j ==> s[k] != 10
}

/// The word `setoption`.
pub open spec fn setoption_word() -> Seq<u8> {
    seq![115u8, 101, 116, 111, 112, 116, 105, 111, 110]
}

/// The word `name`.
pub open spec fn name_word() -> Seq<u8> {
    seq![110u8, 97, 109, 101]
}

/// The word `value`.
pub open spec fn value_word() -> Seq<u8> {
    seq![118u8, 97, 108, 117, 101]
}

/// Where the option name starts in a line `setoption name ...`: after the white space that
/// follows `name`.
pub open spec fn option_name_start(s: Seq<u8>) -> Option<int> {
    if starts_at(s, 0, setoption_word()) && 9 < s.len() && is_space(s[9]) {
        let a = ws_end(s, 9);
        if starts_at(s, a, name_word()) && a + 4 < s.len() && is_space(s[a + 4]) {
            Some(ws_end(s, a + 4))
        } else {
            None
        }
    } else {
        None
    }
}

/// Where the text after a keyword `w` at the white space `k` starts, when the rest of the
/// line from `k` is white space, `w`, white space and text of one line: the text is what
/// follows the white space, or its last character when nothing else is left.
pub open spec fn tail_after(s: Seq<u8>, k: int, w: Seq<u8>) -> Option<int> {
    if 0 <= k < s.len() && is_space(s[k]) {
        let i = ws_end(s, k);
        let j = i + w.len();
        if starts_at(s, i, w) && j < s.len() && is_space(s[j]) {
            let e = ws_end(s, j);
            let v = if e < s.len() { e } else { s.len() - 1 };
            if v > j && no_newline(s, v, s.len() as int) {
                Some(v)
            } else {
                None
            }
        } else {
            None
        }
    } else {
        None
    }
}

/// Where the shortest text of one line from `k` on ends that the rest of the line either
/// follows as `white space, w, white space, text` or does not follow at all.
pub open spec fn shortest_before(s: Seq<u8>, k: int, w: Seq<u8>) -> Option<int>
    decreases s.len() - k,
{
    if k < 0 || k > s.len() {
        None
    } else if tail_after(s, k, w) is Some {
        Some(k)
    } else if k == s.len() {
        Some(k)
    } else if s[k] == 10 {
        None
    } else {
        shortest_before(s, k + 1, w)
    }
}

/// The name and the value text of a line `setoption name <name> [value <value>]`.
pub open spec fn option_parts(s: Seq<u8>) -> Option<(Seq<u8>, Option<Seq<u8>>)> {
    match option_name_start(s) {
        None => None,
        Some(a) => match shortest_before(s, a, value_word()) {
            None => None,
            Some(k) => Some((
                s.subrange(a, k),
                match tail_after(s, k, value_word()) {
                    Some(v) => Some(s.subrange(v, s.len() as int)),
                    None => None,
                },
            )),
        },
    }
}

/// Why a `setoption` command was refused.
#[derive(Clone, Copy, PartialEq, Eq, Structural, Debug)]
pub enum OptionError {
    /// The line is no `setoption name ...`, or the name is unknown.
    Unparsable,
    /// The option needs a value and none was given.
    NoValue,
    /// The value is no number in the option's type.
    BadValue,
    /// The value is no boolean word.
    BadBool,
}

impl OptionError {
    /// The text of the message of the error.
    pub open spec fn text(self) -> Seq<char> {
        match self {
            OptionError::Unparsable => "Unable to parse option."@,
            OptionError::NoValue => "No option value specified."@,
            OptionError::BadValue => "Unable to parse option value."@,
            OptionError::BadBool => "Unrecognized boolean value."@,
        }
    }

    /// The message of the error.
    pub fn message(self) -> (r: &'static str)
        ensures
            r@ == self.text(),
    {
        match self {
            OptionError::Unparsable => "Unable to parse option.",
            OptionError::NoValue => "No option value specified.",
            OptionError::BadValue => "Unable to parse option value.",
            OptionError::BadBool => "Unrecognized boolean value.",
        }
    }
}

/// An engine option, as `setoption` sets it.
#[derive(Clone, Copy, PartialEq, Eq, Structural, Debug)]
pub enum EngineOption {
    Hash(usize),
    Threads(u16),
    /// The move overhead, in milliseconds.
    MoveOverhead(u64),
    Ponder(bool),
    ShowWDL(bool),
    MultiPV(usize),
    ClearHash,
}

/// The ASCII lower case of a byte.
pub open spec fn lower(c: u8) -> u8 {
    if 65 <= c <= 90 { (c + 32) as u8 } else { c }
}

/// The bytes of `s` in ASCII lower case.
pub open spec fn lowered(s: Seq<u8>) -> Seq<u8> {
    Seq::new(s.len(), |i: int| lower(s[i]))
}

/// What a boolean option value reads as.
pub open spec fn bool_value(v: Seq<u8>) -> Option<bool> {
    let t = lowered(trimmed(v));
    if t == seq![116u8, 114, 117, 101] || t == seq![111u8, 110] || t == seq![49u8] {
        Some(true)
    } else if t == seq![102u8, 97, 108, 115, 101] || t == seq![111u8, 102, 102] || t == seq![48u8] {
        Some(false)
    } else {
        None
    }
}

/// What a number option value reads as, when it is at most `max`.
pub open spec fn number_value(v: Seq<u8>, max: int) -> Option<nat> {
    match unsigned_text_value(trimmed(v)) {
        Some(n) => if n <= max { Some(n) } else { None },
        None => None,
    }
}

/// The option a `setoption` line sets, or why it is refused.
pub open spec fn option_spec(s: Seq<u8>) -> Result<EngineOption, OptionError> {
    match option_parts(s) {
        None => Err(OptionError::Unparsable),
        Some((name, value)) => {
            if name == seq![72u8, 97, 115, 104] {
                match value {
                    None => Err(OptionError::NoValue),
                    Some(v) => match number_value(v, usize::MAX as int) {
                        Some(n) => Ok(EngineOption::Hash(n as usize)),
                        None => Err(OptionError::BadValue),
                    },
                }
            } else if name == seq![84u8, 104, 114, 101, 97, 100, 115] {
                match value {
                    None => Err(OptionError::NoValue),
                    Some(v) => match number_value(v, u16::MAX as int) {
                        Some(n) => Ok(EngineOption::Threads(n as u16)),
                        None => Err(OptionError::BadValue),
                    },
                }
            } else if name == seq![77u8, 111, 118, 101, 32, 79, 118, 101, 114, 104, 101, 97, 100] {
                match value {
                    None => Err(OptionError::NoValue),
                    Some(v) => match number_value(v, u64::MAX as int) {
                        Some(n) => Ok(EngineOption::MoveOverhead(n as u64)),
                        None => Err(OptionError::BadValue),
                    },
                }
            } else if name == seq![80u8, 111, 110, 100, 101, 114] {
                match value {
                    None => Err(OptionError::NoValue),
                    Some(v) => match bool_value(v) {
                        Some(b) => Ok(EngineOption::Ponder(b)),
                        None => Err(OptionError::BadBool),
                    },
                }
            } else if name == seq![85u8, 67, 73, 95, 83, 104, 111, 119, 87, 68, 76] {
                match value {
                    None => Err(OptionError::NoValue),
                    Some(v) => match bool_value(v) {
                        Some(b) => Ok(EngineOption::ShowWDL(b)),
                        None => Err(OptionError::BadBool),
                    },
                }
            } else if name == seq![77u8, 117, 108, 116, 105, 80, 86] {
                match value {
                    None => Err(OptionError::NoValue),
                    Some(v) => match number_value(v, usize::MAX as int) {
                        Some(n) => Ok(EngineOption::MultiPV(n as usize)),
                        None => Err(OptionError::BadValue),
                    },
                }
            } else if name == seq![67u8, 108, 101, 97, 114, 32, 72, 97, 115, 104] {
                Ok(EngineOption::ClearHash)
            } else {
                Err(OptionError::Unparsable)
            }
        },
    }
}

/// Whether `s[i..i + w.len()]` is `w`.
pub fn bytes_at(s: &[u8], i: usize, w: &[u8]) -> (r: bool)
    ensures
        r == starts_at(s@, i as int, w@),
{
    if i > s.len() || w.len() > s.len() - i {
        return false;
    }
    let n = s.len();
    let mut k: usize = 0;
    while k < w.len()
        invariant
            n == s@.len(),
            i + w@.len() <= s@.len(),
            i <= s@.len(),
            k <= w@.len(),
            forall|j: int| 0 <= j < k ==> s@[i + j] == w@[j],
        decreases w@.len() - k,
    {
        assert(i + k < s@.len());
        if s[i + k] != w[k] {
            assert(s@.subrange(i as int, i + w@.len())[k as int] != w@[k as int]);
            return false;
        }
        k = k + 1;
    }
    assert(s@.subrange(i as int, i + w@.len()) =~= w@);
    true
}

/// The end of the run of ASCII white space that starts at `i`.
pub fn skip_ws(s: &[u8], i: usize) -> (r: usize)
    requires
        i <= s@.len(),
    ensures
        r == ws_end(s@, i as int),
        i <= r <= s@.len(),
{
    let mut k = i;
    while k < s.len() && is_space_byte(s[k])
        invariant
            i <= k <= s@.len(),
            ws_end(s@, k as int) == ws_end(s@, i as int),
        decreases s@.len() - k,
    {
        k = k + 1;
    }
    k
}

/// Whether no byte of `s[i..]` ends a line.
pub fn no_newline_from(s: &[u8], i: usize) -> (r: bool)
    requires
        i <= s@.len(),
    ensures
        r == no_newline(s@, i as int, s@.len() as int),
{
    let mut k = i;
    while k < s.len()
        invariant
            i <= k <= s@.len(),
            no_newline(s@, i as int, k as int),
        decreases s@.len() - k,
    {
        if s[k] == 10 {
            return false;
        }
        k = k + 1;
    }
    true
}

/// `tail_after`, computed.
pub fn find_tail(s: &[u8], k: usize, w: &[u8]) -> (r: Option<usize>)
    requires
        k <= s@.len(),
    ensures
        r matches Some(v) ==> tail_after(s@, k as int, w@) == Some(v as int),
        r is None ==> tail_after(s@, k as int, w@) is None,
{
    if !(k < s.len() && is_space_byte(s[k])) {
        return None;
    }
    let i = skip_ws(s, k);
    if !bytes_at(s, i, w) {
        return None;
    }
    let j = i + w.len();
    if !(j < s.len() && is_space_byte(s[j])) {
        return None;
    }
    let e = skip_ws(s, j);
    let v = if e < s.len() {
        e
    } else {
        s.len() - 1
    };
    if v > j && no_newline_from(s, v) {
        Some(v)
    } else {
        None
    }
}

/// `shortest_before`, computed.
pub fn find_shortest(s: &[u8], k: usize, w: &[u8]) -> (r: Option<usize>)
    requires
        k <= s@.len(),
    ensures
        r matches Some(e) ==> shortest_before(s@, k as int, w@) == Some(e as int) && k <= e <= s@.len(),
        r is None ==> shortest_before(s@, k as int, w@) is None,
{
    let mut i = k;
    while i < s.len()
        invariant
            k <= i <= s@.len(),
            shortest_before(s@, i as int, w@) == shortest_before(s@, k as int, w@),
        decreases s@.len() - i,
    {
        if find_tail(s, i, w).is_some() {
            return Some(i);
        }
        if s[i] == 10 {
            return None;
        }
        i = i + 1;
    }
    if find_tail(s, i, w).is_some() {
        return Some(i);
    }
    Some(i)
}

/// The bytes `s[i..j]`.
pub fn slice_copy(s: &[u8], i: usize, j: usize) -> (r: Vec<u8>)
    requires
        i <= j <= s@.len(),
    ensures
        r@ == s@.subrange(i as int, j as int),
{
    let mut v: Vec<u8> = Vec::new();
    let mut k = i;
    while k < j
        invariant
            i <= k <= j <= s@.len(),
            v@ == s@.subrange(i as int, k as int),
        decreases j - k,
    {
        v.push(s[k]);
        k = k + 1;
        assert(v@ =~= s@.subrange(i as int, k as int));
    }
    v
}

/// The name and the value text of a `setoption` line.
pub fn split_option(s: &[u8]) -> (r: Option<(Vec<u8>, Option<Vec<u8>>)>)
    ensures
        match (r, option_parts(s@)) {
            (None, None) => true,
            (Some((n, v)), Some((sn, sv))) => n@ == sn && match (v, sv) {
                (None, None) => true,
                (Some(a), Some(b)) => a@ == b,
                _ => false,
            },
            _ => false,
        },
{
    let setoption = [115u8, 101, 116, 111, 112, 116, 105, 111, 110];
    let name_w = [110u8, 97, 109, 101];
    let value_w = [118u8, 97, 108, 117, 101];
    assert(setoption@ == setoption_word());
    assert(name_w@ == name_word());
    assert(value_w@ == value_word());
    if !(bytes_at(s, 0, &setoption) && 9 < s.len() && is_space_byte(s[9])) {
        return None;
    }
    let a0 = skip_ws(s, 9);
    if !(bytes_at(s, a0, &name_w) && a0 + 4 < s.len() && is_space_byte(s[a0 + 4])) {
        return None;
    }
    let a = skip_ws(s, a0 + 4);
    assert(option_name_start(s@) == Some(a as int));
    match find_shortest(s, a, &value_w) {
        None => None,
        Some(k) => {
            assert(shortest_before(s@, a as int, value_word()) == Some(k as int));
            let name = slice_copy(s, a, k);
            let value = match find_tail(s, k, &value_w) {
                Some(v) => Some(slice_copy(s, v, s.len())),
                None => None,
            };
            Some((name, value))
        },
    }
}

/// What `str::parse` gives for an unsigned integer of at most 64 bits: `None` when the text is
/// no number or the number passes `u64::MAX`.
pub fn parse_unsigned(t: &Vec<u8>) -> (r: Option<u64>)
    ensures
        r == (match unsigned_text_value(t@) {
            Some(n) => if n <= u64::MAX { Some(n as u64) } else { None::<u64> },
            None => None::<u64>,
        }),
{
    let start: usize = if t.len() > 0 && t[0] == 43 {
        1
    } else {
        0
    };
    let ghost body = if t@.len() > 0 && t@[0] == 43 { t@.drop_first() } else { t@ };
    assert(body =~= t@.subrange(start as int, t@.len() as int));
    if start >= t.len() {
        return None;
    }
    let mut i = start;
    while i < t.len()
        invariant
            start <= i <= t@.len(),
            body == t@.subrange(start as int, t@.len() as int),
            body == (if t@.len() > 0 && t@[0] == 43 { t@.drop_first() } else { t@ }),
            start < t@.len(),
            forall|k: int| start <= k < i ==> is_digit(t@[k]),
        decreases t@.len() - i,
    {
        if !(48 <= t[i] && t[i] <= 57) {
            assert(!all_digits(body)) by {
                assert(body[i - start] == t@[i as int]);
            }
            assert(unsigned_text_value(t@) is None);
            return None;
        }
        i = i + 1;
    }
    assert(all_digits(body)) by {
        assert forall|k: int| 0 <= k < body.len() implies is_digit(body[k]) by {
            assert(body[k] == t@[start + k]);
        }
    }
    digits_to_u64(t.as_slice(), start, t.len())
}

/// The bytes of `t` in ASCII lower case.
pub fn lower_copy(t: &Vec<u8>) -> (r: Vec<u8>)
    ensures
        r@ == lowered(t@),
{
    let mut v: Vec<u8> = Vec::new();
    let mut i: usize = 0;
    while i < t.len()
        invariant
            i <= t@.len(),
            v@ == Seq::new(i as nat, |k: int| lower(t@[k])),
        decreases t@.len() - i,
    {
        let c = t[i];
        let l = if 65 <= c && c <= 90 {
            c + 32
        } else {
            c
        };
        v.push(l);
        i = i + 1;
        assert(v@ =~= Seq::new(i as nat, |k: int| lower(t@[k])));
    }
    v
}

/// `bool_value`, computed.
pub fn read_bool(v: &Vec<u8>) -> (r: Option<bool>)
    ensures
        r == bool_value(v@),
{
    let t = lower_copy(&trimmed_copy(v.as_slice()));
    let w_true = [116u8, 114, 117, 101];
    let w_on = [111u8, 110];
    let w_one = [49u8];
    let w_false = [102u8, 97, 108, 115, 101];
    let w_off = [111u8, 102, 102];
    let w_zero = [48u8];
    assert(w_true@ == seq![116u8, 114, 117, 101]);
    assert(w_on@ == seq![111u8, 110]);
    assert(w_one@ == seq![49u8]);
    assert(w_false@ == seq![102u8, 97, 108, 115, 101]);
    assert(w_off@ == seq![111u8, 102, 102]);
    assert(w_zero@ == seq![48u8]);
    if word_is(&t, &w_true) || word_is(&t, &w_on) || word_is(&t, &w_one) {
        Some(true)
    } else if word_is(&t, &w_false) || word_is(&t, &w_off) || word_is(&t, &w_zero) {
        Some(false)
    } else {
        None
    }
}

/// `number_value`, computed, for a bound that fits in 64 bits.
pub fn read_number(v: &Vec<u8>, max: u64) -> (r: Option<u64>)
    ensures
        r == (match number_value(v@, max as int) {
            Some(n) => Some(n as u64),
            None => None::<u64>,
        }),
{
    let t = trimmed_copy(v.as_slice());
    match parse_unsigned(&t) {
        Some(n) => if n <= max {
            Some(n)
        } else {
            None
        },
        None => None,
    }
}

impl EngineOption {
    pub const HASH_MIN: usize = 1;
    pub const HASH_MAX: usize = 1048576;
    pub const HASH_DEFAULT: usize = 16;
    pub const THREADS_MIN: u16 = 1;
    pub const THREADS_MAX: u16 = 512;
    pub const THREADS_DEFAULT: u16 = 1;
    /// The least move overhead, in milliseconds.
    pub const MOVE_OVERHEAD_MIN: u64 = 0;
    /// The greatest move overhead, in milliseconds.
    pub const MOVE_OVERHEAD_MAX: u64 = 5000;
    /// The move overhead unless set, in milliseconds.
    pub const MOVE_OVERHEAD_DEFAULT: u64 = 10;
    pub const PONDER_DEFAULT: bool = false;
    pub const SHOW_WDL_DEFAULT: bool = false;
    pub const MULTIPV_MIN: usize = 1;
    pub const MULTIPV_MAX: usize = 255;
    pub const MULTIPV_DEFAULT: usize = 1;

    /// The option that the line `setoption name <name> [value <value>]` sets.
    pub fn parse(line: &[u8]) -> (r: Result<EngineOption, OptionError>)
        ensures
            r == option_spec(line@),
    {
        let (name, value) = match split_option(line) {
            None => return Err(OptionError::Unparsable),
            Some(p) => p,
        };
        let w_hash = [72u8, 97, 115, 104];
        let w_threads = [84u8, 104, 114, 101, 97, 100, 115];
        let w_overhead = [77u8, 111, 118, 101, 32, 79, 118, 101, 114, 104, 101, 97, 100];
        let w_ponder = [80u8, 111, 110, 100, 101, 114];
        let w_wdl = [85u8, 67, 73, 95, 83, 104, 111, 119, 87, 68, 76];
        let w_multipv = [77u8, 117, 108, 116, 105, 80, 86];
        let w_clear = [67u8, 108, 101, 97, 114, 32, 72, 97, 115, 104];
        assert(w_hash@ == seq![72u8, 97, 115, 104]);
        assert(w_threads@ == seq![84u8, 104, 114, 101, 97, 100, 115]);
        assert(w_overhead@ == seq![77u8, 111, 118, 101, 32, 79, 118, 101, 114, 104, 101, 97, 100]);
        assert(w_ponder@ == seq![80u8, 111, 110, 100, 101, 114]);
        assert(w_wdl@ == seq![85u8, 67, 73, 95, 83, 104, 111, 119, 87, 68, 76]);
        assert(w_multipv@ == seq![77u8, 117, 108, 116, 105, 80, 86]);
        assert(w_clear@ == seq![67u8, 108, 101, 97, 114, 32, 72, 97, 115, 104]);
        if word_is(&name, &w_hash) {
            match value {
                None => Err(OptionError::NoValue),
                Some(v) => match read_number(&v, usize::MAX as u64) {
                    Some(n) => Ok(EngineOption::Hash(n as usize)),
                    None => Err(OptionError::BadValue),
                },
            }
        } else if word_is(&name, &w_threads) {
            match value {
                None => Err(OptionError::NoValue),
                Some(v) => match read_number(&v, 0xffff) {
                    Some(n) => Ok(EngineOption::Threads(n as u16)),
                    None => Err(OptionError::BadValue),
                },
            }
        } else if word_is(&name, &w_overhead) {
            match value {
                None => Err(OptionError::NoValue),
                Some(v) => match read_number(&v, u64::MAX) {
                    Some(n) => Ok(EngineOption::MoveOverhead(n)),
                    None => Err(OptionError::BadValue),
                },
            }
        } else if word_is(&name, &w_ponder) {
            match value {
                None => Err(OptionError::NoValue),
                Some(v) => match read_bool(&v) {
                    Some(b) => Ok(EngineOption::Ponder(b)),
                    None => Err(OptionError::BadBool),
                },
            }
        } else if word_is(&name, &w_wdl) {
            match value {
                None => Err(OptionError::NoValue),
                Some(v) => match read_bool(&v) {
                    Some(b) => Ok(EngineOption::ShowWDL(b)),
                    None => Err(OptionError::BadBool),
                },
            }
        } else if word_is(&name, &w_multipv) {
            match value {
                None => Err(OptionError::NoValue),
                Some(v) => match read_number(&v, usize::MAX as u64) {
                    Some(n) => Ok(EngineOption::MultiPV(n as usize)),
                    None => Err(OptionError::BadValue),
                },
            }
        } else if word_is(&name, &w_clear) {
            Ok(EngineOption::ClearHash)
        } else {
            Err(OptionError::Unparsable)
        }
    }
}

impl core::str::FromStr for EngineOption {
    type Err = &'static str;

    fn from_str(line: &str) -> (r: Result<EngineOption, &'static str>)
        ensures
            r matches Ok(o) ==> option_spec(line.spec_bytes()) == Ok::<EngineOption, OptionError>(o),
            r matches Err(m) ==> option_spec(line.spec_bytes()) matches Err(e) && m@ == e.text(),
    {
        match EngineOption::parse(line.as_bytes()) {
            Ok(o) => Ok(o),
            Err(e) => Err(e.message()),
        }
    }
}

/// Whether `w` stands somewhere in `s`.
pub open spec fn contains_word(s: Seq<u8>, w: Seq<u8>) -> bool {
    exists|i: int| #[trigger] starts_at(s, i, w)
}

/// What `str::parse` reads for a signed integer: an optional `+` or `-` and then one or more
/// decimal digits.
pub open spec fn signed_text_value(s: Seq<u8>) -> Option<int> {
    if s.len() > 0 && s[0] == 45 {
        let b = s.drop_first();
        if b.len() > 0 && all_digits(b) {
            Some(-digits_value(b))
        } else {
            None
        }
    } else {
        match unsigned_text_value(s) {
            Some(n) => Some(n as int),
            None => None,
        }
    }
}

/// The word `position`.
pub open spec fn position_word() -> Seq<u8> {
    seq![112u8, 111, 115, 105, 116, 105, 111, 110]
}

/// The word `startpos`.
pub open spec fn startpos_word() -> Seq<u8> {
    seq![115u8, 116, 97, 114, 116, 112, 111, 115]
}

/// The word `fen`.
pub open spec fn fen_word() -> Seq<u8> {
    seq![102u8, 101, 110]
}

/// The word `moves`.
pub open spec fn moves_word() -> Seq<u8> {
    seq![109u8, 111, 118, 101, 115]
}

/// The word `perft`.
pub open spec fn perft_word() -> Seq<u8> {
    seq![112u8, 101, 114, 102, 116]
}

/// The word `ponder`.
pub open spec fn ponder_word() -> Seq<u8> {
    seq![112u8, 111, 110, 100, 101, 114]
}

/// The moves of a `position` command whose head ends at `k`: the words of the text after
/// `moves`, none when the line ends at `k`; `None` when the line goes on otherwise.
pub open spec fn position_moves(s: Seq<u8>, k: int) -> Option<Seq<Seq<u8>>> {
    match tail_after(s, k, moves_word()) {
        Some(v) => Some(words(s.subrange(v, s.len() as int), 0)),
        None => if k == s.len() { Some(Seq::empty()) } else { None },
    }
}

/// The starting FEN (none for the start position) and the move words of a line `position
/// (startpos | fen <fen>) [moves <moves>]`.
pub open spec fn position_parts(s: Seq<u8>) -> Option<(Option<Seq<u8>>, Seq<Seq<u8>>)> {
    if starts_at(s, 0, position_word()) && 8 < s.len() && is_space(s[8]) {
        let a = ws_end(s, 8);
        if starts_at(s, a, startpos_word()) && position_moves(s, a + 8) is Some {
            Some((None, position_moves(s, a + 8)->0))
        } else if starts_at(s, a, fen_word()) && a + 3 < s.len() && is_space(s[a + 3]) {
            let e = ws_end(s, a + 3);
            let f = if e < s.len() { e } else { s.len() - 1 };
            if f > a + 3 && s[f] != 10 {
                match shortest_before(s, f + 1, moves_word()) {
                    Some(k) => Some((Some(s.subrange(f, k)), position_moves(s, k)->0)),
                    None => None,
                }
            } else {
                None
            }
        } else {
            None
        }
    } else {
        None
    }
}

/// The starting FEN of a `position` line.
pub open spec fn position_fen(s: Seq<u8>) -> Option<Seq<u8>> {
    match position_parts(s) {
        Some((f, _)) => f,
        None => None,
    }
}

/// The move words of a `position` line.
pub open spec fn position_move_words(s: Seq<u8>) -> Seq<Seq<u8>> {
    match position_parts(s) {
        Some((_, m)) => m,
        None => Seq::empty(),
    }
}

/// The depth text of a line `perft <depth>`.
pub open spec fn perft_text(s: Seq<u8>) -> Option<Seq<u8>> {
    if starts_at(s, 0, perft_word()) && 5 < s.len() && is_space(s[5]) {
        let d = ws_end(s, 5);
        if no_newline(s, d, s.len() as int) {
            Some(s.subrange(d, s.len() as int))
        } else {
            None
        }
    } else {
        None
    }
}

/// Why a command line was refused.
#[derive(Clone, Copy, PartialEq, Eq, Structural, Debug)]
pub enum CommandError {
    Unknown,
    Go(GoError),
    BadPosition,
    BadPerft,
    BadDepth,
    Option(OptionError),
}

impl CommandError {
    /// The text of the message of the error.
    pub open spec fn text(self) -> Seq<char> {
        match self {
            CommandError::Unknown => "Unknown command."@,
            CommandError::Go(e) => e.text(),
            CommandError::BadPosition => "Invalid position format."@,
            CommandError::BadPerft => "Invalid perft format."@,
            CommandError::BadDepth => "Invalid depth."@,
            CommandError::Option(e) => e.text(),
        }
    }

    /// The message of the error.
    pub fn message(self) -> (r: &'static str)
        ensures
            r@ == self.text(),
    {
        match self {
            CommandError::Unknown => "Unknown command.",
            CommandError::Go(e) => e.message(),
            CommandError::BadPosition => "Invalid position format.",
            CommandError::BadPerft => "Invalid perft format.",
            CommandError::BadDepth => "Invalid depth.",
            CommandError::Option(e) => e.message(),
        }
    }
}

/// A command of the UCI protocol. A position is given by its starting FEN, none for the
/// start position, and the words of the moves played from it.
pub enum UCICommand {
    UCINewGame,
    UCI,
    IsReady,
    Position { fen: Option<Vec<u8>>, moves: Vec<Vec<u8>> },
    Go { time_control: TimeControl, ponder: bool },
    PonderHit,
    Quit,
    Stop,
    Perft(i8),
    Option(EngineOption),
    Eval,
    Fen,
}

/// A command without its data: which command a line names.
#[derive(Clone, Copy, PartialEq, Eq, Structural, Debug)]
pub enum CommandKind {
    UCINewGame,
    UCI,
    IsReady,
    Position,
    Go,
    PonderHit,
    Quit,
    Stop,
    Perft,
    Option,
    Eval,
    Fen,
}

/// The command that the trimmed line `t` names by a whole word, if any.
pub open spec fn keyword_command(t: Seq<u8>) -> Option<CommandKind> {
    if t == seq![117u8, 99, 105, 110, 101, 119, 103, 97, 109, 101] {
        Some(CommandKind::UCINewGame)
    } else if t == seq![115u8, 116, 111, 112] {
        Some(CommandKind::Stop)
    } else if t == seq![117u8, 99, 105] {
        Some(CommandKind::UCI)
    } else if t == seq![101u8, 118, 97, 108] {
        Some(CommandKind::Eval)
    } else if t == seq![102u8, 101, 110] {
        Some(CommandKind::Fen)
    } else if t == seq![112u8, 111, 110, 100, 101, 114, 104, 105, 116] {
        Some(CommandKind::PonderHit)
    } else if t == seq![113u8, 117, 105, 116] {
        Some(CommandKind::Quit)
    } else if t == seq![105u8, 115, 114, 101, 97, 100, 121] {
        Some(CommandKind::IsReady)
    } else {
        None
    }
}

/// The command the line `line` gives, by kind, or why it is refused: the line is trimmed; a
/// whole keyword names its command; else a line that starts with `go`, `position`, `perft`
/// or `setoption` is read as that command.
pub open spec fn command_kind_spec(line: Seq<u8>) -> Result<CommandKind, CommandError> {
    let t = trimmed(line);
    match keyword_command(t) {
        Some(k) => Ok(k),
        None => if starts_at(t, 0, seq![103u8, 111]) {
            match go_spec(t) {
                Ok(_) => Ok(CommandKind::Go),
                Err(e) => Err(CommandError::Go(e)),
            }
        } else if starts_at(t, 0, position_word()) {
            if position_parts(t) is Some { Ok(CommandKind::Position) } else { Err(CommandError::BadPosition) }
        } else if starts_at(t, 0, perft_word()) {
            match perft_text(t) {
                None => Err(CommandError::BadPerft),
                Some(d) => match signed_text_value(d) {
                    Some(v) => if -128 <= v <= 127 { Ok(CommandKind::Perft) } else { Err(CommandError::BadDepth) },
                    None => Err(CommandError::BadDepth),
                },
            }
        } else if starts_at(t, 0, setoption_word()) {
            match option_spec(t) {
                Ok(_) => Ok(CommandKind::Option),
                Err(e) => Err(CommandError::Option(e)),
            }
        } else {
            Err(CommandError::Unknown)
        },
    }
}

/// Whether `c` is the command that `line` gives, as `command_kind_spec` reads it, with the
/// data read from the line.
pub open spec fn command_matches(line: Seq<u8>, c: UCICommand) -> bool {
    let t = trimmed(line);
    match c {
        UCICommand::UCINewGame => command_kind_spec(line) == Ok::<CommandKind, CommandError>(CommandKind::UCINewGame),
        UCICommand::UCI => command_kind_spec(line) == Ok::<CommandKind, CommandError>(CommandKind::UCI),
        UCICommand::IsReady => command_kind_spec(line) == Ok::<CommandKind, CommandError>(CommandKind::IsReady),
        UCICommand::PonderHit => command_kind_spec(line) == Ok::<CommandKind, CommandError>(CommandKind::PonderHit),
        UCICommand::Quit => command_kind_spec(line) == Ok::<CommandKind, CommandError>(CommandKind::Quit),
        UCICommand::Stop => command_kind_spec(line) == Ok::<CommandKind, CommandError>(CommandKind::Stop),
        UCICommand::Eval => command_kind_spec(line) == Ok::<CommandKind, CommandError>(CommandKind::Eval),
        UCICommand::Fen => command_kind_spec(line) == Ok::<CommandKind, CommandError>(CommandKind::Fen),
        UCICommand::Go { time_control, ponder } => command_kind_spec(line) == Ok::<CommandKind, CommandError>(CommandKind::Go)
            && go_spec(t) == Ok::<TimeControl, GoError>(time_control) && ponder == contains_word(t, ponder_word()),
        UCICommand::Position { fen, moves } => {
            &&& command_kind_spec(line) == Ok::<CommandKind, CommandError>(CommandKind::Position)
            &&& position_parts(t) is Some
            &&& words_view(moves@) == position_move_words(t)
            &&& match (fen, position_fen(t)) {
                (None, None) => true,
                (Some(a), Some(b)) => a@ == b,
                _ => false,
            }
        },
        UCICommand::Perft(d) => {
            &&& command_kind_spec(line) == Ok::<CommandKind, CommandError>(CommandKind::Perft)
            &&& perft_text(t) is Some
            &&& signed_text_value(perft_text(t)->0) == Some(d as int)
        },
        UCICommand::Option(o) => command_kind_spec(line) == Ok::<CommandKind, CommandError>(CommandKind::Option)
            && option_spec(t) == Ok::<EngineOption, OptionError>(o),
    }
}

/// `contains_word`, computed.
pub fn contains_bytes(s: &[u8], w: &[u8]) -> (r: bool)
    ensures
        r == contains_word(s@, w@),
{
    let mut i: usize = 0;
    while i < s.len()
        invariant
            i <= s@.len(),
            forall|j: int| 0 <= j < i ==> !#[trigger] starts_at(s@, j, w@),
        decreases s@.len() - i,
    {
        if bytes_at(s, i, w) {
            return true;
        }
        i = i + 1;
    }
    if bytes_at(s, i, w) {
        return true;
    }
    assert forall|j: int| !#[trigger] starts_at(s@, j, w@) by {
        if starts_at(s@, j, w@) && j > s@.len() {
            assert(j + w@.len() > s@.len());
        }
    }
    false
}

/// What `str::parse::<i8>` gives.
pub fn parse_i8(t: &Vec<u8>) -> (r: Option<i8>)
    ensures
        r == (match signed_text_value(t@) {
            Some(v) => if -128 <= v <= 127 { Some(v as i8) } else { None::<i8> },
            None => None::<i8>,
        }),
{
    if t.len() > 0 && t[0] == 45 {
        let b = slice_copy(t.as_slice(), 1, t.len());
        assert(b@ == t@.drop_first());
        if b.len() > 0 && b[0] == 43 {
            assert(!crate::parse::is_digit(b@[0]));
            return None;
        }
        assert(unsigned_text_value(b@) == (if b@.len() > 0 && all_digits(b@) { Some(digits_value(b@)) } else { None::<nat> }));
        match parse_unsigned(&b) {
            Some(n) => if n <= 128 {
                Some((0 - (n as i16)) as i8)
            } else {
                None
            },
            None => None,
        }
    } else {
        match parse_unsigned(t) {
            Some(n) => if n <= 127 {
                Some(n as i8)
            } else {
                None
            },
            None => None,
        }
    }
}

/// The starting FEN and the move words of a `position` line.
pub fn split_position(t: &[u8]) -> (r: Option<(Option<Vec<u8>>, Vec<Vec<u8>>)>)
    ensures
        match (r, position_parts(t@)) {
            (None, None) => true,
            (Some((f, m)), Some((sf, sm))) => words_view(m@) == sm && match (f, sf) {
                (None, None) => true,
                (Some(a), Some(b)) => a@ == b,
                _ => false,
            },
            _ => false,
        },
{
    let position = [112u8, 111, 115, 105, 116, 105, 111, 110];
    let startpos = [115u8, 116, 97, 114, 116, 112, 111, 115];
    let fen_w = [102u8, 101, 110];
    let moves_w = [109u8, 111, 118, 101, 115];
    assert(position@ == position_word());
    assert(startpos@ == startpos_word());
    assert(fen_w@ == fen_word());
    assert(moves_w@ == moves_word());
    if !(bytes_at(t, 0, &position) && 8 < t.len() && is_space_byte(t[8])) {
        return None;
    }
    let a = skip_ws(t, 8);
    if bytes_at(t, a, &startpos) {
        match read_moves(t, a + 8, &moves_w) {
            Some(m) => return Some((None, m)),
            None => {},
        }
    }
    if !(bytes_at(t, a, &fen_w) && a + 3 < t.len() && is_space_byte(t[a + 3])) {
        return None;
    }
    let e = skip_ws(t, a + 3);
    let f = if e < t.len() {
        e
    } else {
        t.len() - 1
    };
    if !(f > a + 3 && t[f] != 10) {
        return None;
    }
    match find_shortest(t, f + 1, &moves_w) {
        None => None,
        Some(k) => {
            let fen = slice_copy(t, f, k);
            match read_moves(t, k, &moves_w) {
                Some(m) => Some((Some(fen), m)),
                None => {
                    assert(false) by {
                        assert(shortest_before(t@, f + 1, moves_word()) == Some(k as int));
                        lemma_shortest_ends(t@, f + 1, moves_word());
                    }
                    None
                },
            }
        },
    }
}

/// Where `shortest_before` stops, the text after `w` follows or the line ends.
pub proof fn lemma_shortest_ends(s: Seq<u8>, k: int, w: Seq<u8>)
    requires
        shortest_before(s, k, w) is Some,
    ensures
        tail_after(s, shortest_before(s, k, w)->0, w) is Some || shortest_before(s, k, w)->0 == s.len(),
    decreases s.len() - k,
{
    if !(k < 0 || k > s.len()) && tail_after(s, k, w) is None && k != s.len() && s[k] != 10 {
        lemma_shortest_ends(s, k + 1, w);
    }
}

/// `position_moves`, computed.
pub fn read_moves(t: &[u8], k: usize, w: &[u8]) -> (r: Option<Vec<Vec<u8>>>)
    requires
        k <= t@.len(),
        w@ == moves_word(),
    ensures
        match (r, position_moves(t@, k as int)) {
            (None, None) => true,
            (Some(m), Some(sm)) => words_view(m@) == sm,
            _ => false,
        },
{
    match find_tail(t, k, w) {
        Some(v) => {
            let rest = slice_copy(t, v, t.len());
            let m = split_words(&rest, 0);
            Some(m)
        },
        None => if k == t.len() {
            let m: Vec<Vec<u8>> = Vec::new();
            assert(words_view(m@) =~= Seq::<Seq<u8>>::empty());
            Some(m)
        } else {
            None
        },
    }
}

impl UCICommand {
    /// The command that the line `line` gives, or why it is refused.
    pub fn parse(line: &[u8]) -> (r: Result<UCICommand, CommandError>)
        ensures
            r matches Ok(c) ==> command_matches(line@, c),
            r matches Err(e) ==> command_kind_spec(line@) == Err::<CommandKind, CommandError>(e),
    {
        let t = trimmed_copy(line);
        let w = [117u8, 99, 105, 110, 101, 119, 103, 97, 109, 101];
        assert(w@ == seq![117u8, 99, 105, 110, 101, 119, 103, 97, 109, 101]);
        if word_is(&t, &w) {
            return Ok(UCICommand::UCINewGame);
        }
        let w = [115u8, 116, 111, 112];
        assert(w@ == seq![115u8, 116, 111, 112]);
        if word_is(&t, &w) {
            return Ok(UCICommand::Stop);
        }
        let w = [117u8, 99, 105];
        assert(w@ == seq![117u8, 99, 105]);
        if word_is(&t, &w) {
            return Ok(UCICommand::UCI);
        }
        let w = [101u8, 118, 97, 108];
        assert(w@ == seq![101u8, 118, 97, 108]);
        if word_is(&t, &w) {
            return Ok(UCICommand::Eval);
        }
        let w = [102u8, 101, 110];
        assert(w@ == seq![102u8, 101, 110]);
        if word_is(&t, &w) {
            return Ok(UCICommand::Fen);
        }
        let w = [112u8, 111, 110, 100, 101, 114, 104, 105, 116];
        assert(w@ == seq![112u8, 111, 110, 100, 101, 114, 104, 105, 116]);
        if word_is(&t, &w) {
            return Ok(UCICommand::PonderHit);
        }
        let w = [113u8, 117, 105, 116];
        assert(w@ == seq![113u8, 117, 105, 116]);
        if word_is(&t, &w) {
            return Ok(UCICommand::Quit);
        }
        let w = [105u8, 115, 114, 101, 97, 100, 121];
        assert(w@ == seq![105u8, 115, 114, 101, 97, 100, 121]);
        if word_is(&t, &w) {
            return Ok(UCICommand::IsReady);
        }
        assert(keyword_command(t@) is None);
        let go = [103u8, 111];
        let position = [112u8, 111, 115, 105, 116, 105, 111, 110];
        let perft = [112u8, 101, 114, 102, 116];
        let setoption = [115u8, 101, 116, 111, 112, 116, 105, 111, 110];
        let ponder = [112u8, 111, 110, 100, 101, 114];
        assert(go@ == seq![103u8, 111]);
        assert(position@ == position_word());
        assert(perft@ == perft_word());
        assert(setoption@ == setoption_word());
        assert(ponder@ == ponder_word());
        if bytes_at(t.as_slice(), 0, &go) {
            match TimeControl::parse_go(t.as_slice()) {
                Ok(time_control) => {
                    let p = contains_bytes(t.as_slice(), &ponder);
                    Ok(UCICommand::Go { time_control, ponder: p })
                },
                Err(e) => Err(CommandError::Go(e)),
            }
        } else if bytes_at(t.as_slice(), 0, &position) {
            match split_position(t.as_slice()) {
                Some((fen, moves)) => Ok(UCICommand::Position { fen, moves }),
                None => Err(CommandError::BadPosition),
            }
        } else if bytes_at(t.as_slice(), 0, &perft) {
            if !(5 < t.len() && is_space_byte(t[5])) {
                return Err(CommandError::BadPerft);
            }
            let d = skip_ws(t.as_slice(), 5);
            if !no_newline_from(t.as_slice(), d) {
                return Err(CommandError::BadPerft);
            }
            let text = slice_copy(t.as_slice(), d, t.len());
            match parse_i8(&text) {
                Some(v) => Ok(UCICommand::Perft(v)),
                None => Err(CommandError::BadDepth),
            }
        } else if bytes_at(t.as_slice(), 0, &setoption) {
            match EngineOption::parse(t.as_slice()) {
                Ok(o) => Ok(UCICommand::Option(o)),
                Err(e) => Err(CommandError::Option(e)),
            }
        } else {
            Err(CommandError::Unknown)
        }
    }
}

impl core::str::FromStr for UCICommand {
    type Err = &'static str;

    fn from_str(line: &str) -> (r: Result<UCICommand, &'static str>)
        ensures
            r matches Ok(c) ==> command_matches(line.spec_bytes(), c),
            r matches Err(m) ==> command_kind_spec(line.spec_bytes()) matches Err(e) && m@ == e.text(),
    {
        match UCICommand::parse(line.as_bytes()) {
            Ok(c) => Ok(c),
            Err(e) => Err(e.message()),
        }
    }
}

/// What an accepted option asks of the engine beyond the settings: nothing, a table of a new
/// size, or an emptied table.
#[derive(Clone, Copy, PartialEq, Eq, Structural, Debug)]
pub enum OptionEffect {
    Nothing,
    ResizeHash(usize),
    ClearHash,
}

/// The engine's settings that `setoption` changes.
#[derive(Clone, Copy, PartialEq, Eq, Structural, Debug)]
pub struct Settings {
    pub hash_mb: usize,
    pub threads: u16,
    /// The move overhead, in milliseconds.
    pub overhead_ms: u64,
    pub ponder_enabled: bool,
    pub show_wdl: bool,
    pub multi_pv: usize,
}

impl Settings {
    /// The default settings.
    pub fn new() -> (r: Settings)
        ensures
            r == (Settings {
                hash_mb: EngineOption::HASH_DEFAULT,
                threads: EngineOption::THREADS_DEFAULT,
                overhead_ms: EngineOption::MOVE_OVERHEAD_DEFAULT,
                ponder_enabled: EngineOption::PONDER_DEFAULT,
                show_wdl: EngineOption::SHOW_WDL_DEFAULT,
                multi_pv: EngineOption::MULTIPV_DEFAULT,
            }),
    {
        Settings {
            hash_mb: EngineOption::HASH_DEFAULT,
            threads: EngineOption::THREADS_DEFAULT,
            overhead_ms: EngineOption::MOVE_OVERHEAD_DEFAULT,
            ponder_enabled: EngineOption::PONDER_DEFAULT,
            show_wdl: EngineOption::SHOW_WDL_DEFAULT,
            multi_pv: EngineOption::MULTIPV_DEFAULT,
        }
    }

    /// Applies the option `o`: a number out of its range is refused and changes nothing.
    pub fn set_option(&mut self, o: EngineOption) -> (r: Result<OptionEffect, &'static str>)
        ensures
            match o {
                EngineOption::Hash(mb) => if EngineOption::HASH_MIN <= mb <= EngineOption::HASH_MAX {
                    r == Ok::<OptionEffect, &'static str>(OptionEffect::ResizeHash(mb)) && *final(self) == (Settings { hash_mb: mb, ..*old(self) })
                } else {
                    (r matches Err(e) && e@ == "Hash size out of range."@) && *final(self) == *old(self)
                },
                EngineOption::Threads(n) => if EngineOption::THREADS_MIN <= n <= EngineOption::THREADS_MAX {
                    r == Ok::<OptionEffect, &'static str>(OptionEffect::Nothing) && *final(self) == (Settings { threads: n, ..*old(self) })
                } else {
                    (r matches Err(e) && e@ == "Threads out of range."@) && *final(self) == *old(self)
                },
                EngineOption::MoveOverhead(ms) => if EngineOption::MOVE_OVERHEAD_MIN <= ms <= EngineOption::MOVE_OVERHEAD_MAX {
                    r == Ok::<OptionEffect, &'static str>(OptionEffect::Nothing) && *final(self) == (Settings { overhead_ms: ms, ..*old(self) })
                } else {
                    (r matches Err(e) && e@ == "Move overhead out of range."@) && *final(self) == *old(self)
                },
                EngineOption::Ponder(b) => r == Ok::<OptionEffect, &'static str>(OptionEffect::Nothing) && *final(self) == (Settings { ponder_enabled: b, ..*old(self) }),
                EngineOption::ShowWDL(b) => r == Ok::<OptionEffect, &'static str>(OptionEffect::Nothing) && *final(self) == (Settings { show_wdl: b, ..*old(self) }),
                EngineOption::MultiPV(n) => if EngineOption::MULTIPV_MIN <= n <= EngineOption::MULTIPV_MAX {
                    r == Ok::<OptionEffect, &'static str>(OptionEffect::Nothing) && *final(self) == (Settings { multi_pv: n, ..*old(self) })
                } else {
                    (r matches Err(e) && e@ == "MultiPV out of range."@) && *final(self) == *old(self)
                },
                EngineOption::ClearHash => r == Ok::<OptionEffect, &'static str>(OptionEffect::ClearHash) && *final(self) == *old(self),
            },
    {
        match o {
            EngineOption::Hash(mb) => {
                if EngineOption::HASH_MIN <= mb && mb <= EngineOption::HASH_MAX {
                    self.hash_mb = mb;
                    Ok(OptionEffect::ResizeHash(mb))
                } else {
                    Err("Hash size out of range.")
                }
            },
            EngineOption::Threads(n) => {
                if EngineOption::THREADS_MIN <= n && n <= EngineOption::THREADS_MAX {
                    self.threads = n;
                    Ok(OptionEffect::Nothing)
                } else {
                    Err("Threads out of range.")
                }
            },
            EngineOption::MoveOverhead(ms) => {
                if EngineOption::MOVE_OVERHEAD_MIN <= ms && ms <= EngineOption::MOVE_OVERHEAD_MAX {
                    self.overhead_ms = ms;
                    Ok(OptionEffect::Nothing)
                } else {
                    Err("Move overhead out of range.")
                }
            },
            EngineOption::Ponder(b) => {
                self.ponder_enabled = b;
                Ok(OptionEffect::Nothing)
            },
            EngineOption::ShowWDL(b) => {
                self.show_wdl = b;
                Ok(OptionEffect::Nothing)
            },
            EngineOption::MultiPV(n) => {
                if EngineOption::MULTIPV_MIN <= n && n <= EngineOption::MULTIPV_MAX {
                    self.multi_pv = n;
                    Ok(OptionEffect::Nothing)
                } else {
                    Err("MultiPV out of range.")
                }
            },
            EngineOption::ClearHash => Ok(OptionEffect::ClearHash),
        }
    }
}

} // verus!
