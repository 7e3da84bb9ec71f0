use vstd::prelude::*;

verus! {

/// Whether `c` is an ASCII decimal digit.
pub open spec fn is_digit(c: u8) -> bool {
    48 <= c <= 57
}

/// Whether every byte of `s` is an ASCII decimal digit.
pub open spec fn all_digits(s: Seq<u8>) -> bool {
    forall|i: int| 0 <= i < s.len() ==> is_digit(#[trigger] s[i])
}

/// The number that the decimal digits `s` write.
pub open spec fn digits_value(s: Seq<u8>) -> nat
    decreases s.len(),
{
    if s.len() == 0 {
        0
    } else {
        digits_value(s.drop_last()) * 10 + (s.last() - 48) as nat
    }
}

/// What `str::parse` reads from `s` for an unsigned integer type, before the range check:
/// an optional `+` and then one or more decimal digits.
pub open spec fn unsigned_text_value(s: Seq<u8>) -> Option<nat> {
    let body = if s.len() > 0 && s[0] == 43 {
        s.drop_first()
    } else {
        s
    };
    if body.len() > 0 && all_digits(body) {
        Some(digits_value(body))
    } else {
        None
    }
}

/// Whether `c` is one of the bytes that ASCII counts as white space: tab, line feed,
/// vertical tab, form feed, carriage return and space.
pub open spec fn is_space(c: u8) -> bool {
    c == 9 || c == 10 || c == 11 || c == 12 || c == 13 || c == 32
}

pub fn is_space_byte(c: u8) -> (r: bool)
    ensures
        r == is_space(c),
{
    c == 9 || c == 10 || c == 11 || c == 12 || c == 13 || c == 32
}

proof fn lemma_digits_value_push(s: Seq<u8>, c: u8)
    ensures
        digits_value(s.push(c)) == digits_value(s) * 10 + (c - 48) as nat,
{
    assert(s.push(c).drop_last() =~= s);
}

/// Reads the decimal digits `s[start..end]` as a `u64`; `None` when the number does not fit.
pub fn digits_to_u64(s: &[u8], start: usize, end: usize) -> (r: Option<u64>)
    requires
        start <= end <= s@.len(),
        all_digits(s@.subrange(start as int, end as int)),
    ensures
        r == (if digits_value(s@.subrange(start as int, end as int)) <= u64::MAX {
            Some(digits_value(s@.subrange(start as int, end as int)) as u64)
        } else {
            None::<u64>
        }),
{
    let mut value: u64 = 0;
    let mut i = start;
    let mut overflow = false;
    assert(s@.subrange(start as int, start as int) =~= Seq::<u8>::empty());
    while i < end
        invariant
            start <= i <= end <= s@.len(),
            all_digits(s@.subrange(start as int, end as int)),
            !overflow ==> value == digits_value(s@.subrange(start as int, i as int)),
            overflow ==> digits_value(s@.subrange(start as int, i as int)) > u64::MAX,
        decreases end - i,
    {
        let c = s[i];
        proof {
            assert(s@.subrange(start as int, i + 1) =~= s@.subrange(start as int, i as int).push(
                c,
            ));
            lemma_digits_value_push(s@.subrange(start as int, i as int), c);
            assert(is_digit(s@.subrange(start as int, end as int)[i - start]));
        }
        let d = (c - 48) as u64;
        if !overflow {
            if value > (u64::MAX - d) / 10 {
                assert(value * 10 + d > u64::MAX) by (nonlinear_arith)
                    requires
                        value > (u64::MAX - d) / 10,
                        d <= 9,
                ;
                overflow = true;
            } else {
                assert(value * 10 + d <= u64::MAX) by (nonlinear_arith)
                    requires
                        value <= (u64::MAX - d) / 10,
                        d <= 9,
                ;
                value = value * 10 + d;
            }
        } else {
            assert(digits_value(s@.subrange(start as int, i as int)) * 10 + d > u64::MAX)
                by (nonlinear_arith)
                requires
                    digits_value(s@.subrange(start as int, i as int)) > u64::MAX,
            ;
        }
        i = i + 1;
    }
    if overflow {
        None
    } else {
        Some(value)
    }
}

/// The words of `s`: its maximal runs of bytes that are not ASCII white space, in order.
/// `cur` is the word being read and `acc` the words already complete when `s[i..]` is left.
pub open spec fn words_from(s: Seq<u8>, i: int, cur: Seq<u8>, acc: Seq<Seq<u8>>) -> Seq<Seq<u8>>
    decreases s.len() - i,
{
    if i >= s.len() {
        if cur.len() > 0 {
            acc.push(cur)
        } else {
            acc
        }
    } else if is_space(s[i]) {
        words_from(s, i + 1, Seq::empty(), if cur.len() > 0 { acc.push(cur) } else { acc })
    } else {
        words_from(s, i + 1, cur.push(s[i]), acc)
    }
}

/// The words of `s[start..]`.
pub open spec fn words(s: Seq<u8>, start: int) -> Seq<Seq<u8>> {
    words_from(s, start, Seq::empty(), Seq::empty())
}

/// Splits `s[start..]` at ASCII white space, dropping the empty pieces.
pub fn split_words(s: &[u8], start: usize) -> (r: Vec<Vec<u8>>)
    requires
        start <= s@.len(),
    ensures
        r@.len() == words(s@, start as int).len(),
        forall|k: int| 0 <= k < r@.len() ==> (#[trigger] r@[k])@ == words(s@, start as int)[k],
{
    let mut acc: Vec<Vec<u8>> = Vec::new();
    let mut cur: Vec<u8> = Vec::new();
    let mut i = start;
    let ghost mut acc_v: Seq<Seq<u8>> = Seq::empty();
    while i < s.len()
        invariant
            start <= i <= s@.len(),
            acc@.len() == acc_v.len(),
            forall|k: int| 0 <= k < acc@.len() ==> (#[trigger] acc@[k])@ == acc_v[k],
            words_from(s@, i as int, cur@, acc_v) == words(s@, start as int),
        decreases s.len() - i,
    {
        let c = s[i];
        if is_space_byte(c) {
            if cur.len() > 0 {
                proof {
                    acc_v = acc_v.push(cur@);
                }
                acc.push(cur);
                cur = Vec::new();
            }
            assert(cur@ =~= Seq::<u8>::empty());
        } else {
            cur.push(c);
        }
        i = i + 1;
    }
    if cur.len() > 0 {
        proof {
            acc_v = acc_v.push(cur@);
        }
        acc.push(cur);
    }
    acc
}

/// The bytes of `w` taken one for one.
pub open spec fn words_view(w: Seq<Vec<u8>>) -> Seq<Seq<u8>> {
    Seq::new(w.len(), |k: int| w[k]@)
}

/// Whether `t` holds the same bytes as `w`.
pub fn word_is(t: &Vec<u8>, w: &[u8]) -> (r: bool)
    ensures
        r == (t@ == w@),
{
    if t.len() != w.len() {
        return false;
    }
    let mut i: usize = 0;
    while i < t.len()
        invariant
            t@.len() == w@.len(),
            i <= t@.len(),
            forall|k: int| 0 <= k < i ==> t@[k] == w@[k],
        decreases t.len() - i,
    {
        if t[i] != w[i] {
            return false;
        }
        i = i + 1;
    }
    assert(t@ =~= w@);
    true
}

/// Whether `t` is one or more decimal digits.
pub open spec fn is_number(t: Seq<u8>) -> bool {
    t.len() > 0 && all_digits(t)
}

/// Whether `t[start..]` is one or more decimal digits.
pub fn is_digits_from(t: &Vec<u8>, start: usize) -> (r: bool)
    requires
        start <= t@.len(),
    ensures
        r == (start < t@.len() && all_digits(t@.subrange(start as int, t@.len() as int))),
{
    if start >= t.len() {
        return false;
    }
    let mut i = start;
    while i < t.len()
        invariant
            start <= i <= t@.len(),
            forall|k: int| start <= k < i ==> is_digit(#[trigger] t@[k]),
        decreases t.len() - i,
    {
        if !(48 <= t[i] && t[i] <= 57) {
            assert(!is_digit(t@.subrange(start as int, t@.len() as int)[i - start]));
            return false;
        }
        i = i + 1;
    }
    assert(all_digits(t@.subrange(start as int, t@.len() as int)));
    true
}

} // verus!
