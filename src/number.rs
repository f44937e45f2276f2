//! Recognition of decimal number syntax: the strings that a decimal
//! floating-point parser accepts.
use vstd::prelude::*;
use vstd::string::*;

verus! {

pub open spec fn is_digit(c: char) -> bool {
    '0' <= c && c <= '9'
}

pub open spec fn all_digits(s: Seq<char>) -> bool {
    forall|i: int| 0 <= i < s.len() ==> is_digit(#[trigger] s[i])
}

pub open spec fn is_sign(c: char) -> bool {
    c == '+' || c == '-'
}

/// Index of the first character of `s` equal to `a` or `b`; `s.len()` if none is.
pub open spec fn first_pos(s: Seq<char>, a: char, b: char) -> nat
    decreases s.len(),
{
    if s.len() == 0 {
        0
    } else if s[0] == a || s[0] == b {
        0
    } else {
        1 + first_pos(s.drop_first(), a, b)
    }
}

/// `t` spells the word given in lower case `lo` and upper case `up`, each
/// letter in either case.
pub open spec fn word_ci(t: Seq<char>, lo: Seq<char>, up: Seq<char>) -> bool {
    &&& t.len() == lo.len()
    &&& t.len() == up.len()
    &&& forall|i: int| 0 <= i < t.len() ==> (#[trigger] t[i] == lo[i] || t[i] == up[i])
}

pub open spec fn special_value(t: Seq<char>) -> bool {
    ||| word_ci(t, "inf"@, "INF"@)
    ||| word_ci(t, "infinity"@, "INFINITY"@)
    ||| word_ci(t, "nan"@, "NAN"@)
}

/// Digits, optionally split by a single decimal point, with at least one digit.
pub open spec fn mantissa(m: Seq<char>) -> bool {
    let d = first_pos(m, '.', '.') as int;
    if d == m.len() {
        m.len() > 0 && all_digits(m)
    } else {
        all_digits(m.subrange(0, d)) && all_digits(m.subrange(d + 1, m.len() as int))
            && m.len() > 1
    }
}

/// What follows the exponent marker: an optional sign and at least one digit.
pub open spec fn exponent_digits(x: Seq<char>) -> bool {
    if x.len() > 0 && is_sign(x[0]) {
        x.len() > 1 && all_digits(x.drop_first())
    } else {
        x.len() > 0 && all_digits(x)
    }
}

pub open spec fn decimal(t: Seq<char>) -> bool {
    let e = first_pos(t, 'e', 'E') as int;
    mantissa(t.subrange(0, e)) && (e == t.len() || exponent_digits(
        t.subrange(e + 1, t.len() as int),
    ))
}

/// The syntax of a decimal floating-point number: an optional sign, then
/// `inf`, `infinity` or `nan` in any case, or digits with an optional decimal
/// point and an optional exponent.
pub open spec fn number_syntax(s: Seq<char>) -> bool {
    let t = if s.len() > 0 && is_sign(s[0]) {
        s.drop_first()
    } else {
        s
    };
    special_value(t) || decimal(t)
}

proof fn lemma_first_pos(s: Seq<char>, a: char, b: char, i: int)
    requires
        0 <= i <= s.len(),
        forall|k: int| 0 <= k < i ==> s[k] != a && s[k] != b,
        i < s.len() ==> (s[i] == a || s[i] == b),
    ensures
        first_pos(s, a, b) == i,
    decreases i,
{
    if i > 0 {
        let t = s.drop_first();
        assert forall|k: int| 0 <= k < i - 1 implies t[k] != a && t[k] != b by {
            assert(t[k] == s[k + 1]);
        }
        if i - 1 < t.len() {
            assert(t[i - 1] == s[i]);
        }
        lemma_first_pos(t, a, b, i - 1);
    }
}

/// Position, counted from the start of `s`, of the first `a` or `b` in
/// `s[lo..hi]`, or `hi` if there is none.
pub(crate) fn find_either(s: &str, lo: usize, hi: usize, a: char, b: char) -> (r: usize)
    requires
        lo <= hi <= s@.len(),
    ensures
        r == lo + first_pos(s@.subrange(lo as int, hi as int), a, b),
        lo <= r <= hi,
{
    let ghost sub = s@.subrange(lo as int, hi as int);
    let mut i = lo;
    while i < hi
        invariant
            lo <= i <= hi,
            hi <= s@.len(),
            sub == s@.subrange(lo as int, hi as int),
            forall|k: int| 0 <= k < i - lo ==> sub[k] != a && sub[k] != b,
        decreases hi - i,
    {
        let c = s.get_char(i);
        if c == a || c == b {
            proof {
                lemma_first_pos(sub, a, b, i - lo);
            }
            return i;
        }
        i += 1;
    }
    proof {
        lemma_first_pos(sub, a, b, i - lo);
    }
    i
}

/// Whether every character of `s[lo..hi]` is a decimal digit.
fn digits_between(s: &str, lo: usize, hi: usize) -> (r: bool)
    requires
        lo <= hi <= s@.len(),
    ensures
        r == all_digits(s@.subrange(lo as int, hi as int)),
{
    let ghost sub = s@.subrange(lo as int, hi as int);
    let mut i = lo;
    while i < hi
        invariant
            lo <= i <= hi,
            hi <= s@.len(),
            sub == s@.subrange(lo as int, hi as int),
            forall|k: int| 0 <= k < i - lo ==> is_digit(#[trigger] sub[k]),
        decreases hi - i,
    {
        let c = s.get_char(i);
        if !('0' <= c && c <= '9') {
            assert(sub[i - lo] == c);
            return false;
        }
        i += 1;
    }
    true
}

/// Whether `s[lo..]` spells the word given as `lo_word` / `up_word`, each
/// letter in either case.
fn word_from(s: &str, lo: usize, lo_word: &str, up_word: &str) -> (r: bool)
    requires
        lo <= s@.len(),
    ensures
        r == word_ci(s@.subrange(lo as int, s@.len() as int), lo_word@, up_word@),
{
    let ghost t = s@.subrange(lo as int, s@.len() as int);
    let n = s.unicode_len();
    let w = lo_word.unicode_len();
    if n - lo != w || up_word.unicode_len() != w {
        return false;
    }
    let mut i: usize = 0;
    while i < w
        invariant
            n == s@.len(),
            lo <= n,
            t == s@.subrange(lo as int, n as int),
            w == t.len(),
            w == lo_word@.len(),
            w == up_word@.len(),
            i <= w,
            forall|k: int| 0 <= k < i ==> (#[trigger] t[k] == lo_word@[k] || t[k] == up_word@[k]),
        decreases w - i,
    {
        let c = s.get_char(lo + i);
        assert(t[i as int] == c);
        if c != lo_word.get_char(i) && c != up_word.get_char(i) {
            return false;
        }
        i += 1;
    }
    true
}

/// Whether `s` has the syntax of a decimal floating-point number, as
/// `number_syntax` states it.
pub fn is_number(s: &str) -> (r: bool)
    ensures
        r == number_syntax(s@),
{
    let n = s.unicode_len();
    let start: usize = if n > 0 && (s.get_char(0) == '+' || s.get_char(0) == '-') {
        1
    } else {
        0
    };
    let ghost t = if s@.len() > 0 && is_sign(s@[0]) {
        s@.drop_first()
    } else {
        s@
    };
    assert(t =~= s@.subrange(start as int, n as int));
    if word_from(s, start, "inf", "INF") || word_from(s, start, "infinity", "INFINITY")
        || word_from(s, start, "nan", "NAN") {
        return true;
    }
    let e = find_either(s, start, n, 'e', 'E');
    let ghost m = t.subrange(0, e - start);
    assert(m =~= s@.subrange(start as int, e as int));
    let d = find_either(s, start, e, '.', '.');
    let mant = if d == e {
        e > start && digits_between(s, start, e)
    } else {
        assert(m.subrange(0, d - start) =~= s@.subrange(start as int, d as int));
        assert(m.subrange(d - start + 1, m.len() as int) =~= s@.subrange(d + 1, e as int));
        digits_between(s, start, d) && digits_between(s, d + 1, e) && e - start > 1
    };
    if !mant {
        return false;
    }
    if e == n {
        return true;
    }
    let ghost x = t.subrange(e - start + 1, t.len() as int);
    assert(x =~= s@.subrange(e + 1, n as int));
    if e + 1 < n && (s.get_char(e + 1) == '+' || s.get_char(e + 1) == '-') {
        assert(x.drop_first() =~= s@.subrange(e + 2, n as int));
        e + 2 < n && digits_between(s, e + 2, n)
    } else {
        e + 1 < n && digits_between(s, e + 1, n)
    }
}

} // verus!
