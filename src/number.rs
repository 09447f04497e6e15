//! Recognition of number literals. A word is a number literal when `f64`'s
//! `FromStr` accepts it; that grammar is stated here and checked character by
//! character, so that the tokenizer needs no floating-point arithmetic.
use vstd::prelude::*;

use crate::text::chars_of;

verus! {

pub open spec fn is_digit(c: char) -> bool {
    '0' <= c && c <= '9'
}

pub open spec fn all_digits(s: Seq<char>) -> bool {
    forall|i: int| 0 <= i < s.len() ==> is_digit(#[trigger] s[i])
}

pub open spec fn is_sign(c: char) -> bool {
    c == '+' || c == '-'
}

pub open spec fn is_exponent_mark(c: char) -> bool {
    c == 'e' || c == 'E'
}

/// `s` without one leading sign, if it has one.
pub open spec fn without_sign(s: Seq<char>) -> Seq<char> {
    if s.len() > 0 && is_sign(s[0]) {
        s.subrange(1, s.len() as int)
    } else {
        s
    }
}

/// `s` spells the word whose lower-case letters are `lower` and upper-case
/// letters are `upper`, each letter in either case.
pub open spec fn spelled_either_case(s: Seq<char>, lower: Seq<char>, upper: Seq<char>) -> bool {
    &&& s.len() == lower.len()
    &&& forall|i: int| 0 <= i < s.len() ==> (#[trigger] s[i] == lower[i] || s[i] == upper[i])
}

/// Digits with at most one decimal point, and at least one digit.
pub open spec fn decimal_mantissa(m: Seq<char>) -> bool {
    ||| (m.len() > 0 && all_digits(m))
    ||| (m.len() > 1 && exists|d: int|
        0 <= d < m.len() && m[d] == '.' && all_digits(m.subrange(0, d)) && all_digits(
            m.subrange(d + 1, m.len() as int),
        ))
}

/// An optional sign and at least one digit.
pub open spec fn decimal_exponent(x: Seq<char>) -> bool {
    without_sign(x).len() > 0 && all_digits(without_sign(x))
}

/// A mantissa, optionally followed by an exponent mark and an exponent.
pub open spec fn decimal_number(t: Seq<char>) -> bool {
    ||| decimal_mantissa(t)
    ||| exists|e: int|
        0 <= e < t.len() && is_exponent_mark(t[e]) && decimal_mantissa(t.subrange(0, e))
            && decimal_exponent(t.subrange(e + 1, t.len() as int))
}

/// The grammar that `f64`'s `FromStr` accepts: an optional sign, then
/// `inf`, `infinity` or `nan` in any case, or a decimal number.
pub open spec fn is_float_text(s: Seq<char>) -> bool {
    let t = without_sign(s);
    ||| spelled_either_case(t, seq!['i', 'n', 'f'], seq!['I', 'N', 'F'])
    ||| spelled_either_case(
        t,
        seq!['i', 'n', 'f', 'i', 'n', 'i', 't', 'y'],
        seq!['I', 'N', 'F', 'I', 'N', 'I', 'T', 'Y'],
    )
    ||| spelled_either_case(t, seq!['n', 'a', 'n'], seq!['N', 'A', 'N'])
    ||| decimal_number(t)
}

fn digits_between(s: &[char], lo: usize, hi: usize) -> (r: bool)
    requires
        lo <= hi <= s@.len(),
    ensures
        r == all_digits(s@.subrange(lo as int, hi as int)),
{
    let mut i = lo;
    while i < hi
        invariant
            lo <= i <= hi <= s@.len(),
            all_digits(s@.subrange(lo as int, i as int)),
        decreases hi - i,
    {
        if !('0' <= s[i] && s[i] <= '9') {
            assert(s@.subrange(lo as int, hi as int)[i - lo] == s@[i as int]);
            return false;
        }
        assert forall|j: int| 0 <= j < i + 1 - lo implies is_digit(
            #[trigger] s@.subrange(lo as int, i + 1)[j],
        ) by {
            if j < i - lo {
                assert(s@.subrange(lo as int, i + 1)[j] == s@.subrange(lo as int, i as int)[j]);
            }
        }
        i = i + 1;
    }
    true
}

/// The first index in `lo..hi` that holds `c`.
fn first_between(s: &[char], lo: usize, hi: usize, c: char) -> (r: Option<usize>)
    requires
        lo <= hi <= s@.len(),
    ensures
        r matches Some(i) ==> lo <= i < hi && s@[i as int] == c && forall|j: int|
            lo <= j < i ==> s@[j] != c,
        r is None ==> forall|j: int| lo <= j < hi ==> s@[j] != c,
{
    let mut i = lo;
    while i < hi
        invariant
            lo <= i <= hi <= s@.len(),
            forall|j: int| lo <= j < i ==> s@[j] != c,
        decreases hi - i,
    {
        if s[i] == c {
            return Some(i);
        }
        i = i + 1;
    }
    None
}

/// Every character of a mantissa is a digit or the decimal point.
proof fn lemma_mantissa_chars(m: Seq<char>, i: int)
    requires
        decimal_mantissa(m),
        0 <= i < m.len(),
    ensures
        is_digit(m[i]) || m[i] == '.',
{
    if !all_digits(m) {
        let d = choose|d: int|
            0 <= d < m.len() && m[d] == '.' && all_digits(m.subrange(0, d)) && all_digits(
                m.subrange(d + 1, m.len() as int),
            );
        if i < d {
            assert(m.subrange(0, d)[i] == m[i]);
        } else if i > d {
            assert(m.subrange(d + 1, m.len() as int)[i - d - 1] == m[i]);
        }
    }
}

/// Whether `s[lo..hi]` is a mantissa.
fn mantissa_between(s: &[char], lo: usize, hi: usize) -> (r: bool)
    requires
        lo <= hi <= s@.len(),
    ensures
        r == decimal_mantissa(s@.subrange(lo as int, hi as int)),
{
    let ghost m = s@.subrange(lo as int, hi as int);
    if lo == hi {
        return false;
    }
    match first_between(s, lo, hi, '.') {
        None => {
            let r = digits_between(s, lo, hi);
            if !r {
                assert forall|d: int|
                    0 <= d < m.len() && #[trigger] m[d] == '.' implies false by {
                    assert(m[d] == s@[lo + d]);
                }
            }
            r
        },
        Some(p) => {
            let left = digits_between(s, lo, p);
            let right = digits_between(s, p + 1, hi);
            let ghost d = (p - lo) as int;
            assert(m.subrange(0, d) =~= s@.subrange(lo as int, p as int));
            assert(m.subrange(d + 1, m.len() as int) =~= s@.subrange(p + 1, hi as int));
            assert(m[d] == '.');
            assert(!all_digits(m));
            proof {
                if !(left && right && hi - lo > 1) && decimal_mantissa(m) {
                    let e = choose|e: int|
                        0 <= e < m.len() && m[e] == '.' && all_digits(m.subrange(0, e))
                            && all_digits(m.subrange(e + 1, m.len() as int));
                    if e < d {
                        assert(m[e] == s@[lo + e]);
                    } else if e > d {
                        assert(m.subrange(0, e)[d] == m[d]);
                    }
                }
            }
            left && right && hi - lo > 1
        },
    }
}

/// Whether `s[lo..hi]` is an exponent.
fn exponent_between(s: &[char], lo: usize, hi: usize) -> (r: bool)
    requires
        lo <= hi <= s@.len(),
    ensures
        r == decimal_exponent(s@.subrange(lo as int, hi as int)),
{
    let ghost x = s@.subrange(lo as int, hi as int);
    if lo < hi && (s[lo] == '+' || s[lo] == '-') {
        assert(without_sign(x) =~= s@.subrange(lo + 1, hi as int));
        lo + 1 < hi && digits_between(s, lo + 1, hi)
    } else {
        lo < hi && digits_between(s, lo, hi)
    }
}

/// Whether `s[lo..]` spells the word `lower` / `upper` in any mix of cases.
fn either_case_from(s: &[char], lo: usize, lower: &str, upper: &str) -> (r: bool)
    requires
        lo <= s@.len(),
        lower@.len() == upper@.len(),
    ensures
        r == spelled_either_case(s@.subrange(lo as int, s@.len() as int), lower@, upper@),
{
    let lw = chars_of(lower);
    let up = chars_of(upper);
    if s.len() - lo != lw.len() {
        return false;
    }
    let mut k: usize = lo;
    while k < s.len()
        invariant
            lw@ == lower@,
            up@ == upper@,
            lw@.len() == up@.len(),
            lo + lw@.len() == s@.len(),
            lo <= k <= s@.len(),
            forall|j: int| 0 <= j < k - lo ==> (s@[lo + j] == lw@[j] || s@[lo + j] == up@[j]),
        decreases s@.len() - k,
    {
        let i = k - lo;
        if s[k] != lw[i] && s[k] != up[i] {
            assert(s@.subrange(lo as int, s@.len() as int)[i as int] == s@[k as int]);
            return false;
        }
        k = k + 1;
    }
    assert forall|j: int| 0 <= j < lw@.len() implies (#[trigger] s@.subrange(
        lo as int,
        s@.len() as int,
    )[j] == lw@[j] || s@.subrange(lo as int, s@.len() as int)[j] == up@[j]) by {
        assert(s@.subrange(lo as int, s@.len() as int)[j] == s@[lo + j]);
    }
    true
}

/// Whether `f64`'s `FromStr` accepts `s`.
pub fn is_float_literal(s: &[char]) -> (r: bool)
    ensures
        r == is_float_text(s@),
{
    let lo: usize = if s.len() > 0 && (s[0] == '+' || s[0] == '-') {
        1
    } else {
        0
    };
    let hi = s.len();
    let ghost t = without_sign(s@);
    assert(t =~= s@.subrange(lo as int, hi as int));
    proof {
        reveal_strlit("inf");
        reveal_strlit("INF");
        reveal_strlit("infinity");
        reveal_strlit("INFINITY");
        reveal_strlit("nan");
        reveal_strlit("NAN");
        assert("inf"@ =~= seq!['i', 'n', 'f']);
        assert("INF"@ =~= seq!['I', 'N', 'F']);
        assert("infinity"@ =~= seq!['i', 'n', 'f', 'i', 'n', 'i', 't', 'y']);
        assert("INFINITY"@ =~= seq!['I', 'N', 'F', 'I', 'N', 'I', 'T', 'Y']);
        assert("nan"@ =~= seq!['n', 'a', 'n']);
        assert("NAN"@ =~= seq!['N', 'A', 'N']);
    }
    if either_case_from(s, lo, "inf", "INF") || either_case_from(s, lo, "infinity", "INFINITY")
        || either_case_from(s, lo, "nan", "NAN") {
        return true;
    }
    let e_lower = first_between(s, lo, hi, 'e');
    let e_upper = first_between(s, lo, hi, 'E');
    let mark: Option<usize> = match (e_lower, e_upper) {
        (Some(a), Some(b)) => Some(if a < b { a } else { b }),
        (Some(a), None) => Some(a),
        (None, Some(b)) => Some(b),
        (None, None) => None,
    };
    match mark {
        None => {
            proof {
                assert forall|j: int| 0 <= j < t.len() implies !is_exponent_mark(#[trigger] t[j]) by {
                    assert(t[j] == s@[lo + j]);
                }
                lemma_number_without_mark(t);
            }
            mantissa_between(s, lo, hi)
        },
        Some(p) => {
            let ghost d = (p - lo) as int;
            proof {
                assert(t.subrange(0, d) =~= s@.subrange(lo as int, p as int));
                assert(t.subrange(d + 1, t.len() as int) =~= s@.subrange(p + 1, hi as int));
                assert(t[d] == s@[p as int]);
                assert forall|j: int| 0 <= j < d implies !is_exponent_mark(#[trigger] t[j]) by {
                    assert(t[j] == s@[lo + j]);
                }
                lemma_number_at_mark(t, d);
            }
            mantissa_between(s, lo, p) && exponent_between(s, p + 1, hi)
        },
    }
}

/// Without an exponent mark, a number is a mantissa.
proof fn lemma_number_without_mark(t: Seq<char>)
    requires
        forall|j: int| 0 <= j < t.len() ==> !is_exponent_mark(#[trigger] t[j]),
    ensures
        decimal_number(t) == decimal_mantissa(t),
{
}

/// With its first exponent mark at `d`, a number is a mantissa before `d` and
/// an exponent after it.
proof fn lemma_number_at_mark(t: Seq<char>, d: int)
    requires
        0 <= d < t.len(),
        is_exponent_mark(t[d]),
        forall|j: int| 0 <= j < d ==> !is_exponent_mark(#[trigger] t[j]),
    ensures
        decimal_number(t) == (decimal_mantissa(t.subrange(0, d)) && decimal_exponent(
            t.subrange(d + 1, t.len() as int),
        )),
{
    if decimal_mantissa(t) {
        lemma_mantissa_chars(t, d);
    }
    if decimal_number(t) && !decimal_mantissa(t) {
        let e = choose|e: int|
            0 <= e < t.len() && is_exponent_mark(t[e]) && decimal_mantissa(t.subrange(0, e))
                && decimal_exponent(t.subrange(e + 1, t.len() as int));
        if e > d {
            assert(t.subrange(0, e)[d] == t[d]);
            lemma_mantissa_chars(t.subrange(0, e), d);
        }
    }
}

} // verus!
