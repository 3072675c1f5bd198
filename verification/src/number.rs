//! Which texts read as a number of pixels.
//!
//! A layout setting is accepted when its text is a decimal floating-point
//! literal as `f64`'s `FromStr` documents it:
//!
//! ```text
//! Float  ::= Sign? ( 'inf' | 'infinity' | 'nan' | Number )
//! Number ::= ( Digit+ | Digit+ '.' Digit* | Digit* '.' Digit+ ) Exp?
//! Exp    ::= 'e' Sign? Digit+
//! Sign   ::= [+-]
//! ```
//!
//! where letters match without regard to ASCII case.

use vstd::prelude::*;
use crate::text::{chars_starts_with_ignore_case, eq_ignore_ascii_case, str_chars, sub_chars};

verus! {

pub open spec fn is_digit(c: char) -> bool {
    '0' <= c && c <= '9'
}

/// `+` or `-`.
pub open spec fn is_sign(c: char) -> bool {
    c == '+' || c == '-'
}

/// `e` or `E`.
pub open spec fn is_exp_mark(c: char) -> bool {
    c == 'e' || c == 'E'
}

/// Digits with at most one `.` among them and at least one digit.
pub open spec fn is_mantissa(m: Seq<char>) -> bool {
    &&& forall|i: int| 0 <= i < m.len() ==> is_digit(#[trigger] m[i]) || m[i] == '.'
    &&& forall|i: int, j: int| 0 <= i < j < m.len() ==> !(#[trigger] m[i] == '.' && #[trigger] m[j] == '.')
    &&& exists|i: int| 0 <= i < m.len() && is_digit(#[trigger] m[i])
}

/// Nothing, or an exponent mark, an optional sign and at least one digit.
pub open spec fn is_exponent(e: Seq<char>) -> bool {
    e.len() == 0 || (is_exp_mark(e[0]) && all_digits(exponent_digits(e)))
}

/// What follows the exponent mark and its sign.
pub open spec fn exponent_digits(e: Seq<char>) -> Seq<char> {
    let r = e.drop_first();
    if r.len() > 0 && is_sign(r[0]) {
        r.drop_first()
    } else {
        r
    }
}

/// At least one character, all of them digits.
pub open spec fn all_digits(d: Seq<char>) -> bool {
    d.len() > 0 && forall|i: int| 0 <= i < d.len() ==> is_digit(#[trigger] d[i])
}

/// The index of the first exponent mark in `s` at or after `k`, or `s.len()`.
pub open spec fn exp_start_from(s: Seq<char>, k: int) -> int
    decreases s.len() - k,
{
    if k < 0 || k >= s.len() {
        s.len() as int
    } else if is_exp_mark(s[k]) {
        k
    } else {
        exp_start_from(s, k + 1)
    }
}

/// A `Number` of the grammar: a mantissa followed by an optional exponent.
pub open spec fn is_number(s: Seq<char>) -> bool {
    let k = exp_start_from(s, 0);
    is_mantissa(s.take(k)) && is_exponent(s.skip(k))
}

/// `inf`, `infinity` or `nan`, without regard to ASCII case.
pub open spec fn is_special_value(s: Seq<char>) -> bool {
    eq_ignore_ascii_case(s, "inf"@) || eq_ignore_ascii_case(s, "infinity"@) || eq_ignore_ascii_case(
        s,
        "nan"@,
    )
}

/// A text that reads as a floating-point number.
pub open spec fn is_float_literal(s: Seq<char>) -> bool {
    let u = if s.len() > 0 && is_sign(s[0]) {
        s.drop_first()
    } else {
        s
    };
    is_special_value(u) || is_number(u)
}

proof fn lemma_exp_start(s: Seq<char>, k: int)
    requires
        0 <= k <= s.len(),
    ensures
        k <= exp_start_from(s, k) <= s.len(),
    decreases s.len() - k,
{
    if k < s.len() && !is_exp_mark(s[k]) {
        lemma_exp_start(s, k + 1);
    }
}

fn chars_eq_ignore_case(s: &Vec<char>, lit: &str) -> (r: bool)
    ensures
        r == eq_ignore_ascii_case(s@, lit@),
{
    let p = str_chars(lit);
    if s.len() != p.len() {
        return false;
    }
    let r = chars_starts_with_ignore_case(s, &p);
    assert(s@.take(p@.len() as int) =~= s@);
    r
}

fn mantissa_ok(m: &Vec<char>) -> (r: bool)
    ensures
        r == is_mantissa(m@),
{
    let mut seen_dot = false;
    let mut seen_digit = false;
    let mut i: usize = 0;
    while i < m.len()
        invariant
            0 <= i <= m.len(),
            forall|j: int| 0 <= j < i ==> is_digit(#[trigger] m@[j]) || m@[j] == '.',
            forall|a: int, b: int| 0 <= a < b < i ==> !(#[trigger] m@[a] == '.' && #[trigger] m@[b] == '.'),
            seen_dot <==> exists|j: int| 0 <= j < i && m@[j] == '.',
            seen_digit <==> exists|j: int| 0 <= j < i && is_digit(#[trigger] m@[j]),
        decreases m.len() - i,
    {
        let c = m[i];
        if '0' <= c && c <= '9' {
            seen_digit = true;
        } else if c == '.' {
            if seen_dot {
                let ghost j = choose|j: int| 0 <= j < i && m@[j] == '.';
                assert(!is_mantissa(m@)) by {
                    assert(m@[j] == '.' && m@[i as int] == '.');
                }
                return false;
            }
            seen_dot = true;
        } else {
            assert(!(is_digit(m@[i as int]) || m@[i as int] == '.'));
            return false;
        }
        i = i + 1;
    }
    seen_digit
}

fn exponent_ok(e: &Vec<char>) -> (r: bool)
    ensures
        r == is_exponent(e@),
{
    if e.len() == 0 {
        return true;
    }
    let c0 = e[0];
    if !(c0 == 'e' || c0 == 'E') {
        return false;
    }
    let mut i: usize = 1;
    if e.len() > 1 && (e[1] == '+' || e[1] == '-') {
        i = 2;
    }
    let ghost d = exponent_digits(e@);
    assert(d =~= e@.skip(i as int));
    if i >= e.len() {
        return false;
    }
    let start = i;
    while i < e.len()
        invariant
            start <= i <= e.len(),
            e.len() > 0,
            d == exponent_digits(e@),
            d == e@.skip(start as int),
            forall|j: int| start <= j < i ==> is_digit(#[trigger] e@[j]),
        decreases e.len() - i,
    {
        let c = e[i];
        if !('0' <= c && c <= '9') {
            assert(d[i - start] == e@[i as int]);
            assert(!is_digit(d[i - start]));
            return false;
        }
        i = i + 1;
    }
    assert forall|j: int| 0 <= j < d.len() implies is_digit(#[trigger] d[j]) by {
        assert(d[j] == e@[j + start]);
    }
    true
}

/// Whether the text `s` reads as a floating-point number.
pub fn chars_are_float_literal(s: &Vec<char>) -> (r: bool)
    ensures
        r == is_float_literal(s@),
{
    let mut a: usize = 0;
    if s.len() > 0 && (s[0] == '+' || s[0] == '-') {
        a = 1;
    }
    let u = sub_chars(s, a, s.len());
    assert(u@ =~= (if s@.len() > 0 && is_sign(s@[0]) {
        s@.drop_first()
    } else {
        s@
    }));
    if chars_eq_ignore_case(&u, "inf") || chars_eq_ignore_case(&u, "infinity")
        || chars_eq_ignore_case(&u, "nan") {
        return true;
    }
    let mut k: usize = 0;
    while k < u.len() && !(u[k] == 'e' || u[k] == 'E')
        invariant
            0 <= k <= u.len(),
            exp_start_from(u@, 0) == exp_start_from(u@, k as int),
        decreases u.len() - k,
    {
        k = k + 1;
    }
    let m = sub_chars(&u, 0, k);
    let e = sub_chars(&u, k, u.len());
    assert(m@ =~= u@.take(k as int));
    assert(e@ =~= u@.skip(k as int));
    mantissa_ok(&m) && exponent_ok(&e)
}

} // verus!
