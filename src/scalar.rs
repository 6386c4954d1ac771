//! The grammar of scalar value texts and the rules that give each its type.

use crate::text::{chars_of, trim, trim_bounds};
use crate::value::{CoercionFailure, Scalar, Value};
use vstd::prelude::*;

verus! {

pub open spec fn is_digit(c: char) -> bool {
    '0' <= c && c <= '9'
}

/// The first position at or after `i` that does not hold a decimal digit.
pub open spec fn digit_run(s: Seq<char>, i: int) -> int
    decreases s.len() - i,
{
    if 0 <= i < s.len() && is_digit(s[i]) {
        digit_run(s, i + 1)
    } else {
        i
    }
}

/// The number that a string of decimal digits writes.
pub open spec fn digits_value(s: Seq<char>) -> int
    decreases s.len(),
{
    if s.len() == 0 {
        0
    } else {
        10 * digits_value(s.drop_last()) + (s.last() as int - '0' as int)
    }
}

/// 1 where `s` starts with a sign, else 0.
pub open spec fn sign_len(s: Seq<char>) -> int {
    if s.len() > 0 && (s[0] == '+' || s[0] == '-') {
        1
    } else {
        0
    }
}

/// The number written by an optional sign followed by one or more decimal digits.
pub open spec fn int_literal(s: Seq<char>) -> Option<int> {
    let q = sign_len(s);
    if s.len() > q && digit_run(s, q) == s.len() {
        let m = digits_value(s.subrange(q, s.len() as int));
        Some(if q == 1 && s[0] == '-' { -m } else { m })
    } else {
        None
    }
}

/// What `i64`'s `FromStr` reads from `s`: an integer literal within range.
pub open spec fn i64_literal(s: Seq<char>) -> Option<int> {
    match int_literal(s) {
        Some(v) => if i64::MIN <= v && v <= i64::MAX {
            Some(v)
        } else {
            None
        },
        None => None,
    }
}

/// `s` spells the word given in lower and in upper case, letter by letter in either case.
pub open spec fn word_ic(s: Seq<char>, lower: Seq<char>, upper: Seq<char>) -> bool {
    &&& s.len() == lower.len()
    &&& s.len() == upper.len()
    &&& forall|i: int| 0 <= i < s.len() ==> #[trigger] s[i] == lower[i] || s[i] == upper[i]
}

pub open spec fn is_exp_mark(c: char) -> bool {
    c == 'e' || c == 'E'
}

/// Digits, at most one point and at least one digit, then optionally an
/// exponent: `e` or `E`, an optional sign and one or more digits.
pub open spec fn is_decimal_number(s: Seq<char>) -> bool {
    let d1 = digit_run(s, 0);
    let pointed = d1 < s.len() && s[d1] == '.';
    let end = if pointed { digit_run(s, d1 + 1) } else { d1 };
    let ndigits = if pointed { end - 1 } else { end };
    &&& ndigits > 0
    &&& (end == s.len() || (is_exp_mark(s[end]) && end + 1 + sign_len(s.subrange(end + 1, s.len() as int)) < s.len()
        && digit_run(s, end + 1 + sign_len(s.subrange(end + 1, s.len() as int))) == s.len()))
}

/// The texts that `f64`'s `FromStr` accepts: an optional sign, then a decimal
/// number or one of the words `inf`, `infinity`, `nan` in any letter case.
pub open spec fn is_float_literal(s: Seq<char>) -> bool {
    let body = s.subrange(sign_len(s), s.len() as int);
    ||| is_decimal_number(body)
    ||| word_ic(body, seq!['i', 'n', 'f'], seq!['I', 'N', 'F'])
    ||| word_ic(
        body,
        seq!['i', 'n', 'f', 'i', 'n', 'i', 't', 'y'],
        seq!['I', 'N', 'F', 'I', 'N', 'I', 'T', 'Y'],
    )
    ||| word_ic(body, seq!['n', 'a', 'n'], seq!['N', 'A', 'N'])
}

/// The typed value of a trimmed value text; the first rule that applies wins.
pub open spec fn coerce(t: Seq<char>) -> Option<Scalar> {
    if t.len() == 0 {
        None
    } else if t.len() >= 2 && t[0] == '"' && t.last() == '"' {
        Some(Scalar::Text(t.subrange(1, t.len() - 1)))
    } else if word_ic(t, seq!['y', 'e', 's'], seq!['Y', 'E', 'S']) {
        Some(Scalar::Bool(true))
    } else if word_ic(t, seq!['n', 'o'], seq!['N', 'O']) {
        Some(Scalar::Bool(false))
    } else if i64_literal(t) is Some {
        Some(Scalar::Int(i64_literal(t)->0))
    } else if is_float_literal(t) {
        Some(Scalar::Real(t))
    } else {
        Some(Scalar::Text(t))
    }
}

/// The end of the run of digits that starts at `i`.
fn scan_digits(s: &Vec<char>, i: usize) -> (r: usize)
    requires
        i <= s@.len(),
    ensures
        r as int == digit_run(s@, i as int),
        i <= r <= s@.len(),
{
    let mut j: usize = i;
    while j < s.len() && '0' <= s[j] && s[j] <= '9'
        invariant
            i <= j <= s@.len(),
            digit_run(s@, i as int) == digit_run(s@, j as int),
        decreases s@.len() - j,
    {
        j = j + 1;
    }
    j
}

fn sign_length(s: &Vec<char>) -> (r: usize)
    ensures
        r as int == sign_len(s@),
{
    if s.len() > 0 && (s[0] == '+' || s[0] == '-') {
        1
    } else {
        0
    }
}

proof fn lemma_digits_value_nonneg(s: Seq<char>)
    requires
        forall|i: int| 0 <= i < s.len() ==> is_digit(#[trigger] s[i]),
    ensures
        digits_value(s) >= 0,
    decreases s.len(),
{
    if s.len() > 0 {
        let t = s.drop_last();
        assert forall|i: int| 0 <= i < t.len() implies is_digit(#[trigger] t[i]) by {
            assert(t[i] == s[i]);
        }
        lemma_digits_value_nonneg(t);
    }
}

proof fn lemma_digit_run_all(s: Seq<char>, i: int, j: int)
    requires
        0 <= i <= j < digit_run(s, i),
    ensures
        j < s.len(),
        is_digit(s[j]),
    decreases j - i,
{
    if 0 <= i < s.len() && is_digit(s[i]) {
        if i < j {
            lemma_digit_run_all(s, i + 1, j);
        }
    }
}

/// Reads `s` as `i64`'s `FromStr` does.
pub fn parse_i64(s: &Vec<char>) -> (r: Option<i64>)
    ensures
        match r {
            Some(n) => i64_literal(s@) == Some(n as int),
            None => i64_literal(s@) is None,
        },
{
    let q = sign_length(s);
    let n = s.len();
    if n <= q {
        return None;
    }
    let end = scan_digits(s, q);
    if end != n {
        return None;
    }
    let neg = q == 1 && s[0] == '-';
    let ghost body = s@.subrange(q as int, n as int);
    let limit: u128 = if neg { 9223372036854775808 } else { 9223372036854775807 };
    let mut acc: u128 = 0;
    let mut i: usize = q;
    while i < n
        invariant
            q <= i <= n,
            n == s@.len(),
            q as int == sign_len(s@),
            neg == (q == 1 && s@[0] == '-'),
            limit == if neg { 9223372036854775808u128 } else { 9223372036854775807u128 },
            body == s@.subrange(q as int, n as int),
            digit_run(s@, q as int) == n,
            acc <= limit,
            limit <= 9223372036854775808,
            acc as int == digits_value(s@.subrange(q as int, i as int)),
        decreases n - i,
    {
        proof {
            lemma_digit_run_all(s@, q as int, i as int);
        }
        let d = (s[i] as u32 - '0' as u32) as u128;
        let next = acc * 10 + d;
        proof {
            let pre = s@.subrange(q as int, i + 1);
            assert(pre.drop_last() =~= s@.subrange(q as int, i as int));
        }
        assert(next as int == digits_value(s@.subrange(q as int, i + 1)));
        if next > limit {
            proof {
                lemma_digits_grow(s@, q as int, i as int + 1, n as int);
                assert(s@.subrange(q as int, n as int) =~= body);
                assert(digits_value(body) > limit);
                assert(int_literal(s@) == Some(if neg { -digits_value(body) } else { digits_value(body) }));
            }
            return None;
        }
        acc = next;
        i = i + 1;
    }
    assert(s@.subrange(q as int, i as int) =~= body);
    if neg {
        if acc == 9223372036854775808 {
            Some(i64::MIN)
        } else {
            Some(-(acc as i64))
        }
    } else {
        Some(acc as i64)
    }
}

proof fn lemma_digits_grow(s: Seq<char>, q: int, i: int, n: int)
    requires
        0 <= q <= i <= n <= s.len(),
        digit_run(s, q) >= n,
    ensures
        digits_value(s.subrange(q, n)) >= digits_value(s.subrange(q, i)),
    decreases n - i,
{
    if i < n {
        lemma_digits_grow(s, q, i + 1, n);
        lemma_digit_run_all(s, q, i);
        let pre = s.subrange(q, i + 1);
        assert(pre.drop_last() =~= s.subrange(q, i));
        let t = s.subrange(q, i);
        assert forall|k: int| 0 <= k < t.len() implies is_digit(#[trigger] t[k]) by {
            lemma_digit_run_all(s, q, q + k);
        }
        lemma_digits_value_nonneg(t);
    }
}

/// The characters `s[a..b]`, copied.
fn slice_chars(s: &Vec<char>, a: usize, b: usize) -> (r: Vec<char>)
    requires
        a <= b <= s@.len(),
    ensures
        r@ == s@.subrange(a as int, b as int),
{
    let mut r: Vec<char> = Vec::new();
    let mut i: usize = a;
    while i < b
        invariant
            a <= i <= b <= s@.len(),
            r@ == s@.subrange(a as int, i as int),
        decreases b - i,
    {
        r.push(s[i]);
        i = i + 1;
    }
    r
}

/// Whether `s` spells the word given in lower and in upper case, letter by
/// letter in either case.
fn eq_word_ic(s: &Vec<char>, lower: &Vec<char>, upper: &Vec<char>) -> (r: bool)
    ensures
        r == word_ic(s@, lower@, upper@),
{
    if s.len() != lower.len() || s.len() != upper.len() {
        return false;
    }
    let mut i: usize = 0;
    while i < s.len()
        invariant
            i <= s@.len(),
            s@.len() == lower@.len(),
            s@.len() == upper@.len(),
            forall|j: int| 0 <= j < i ==> #[trigger] s@[j] == lower@[j] || s@[j] == upper@[j],
        decreases s@.len() - i,
    {
        if s[i] != lower[i] && s[i] != upper[i] {
            return false;
        }
        i = i + 1;
    }
    true
}

fn is_decimal_text(s: &Vec<char>) -> (r: bool)
    ensures
        r == is_decimal_number(s@),
{
    let n = s.len();
    let d1 = scan_digits(s, 0);
    let pointed = d1 < n && s[d1] == '.';
    let end = if pointed {
        scan_digits(s, d1 + 1)
    } else {
        d1
    };
    let ndigits = if pointed {
        end - 1
    } else {
        end
    };
    if ndigits == 0 {
        return false;
    }
    if end == n {
        return true;
    }
    if s[end] != 'e' && s[end] != 'E' {
        return false;
    }
    let x = slice_chars(s, end + 1, n);
    let p = end + 1 + sign_length(&x);
    p < n && scan_digits(s, p) == n
}

/// Whether `f64`'s `FromStr` accepts `s`.
pub fn is_float_text(s: &Vec<char>) -> (r: bool)
    ensures
        r == is_float_literal(s@),
{
    let body = slice_chars(s, sign_length(s), s.len());
    if is_decimal_text(&body) {
        return true;
    }
    let r = eq_word_ic(&body, &vec!['i', 'n', 'f'], &vec!['I', 'N', 'F'])
        || eq_word_ic(
        &body,
        &vec!['i', 'n', 'f', 'i', 'n', 'i', 't', 'y'],
        &vec!['I', 'N', 'F', 'I', 'N', 'I', 'T', 'Y'],
    ) || eq_word_ic(&body, &vec!['n', 'a', 'n'], &vec!['N', 'A', 'N']);
    r
}

/// Decodes a value text: trims it, then applies the rules of `coerce`.
pub fn parse_simple_value(input: &str) -> (r: Result<Value, CoercionFailure>)
    ensures
        match coerce(trim(input@)) {
            None => r == Err::<Value, CoercionFailure>(CoercionFailure::EmptyValue),
            Some(m) => r is Ok && r->Ok_0.scalar() == Some(m),
        },
{
    let cs = chars_of(input);
    let (a, b) = trim_bounds(&cs, 0, cs.len());
    assert(cs@.subrange(0, cs@.len() as int) =~= cs@);
    let t = slice_chars(&cs, a, b);
    let ts = input.substring_char(a, b);
    let n = t.len();
    if n == 0 {
        return Err(CoercionFailure::EmptyValue);
    }
    if n >= 2 && t[0] == '"' && t[n - 1] == '"' {
        return Ok(Value::String(ts.substring_char(1, n - 1).to_owned()));
    }
    if eq_word_ic(&t, &vec!['y', 'e', 's'], &vec!['Y', 'E', 'S']) {
        return Ok(Value::Boolean(true));
    }
    if eq_word_ic(&t, &vec!['n', 'o'], &vec!['N', 'O']) {
        return Ok(Value::Boolean(false));
    }
    if let Some(v) = parse_i64(&t) {
        return Ok(Value::Integer(v));
    }
    if is_float_text(&t) {
        return Ok(Value::Float(ts.to_owned()));
    }
    Ok(Value::String(ts.to_owned()))
}

} // verus!
