//! Decimal digit runs and floating-point literals.
//!
//! A run of digits (`DIGITS`) is an ASCII digit followed by any mix of digits
//! and `_` separators. A float takes one of three shapes, tried in order:
//! `.DIGITS[(e|E)[+|-]DIGITS]`, then `DIGITS[.DIGITS](e|E)[+|-]DIGITS`, then
//! `DIGITS.[DIGITS]`. A bare run of digits is no float.
use vstd::prelude::*;
use crate::text::{chars_of, push_char};
use crate::token::{reports, ErrorContext, ParseError, Scan, Token, TokenView};

verus! {

broadcast use vstd::string::group_string_axioms;

pub open spec fn is_digit(c: char) -> bool {
    '0' <= c && c <= '9'
}

pub open spec fn is_separator(c: char) -> bool {
    c == '_'
}

pub open spec fn is_exponent_marker(c: char) -> bool {
    c == 'e' || c == 'E'
}

pub open spec fn is_sign(c: char) -> bool {
    c == '+' || c == '-'
}

/// The length of the longest stretch of digits and separators from `i` in `s`.
pub open spec fn run_len(s: Seq<char>, i: int) -> nat
    decreases s.len() - i,
{
    if 0 <= i < s.len() && (is_digit(s[i]) || is_separator(s[i])) {
        1 + run_len(s, i + 1)
    } else {
        0
    }
}

/// The length of the run of digits at `i` in `s`, if a digit stands there.
pub open spec fn digits_at(s: Seq<char>, i: int) -> Option<nat> {
    if 0 <= i < s.len() && is_digit(s[i]) {
        Some(run_len(s, i))
    } else {
        None
    }
}

/// The length of an exponent `(e|E)[+|-]DIGITS` at `i` in `s`, if one stands there.
pub open spec fn exponent_at(s: Seq<char>, i: int) -> Option<nat> {
    if 0 <= i < s.len() && is_exponent_marker(s[i]) {
        let sign: nat = if i + 1 < s.len() && is_sign(s[i + 1]) {
            1
        } else {
            0
        };
        match digits_at(s, i + 1 + sign) {
            Some(n) => Some(1 + sign + n),
            None => None,
        }
    } else {
        None
    }
}

/// The first shape, `.DIGITS[(e|E)[+|-]DIGITS]`, at `i` in `s`: its length.
pub open spec fn leading_dot_at(s: Seq<char>, i: int) -> Option<nat> {
    if 0 <= i < s.len() && s[i] == '.' {
        match digits_at(s, i + 1) {
            Some(n) => Some(
                1 + n + match exponent_at(s, i + 1 + n) {
                    Some(x) => x,
                    None => 0,
                },
            ),
            None => None,
        }
    } else {
        None
    }
}

/// The second shape, `DIGITS[.DIGITS](e|E)[+|-]DIGITS`, at `i` in `s`: its length.
pub open spec fn exponent_shape_at(s: Seq<char>, i: int) -> Option<nat> {
    match digits_at(s, i) {
        Some(n) => {
            let f: nat = if i + n < s.len() && s[i + n] == '.' {
                match digits_at(s, i + n + 1) {
                    Some(m) => 1 + m,
                    None => 0,
                }
            } else {
                0
            };
            match exponent_at(s, i + n + f) {
                Some(x) => Some(n + f + x),
                None => None,
            }
        },
        None => None,
    }
}

/// The third shape, `DIGITS.[DIGITS]`, at `i` in `s`: its length.
pub open spec fn trailing_dot_at(s: Seq<char>, i: int) -> Option<nat> {
    match digits_at(s, i) {
        Some(n) => if i + n < s.len() && s[i + n] == '.' {
            Some(
                n + 1 + match digits_at(s, i + n + 1) {
                    Some(m) => m,
                    None => 0,
                },
            )
        } else {
            None
        },
        None => None,
    }
}

/// The length of the float literal at `i` in `s`: that of the first shape that matches.
pub open spec fn float_at(s: Seq<char>, i: int) -> Option<nat> {
    if leading_dot_at(s, i) is Some {
        leading_dot_at(s, i)
    } else if exponent_shape_at(s, i) is Some {
        exponent_shape_at(s, i)
    } else {
        trailing_dot_at(s, i)
    }
}

/// Where a failed float scan at `i` stops, as an offset from `i`: past the
/// digits where the last shape wanted its dot, else at `i` itself.
pub open spec fn float_failure_at(s: Seq<char>, i: int) -> nat {
    match digits_at(s, i) {
        Some(n) => n,
        None => 0,
    }
}

/// `t` with its digit separators removed.
pub open spec fn without_separators(t: Seq<char>) -> Seq<char> {
    t.filter(|c: char| !is_separator(c))
}

/// A float scan at the start of `s` as a token scan.
pub open spec fn float_token(s: Seq<char>) -> Scan {
    match float_at(s, 0) {
        Some(n) => Ok((TokenView::Number(without_separators(s.take(n as int))), n)),
        None => Err(float_failure_at(s, 0)),
    }
}

fn is_digit_char(c: char) -> (r: bool)
    ensures
        r == is_digit(c),
{
    '0' <= c && c <= '9'
}

/// The end of the run of digits at `i`, if a digit stands there.
fn scan_digits(s: &Vec<char>, i: usize) -> (r: Option<usize>)
    ensures
        match digits_at(s@, i as int) {
            Some(n) => r == Some((i + n) as usize) && i + n <= s@.len(),
            None => r is None,
        },
{
    if i >= s.len() || !is_digit_char(s[i]) {
        return None;
    }
    let mut j: usize = i;
    while j < s.len() && (is_digit_char(s[j]) || s[j] == '_')
        invariant
            i <= j <= s@.len(),
            run_len(s@, i as int) == (j - i) + run_len(s@, j as int),
        decreases s@.len() - j,
    {
        j = j + 1;
    }
    Some(j)
}

/// The end of the exponent at `i`, if one stands there.
fn scan_exponent(s: &Vec<char>, i: usize) -> (r: Option<usize>)
    ensures
        match exponent_at(s@, i as int) {
            Some(n) => r == Some((i + n) as usize) && i + n <= s@.len(),
            None => r is None,
        },
{
    if i >= s.len() || !(s[i] == 'e' || s[i] == 'E') {
        return None;
    }
    let after_sign: usize = if i + 1 < s.len() && (s[i + 1] == '+' || s[i + 1] == '-') {
        i + 2
    } else {
        i + 1
    };
    scan_digits(s, after_sign)
}

/// The end of the first shape at `i`, if it matches there.
fn scan_leading_dot(s: &Vec<char>, i: usize) -> (r: Option<usize>)
    ensures
        match leading_dot_at(s@, i as int) {
            Some(n) => r == Some((i + n) as usize) && i + n <= s@.len(),
            None => r is None,
        },
{
    if i >= s.len() || s[i] != '.' {
        return None;
    }
    match scan_digits(s, i + 1) {
        Some(e) => match scan_exponent(s, e) {
            Some(x) => Some(x),
            None => Some(e),
        },
        None => None,
    }
}

/// The end of the second shape at `i`, if it matches there.
fn scan_exponent_shape(s: &Vec<char>, i: usize) -> (r: Option<usize>)
    ensures
        match exponent_shape_at(s@, i as int) {
            Some(n) => r == Some((i + n) as usize) && i + n <= s@.len(),
            None => r is None,
        },
{
    match scan_digits(s, i) {
        Some(e) => {
            let m: usize = if e < s.len() && s[e] == '.' {
                match scan_digits(s, e + 1) {
                    Some(f) => f,
                    None => e,
                }
            } else {
                e
            };
            scan_exponent(s, m)
        },
        None => None,
    }
}

/// The end of the third shape at `i`, if it matches there.
fn scan_trailing_dot(s: &Vec<char>, i: usize) -> (r: Option<usize>)
    ensures
        match trailing_dot_at(s@, i as int) {
            Some(n) => r == Some((i + n) as usize) && i + n <= s@.len(),
            None => r is None,
        },
{
    match scan_digits(s, i) {
        Some(e) => if e < s.len() && s[e] == '.' {
            match scan_digits(s, e + 1) {
                Some(f) => Some(f),
                None => Some(e + 1),
            }
        } else {
            None
        },
        None => None,
    }
}

/// The end of the float literal at `i`, if one stands there.
fn scan_float(s: &Vec<char>, i: usize) -> (r: Option<usize>)
    ensures
        match float_at(s@, i as int) {
            Some(n) => r == Some((i + n) as usize) && i + n <= s@.len(),
            None => r is None,
        },
{
    match scan_leading_dot(s, i) {
        Some(e) => Some(e),
        None => match scan_exponent_shape(s, i) {
            Some(e) => Some(e),
            None => scan_trailing_dot(s, i),
        },
    }
}

/// The first `n` characters of `s`, without digit separators.
fn strip_separators(s: &Vec<char>, n: usize) -> (r: String)
    requires
        n <= s@.len(),
    ensures
        r@ == without_separators(s@.take(n as int)),
{
    let mut out = String::new();
    let mut k: usize = 0;
    while k < n
        invariant
            k <= n <= s@.len(),
            out@ == without_separators(s@.take(k as int)),
        decreases n - k,
    {
        proof {
            reveal(Seq::filter);
            assert(s@.take(k + 1).drop_last() =~= s@.take(k as int));
        }
        if s[k] != '_' {
            push_char(&mut out, s[k]);
        }
        k = k + 1;
    }
    out
}

/// Recognizes a run of digits with separators at the start of `input`, and
/// returns the text after it and the run itself, separators kept.
pub fn parse_decimal(input: &str) -> (r: Result<(&str, &str), ParseError>)
    ensures
        match digits_at(input@, 0) {
            Some(n) => r matches Ok((rest, run)) && rest@ == input@.skip(n as int) && run@
                == input@.take(n as int),
            None => r == Err::<(&str, &str), ParseError>(
                ParseError { context: ErrorContext::Decimal, position: 0 },
            ),
        },
{
    let chars = chars_of(input);
    match scan_digits(&chars, 0) {
        Some(e) => Ok((input.substring_char(e, chars.len()), input.substring_char(0, e))),
        None => Err(ParseError { context: ErrorContext::Decimal, position: 0 }),
    }
}

/// Recognizes a float literal at the start of `input`. The token holds the
/// literal's text without its digit separators.
pub fn parse_float(input: &str) -> (r: Result<(&str, Token), ParseError>)
    ensures
        reports(input, float_token(input@), ErrorContext::Float, r),
{
    let chars = chars_of(input);
    match scan_float(&chars, 0) {
        Some(e) => {
            let text = strip_separators(&chars, e);
            Ok((input.substring_char(e, chars.len()), Token::Number(text)))
        },
        None => {
            let position = match scan_digits(&chars, 0) {
                Some(d) => d,
                None => 0,
            };
            Err(ParseError { context: ErrorContext::Float, position })
        },
    }
}

proof fn lemma_run_to_end(s: Seq<char>, i: int)
    requires
        0 <= i <= s.len(),
        forall|j: int| i <= j < s.len() ==> is_digit(s[j]) || is_separator(s[j]),
    ensures
        run_len(s, i) == s.len() - i,
    decreases s.len() - i,
{
    if i < s.len() {
        lemma_run_to_end(s, i + 1);
    }
}

/// A plain integer is no float: a run of digits and separators that starts
/// with a digit, with no dot and no exponent, matches none of the three shapes.
pub proof fn lemma_bare_integer_is_no_float(s: Seq<char>)
    requires
        s.len() > 0,
        is_digit(s[0]),
        forall|j: int| 0 <= j < s.len() ==> is_digit(s[j]) || is_separator(s[j]),
    ensures
        float_at(s, 0) is None,
        float_token(s) is Err,
{
    lemma_run_to_end(s, 0);
}

proof fn lemma_run_suffix(s: Seq<char>, k: int, i: int)
    requires
        0 <= k <= i,
        k <= s.len(),
    ensures
        run_len(s.skip(k), i - k) == run_len(s, i),
    decreases s.len() - i,
{
    if i < s.len() {
        lemma_run_suffix(s, k, i + 1);
    }
}

proof fn lemma_digits_suffix(s: Seq<char>, k: int, i: int)
    requires
        0 <= k <= i,
        k <= s.len(),
    ensures
        digits_at(s.skip(k), i - k) == digits_at(s, i),
{
    lemma_run_suffix(s, k, i);
}

proof fn lemma_exponent_suffix(s: Seq<char>, k: int, i: int)
    requires
        0 <= k <= i,
        k <= s.len(),
    ensures
        exponent_at(s.skip(k), i - k) == exponent_at(s, i),
{
    lemma_digits_suffix(s, k, i + 1);
    lemma_digits_suffix(s, k, i + 2);
}

/// A float scan depends on nothing but the text from where it starts: scanning
/// the text after position `k` (such as what a recognized literal leaves) gives
/// what scanning the whole input from `k` gives.
pub proof fn lemma_float_rescan(s: Seq<char>, k: int)
    requires
        0 <= k <= s.len(),
    ensures
        float_at(s.skip(k), 0) == float_at(s, k),
        float_failure_at(s.skip(k), 0) == float_failure_at(s, k),
        digits_at(s.skip(k), 0) == digits_at(s, k),
{
    lemma_digits_suffix(s, k, k);
    lemma_digits_suffix(s, k, k + 1);
    if let Some(n) = digits_at(s, k + 1) {
        lemma_exponent_suffix(s, k, k + 1 + n);
    }
    if let Some(n) = digits_at(s, k) {
        lemma_digits_suffix(s, k, k + n + 1);
        lemma_exponent_suffix(s, k, k + n);
        if let Some(m) = digits_at(s, k + n + 1) {
            lemma_exponent_suffix(s, k, k + n + 1 + m);
        }
    }
}

} // verus!
