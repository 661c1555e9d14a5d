//! Single- and double-quoted strings with backslash escapes.
//!
//! Inside a string quoted by `q`, a backslash escapes either a backslash or `q`;
//! any other character but `q` stands for itself.
use vstd::prelude::*;
use crate::text::{chars_of, push_char};
use crate::token::{reports, ErrorContext, ParseError, Scan, Token, TokenView};

verus! {

broadcast use vstd::string::group_string_axioms;

/// A character that may follow a backslash inside a string quoted by `q`.
pub open spec fn is_escapable(c: char, q: char) -> bool {
    c == '\\' || c == q
}

/// Adds `d` in front of the decoded text and `n` to the count of a body scan.
pub open spec fn extend(d: Seq<char>, n: nat, r: Result<(Seq<char>, nat), nat>) -> Result<
    (Seq<char>, nat),
    nat,
> {
    match r {
        Ok((t, m)) => Ok((d + t, n + m)),
        Err(p) => Err(n + p),
    }
}

/// Scans a string body of `s` from `i` up to and including the closing `q`:
/// the decoded text and the number of characters consumed, or the offset from
/// `i` of the backslash whose escape is malformed, or of the end of `s`.
pub open spec fn body_at(s: Seq<char>, q: char, i: int) -> Result<(Seq<char>, nat), nat>
    decreases s.len() - i,
{
    if !(0 <= i < s.len()) {
        Err(0)
    } else if s[i] == q {
        Ok((Seq::empty(), 1))
    } else if s[i] == '\\' {
        if i + 1 < s.len() && is_escapable(s[i + 1], q) {
            extend(seq![s[i + 1]], 2, body_at(s, q, i + 2))
        } else {
            Err(0)
        }
    } else {
        extend(seq![s[i]], 1, body_at(s, q, i + 1))
    }
}

/// Scans a string quoted by `q` that starts at `i` in `s`: its decoded text and
/// the number of characters it spans, both quotes included; or the offset from
/// `i` at which it breaks (0 where `s` has no `q` at `i`).
pub open spec fn quoted_at(s: Seq<char>, q: char, i: int) -> Result<(Seq<char>, nat), nat> {
    if 0 <= i < s.len() && s[i] == q {
        extend(Seq::empty(), 1, body_at(s, q, i + 1))
    } else {
        Err(0)
    }
}

/// A string scan as a token scan.
pub open spec fn string_token(r: Result<(Seq<char>, nat), nat>) -> Scan {
    match r {
        Ok((d, n)) => Ok((TokenView::String(d), n)),
        Err(p) => Err(p),
    }
}

/// A string in single quotes, else one in double quotes, at `i` in `s`. On
/// failure, the offset is that of the alternative whose quote opens the input.
pub open spec fn any_quoted_at(s: Seq<char>, i: int) -> Result<(Seq<char>, nat), nat> {
    match quoted_at(s, '\'', i) {
        Ok(v) => Ok(v),
        Err(p) => match quoted_at(s, '"', i) {
            Ok(v) => Ok(v),
            Err(p2) => if 0 <= i < s.len() && s[i] == '\'' {
                Err(p)
            } else {
                Err(p2)
            },
        },
    }
}

proof fn lemma_extend_extend(a: Seq<char>, n: nat, b: Seq<char>, m: nat, r: Result<(Seq<char>, nat), nat>)
    ensures
        extend(a, n, extend(b, m, r)) == extend(a + b, n + m, r),
{
    match r {
        Ok((t, k)) => {
            assert(a + (b + t) =~= (a + b) + t);
        },
        Err(p) => {},
    }
}

/// Scans a string quoted by `q` at the start of `s`.
fn scan_quoted(s: &Vec<char>, q: char) -> (r: Result<(String, usize), usize>)
    ensures
        r is Ok <==> quoted_at(s@, q, 0) is Ok,
        r matches Ok((t, n)) ==> quoted_at(s@, q, 0) == Ok::<(Seq<char>, nat), nat>((t@, n as nat))
            && n <= s@.len(),
        r matches Err(p) ==> quoted_at(s@, q, 0) == Err::<(Seq<char>, nat), nat>(p as nat),
{
    let len = s.len();
    if len == 0 || s[0] != q {
        return Err(0);
    }
    let mut out = String::new();
    let mut i: usize = 1;
    assert(quoted_at(s@, q, 0) == extend(out@, i as nat, body_at(s@, q, i as int)));
    loop
        invariant
            1 <= i <= len,
            len == s@.len(),
            quoted_at(s@, q, 0) == extend(out@, i as nat, body_at(s@, q, i as int)),
        decreases len - i,
    {
        if i >= len {
            return Err(i);
        }
        let c = s[i];
        if c == q {
            return Ok((out, i + 1));
        } else if c == '\\' {
            if i + 1 < len && (s[i + 1] == '\\' || s[i + 1] == q) {
                proof {
                    lemma_extend_extend(out@, i as nat, seq![s@[i + 1]], 2, body_at(s@, q, i + 2));
                    assert(out@.push(s@[i + 1]) =~= out@ + seq![s@[i + 1]]);
                }
                push_char(&mut out, s[i + 1]);
                i = i + 2;
            } else {
                return Err(i);
            }
        } else {
            proof {
                lemma_extend_extend(out@, i as nat, seq![c], 1, body_at(s@, q, i + 1));
                assert(out@.push(c) =~= out@ + seq![c]);
            }
            push_char(&mut out, c);
            i = i + 1;
        }
    }
}

/// Recognizes a string quoted by `q` at the start of `input`.
fn parse_quoted<'a>(input: &'a str, q: char, context: ErrorContext) -> (r: Result<(&'a str, Token), ParseError>)
    ensures
        reports(input, string_token(quoted_at(input@, q, 0)), context, r),
{
    let chars = chars_of(input);
    match scan_quoted(&chars, q) {
        Ok((text, n)) => {
            let rest = input.substring_char(n, chars.len());
            Ok((rest, Token::String(text)))
        },
        Err(p) => Err(ParseError { context, position: p }),
    }
}

/// Recognizes a single-quoted string at the start of `input`, decoding its escapes.
pub fn parse_single_quoted_string(input: &str) -> (r: Result<(&str, Token), ParseError>)
    ensures
        reports(input, string_token(quoted_at(input@, '\'', 0)), ErrorContext::SingleQuotedString, r),
{
    parse_quoted(input, '\'', ErrorContext::SingleQuotedString)
}

/// Recognizes a double-quoted string at the start of `input`, decoding its escapes.
pub fn parse_double_quoted_string(input: &str) -> (r: Result<(&str, Token), ParseError>)
    ensures
        reports(input, string_token(quoted_at(input@, '"', 0)), ErrorContext::DoubleQuotedString, r),
{
    parse_quoted(input, '"', ErrorContext::DoubleQuotedString)
}

/// Recognizes a single-quoted string, or else a double-quoted one, at the start of `input`.
pub fn parse_string(input: &str) -> (r: Result<(&str, Token), ParseError>)
    ensures
        reports(input, string_token(any_quoted_at(input@, 0)), ErrorContext::String, r),
{
    match parse_single_quoted_string(input) {
        Ok(v) => Ok(v),
        Err(e1) => match parse_double_quoted_string(input) {
            Ok(v) => Ok(v),
            Err(e2) => {
                let opens_single = input.unicode_len() > 0 && input.get_char(0) == '\'';
                let position = if opens_single { e1.position } else { e2.position };
                Err(ParseError { context: ErrorContext::String, position })
            },
        },
    }
}

/// `s` with each backslash and each `q` preceded by a backslash.
pub open spec fn escape(s: Seq<char>, q: char) -> Seq<char>
    decreases s.len(),
{
    if s.len() == 0 {
        Seq::empty()
    } else if is_escapable(s[0], q) {
        seq!['\\', s[0]] + escape(s.skip(1), q)
    } else {
        seq![s[0]] + escape(s.skip(1), q)
    }
}

proof fn lemma_escaped_body(u: Seq<char>, q: char, i: int, s: Seq<char>)
    requires
        q == '\'' || q == '"',
        0 <= i,
        i + escape(s, q).len() < u.len(),
        u.subrange(i, i + escape(s, q).len()) == escape(s, q),
        u[i + escape(s, q).len()] == q,
    ensures
        body_at(u, q, i) == Ok::<(Seq<char>, nat), nat>((s, escape(s, q).len() + 1)),
    decreases s.len(),
{
    let e = escape(s, q);
    if s.len() == 0 {
        assert(s =~= Seq::<char>::empty());
    } else {
        let rest = escape(s.skip(1), q);
        let h: int = if is_escapable(s[0], q) { 2 } else { 1 };
        assert(e.len() == h + rest.len());
        assert(u[i] == e[0]);
        assert(u.subrange(i + h, i + h + rest.len()) =~= rest) by {
            assert forall|j: int| 0 <= j < rest.len() implies u[i + h + j] == rest[j] by {
                assert(u[i + h + j] == e[h + j]);
            }
        }
        lemma_escaped_body(u, q, i + h, s.skip(1));
        assert(seq![s[0]] + s.skip(1) =~= s);
        if is_escapable(s[0], q) {
            assert(e =~= seq!['\\', s[0]] + rest);
            assert(u[i] == '\\' && u[i + 1] == s[0]) by {
                assert(u[i + 1] == e[1]);
            }
        } else {
            assert(e =~= seq![s[0]] + rest);
            assert(u[i] == s[0]);
        }
    }
}

/// Escaping round-trips: quoting `escape(s, q)` with `q` gives a string that
/// decodes to `s` and spans the whole quoted text.
pub proof fn lemma_escape_round_trip(s: Seq<char>, q: char)
    requires
        q == '\'' || q == '"',
    ensures
        quoted_at(seq![q] + escape(s, q) + seq![q], q, 0) == Ok::<(Seq<char>, nat), nat>(
            (s, escape(s, q).len() + 2),
        ),
        any_quoted_at(seq![q] + escape(s, q) + seq![q], 0) == Ok::<(Seq<char>, nat), nat>(
            (s, escape(s, q).len() + 2),
        ),
{
    let e = escape(s, q);
    let u = seq![q] + e + seq![q];
    assert(u.subrange(1, 1 + e.len() as int) =~= e);
    lemma_escaped_body(u, q, 1, s);
    assert(Seq::<char>::empty() + s =~= s);
}

proof fn lemma_escape_plain(s: Seq<char>, q: char)
    requires
        forall|i: int| 0 <= i < s.len() ==> s[i] != q && s[i] != '\\',
    ensures
        escape(s, q) == s,
    decreases s.len(),
{
    if s.len() > 0 {
        lemma_escape_plain(s.skip(1), q);
        assert(seq![s[0]] + s.skip(1) =~= s);
    }
}

/// Content with neither the quote nor a backslash round-trips unchanged:
/// quoting `s` with `q` gives a string that decodes to `s`.
pub proof fn lemma_plain_round_trip(s: Seq<char>, q: char)
    requires
        q == '\'' || q == '"',
        forall|i: int| 0 <= i < s.len() ==> s[i] != q && s[i] != '\\',
    ensures
        quoted_at(seq![q] + s + seq![q], q, 0) == Ok::<(Seq<char>, nat), nat>((s, s.len() + 2)),
        any_quoted_at(seq![q] + s + seq![q], 0) == Ok::<(Seq<char>, nat), nat>((s, s.len() + 2)),
{
    lemma_escape_plain(s, q);
    lemma_escape_round_trip(s, q);
}

proof fn lemma_body_suffix(s: Seq<char>, q: char, k: int, i: int)
    requires
        0 <= k <= i,
        k <= s.len(),
    ensures
        body_at(s.skip(k), q, i - k) == body_at(s, q, i),
    decreases s.len() - i,
{
    if i + 1 <= s.len() {
        lemma_body_suffix(s, q, k, i + 1);
    }
    if i + 2 <= s.len() {
        lemma_body_suffix(s, q, k, i + 2);
    }
}

/// A scan depends on nothing but the text from where it starts: scanning the
/// text after position `k` (such as what a recognized string leaves) gives what
/// scanning the whole input from `k` gives.
pub proof fn lemma_string_rescan(s: Seq<char>, q: char, k: int)
    requires
        0 <= k <= s.len(),
    ensures
        quoted_at(s.skip(k), q, 0) == quoted_at(s, q, k),
        any_quoted_at(s.skip(k), 0) == any_quoted_at(s, k),
{
    lemma_body_suffix(s, q, k, k + 1);
    lemma_body_suffix(s, '\'', k, k + 1);
    lemma_body_suffix(s, '"', k, k + 1);
}

} // verus!
