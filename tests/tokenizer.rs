use zjson::{
    parse_decimal, parse_double_quoted_string, parse_float, parse_single_quoted_string,
    parse_string, ErrorContext, ParseError, Token,
};

/// The value of a number token, converted as a consumer of the library would.
fn value(t: &Token) -> f64 {
    match t {
        Token::Number(text) => text.parse::<f64>().unwrap(),
        Token::String(s) => panic!("expected a number, got the string {:?}", s),
    }
}

fn text(s: &str) -> Token {
    Token::String(s.into())
}

fn number(s: &str) -> Token {
    Token::Number(s.into())
}

#[test]
fn test_parse_single_quoted_string() {
    assert_eq!(parse_single_quoted_string("'hello'").unwrap().1, text("hello"));
    assert!(parse_single_quoted_string("'yoted").is_err());
    assert!(parse_single_quoted_string("yoted'").is_err());
    assert!(parse_single_quoted_string("yoted").is_err());
}

#[test]
fn test_parse_double_quoted_string() {
    assert_eq!(parse_double_quoted_string("\"hello\"").unwrap().1, text("hello"));
    assert!(parse_double_quoted_string("\"yoted").is_err());
    assert!(parse_double_quoted_string("yoted\"").is_err());
    assert!(parse_double_quoted_string("yoted").is_err());
}

#[test]
fn test_parse_string() {
    assert_eq!(parse_string("\"hello\"").unwrap().1, text("hello"));
    assert!(parse_string("\"yoted'").is_err());
    assert!(parse_string("'yoted\"").is_err());

    assert_eq!(parse_string("'hello'").unwrap().1, text("hello"));
    assert!(parse_string("'yoted\"").is_err());
    assert!(parse_string("\"yoted'").is_err());

    assert!(parse_string("yoted").is_err());
}

#[test]
fn test_parse_decimal() {
    assert_eq!(parse_decimal("3000").unwrap().1, "3000");
    assert_eq!(parse_decimal("3_000_000").unwrap().1, "3_000_000");
    assert!(parse_decimal("_3_000_000").is_err());
}

#[test]
fn test_parse_float() {
    assert_eq!(value(&parse_float("13.37").unwrap().1), 13.37);
    assert_eq!(value(&parse_float(".37").unwrap().1), 0.37);
    assert_eq!(value(&parse_float("10e4").unwrap().1), 10.0e4);
}

#[test]
fn string_leaves_the_rest_of_the_input() {
    assert_eq!(parse_single_quoted_string("'hi' there").unwrap(), (" there", text("hi")));
    assert_eq!(parse_double_quoted_string("\"hi\",1").unwrap(), (",1", text("hi")));
    assert_eq!(parse_string("'a'\"b\"").unwrap(), ("\"b\"", text("a")));
}

#[test]
fn empty_strings_are_accepted() {
    assert_eq!(parse_single_quoted_string("''").unwrap(), ("", text("")));
    assert_eq!(parse_double_quoted_string("\"\"x").unwrap(), ("x", text("")));
}

#[test]
fn escapes_are_decoded() {
    assert_eq!(parse_single_quoted_string(r"'it\'s'").unwrap().1, text("it's"));
    assert_eq!(parse_single_quoted_string(r"'a\\b'").unwrap().1, text(r"a\b"));
    assert_eq!(parse_double_quoted_string(r#""say \"hi\"""#).unwrap().1, text("say \"hi\""));
    assert_eq!(parse_double_quoted_string(r#""back\\""#).unwrap().1, text("back\\"));
}

#[test]
fn the_other_quote_is_plain_content() {
    assert_eq!(parse_single_quoted_string("'say \"hi\"'").unwrap().1, text("say \"hi\""));
    assert_eq!(parse_double_quoted_string("\"it's\"").unwrap().1, text("it's"));
}

#[test]
fn escaping_the_other_quote_is_an_error() {
    let e = parse_single_quoted_string(r#"'a\"b'"#).unwrap_err();
    assert_eq!(e, ParseError { context: ErrorContext::SingleQuotedString, position: 2 });
    let e = parse_double_quoted_string(r#""a\'b""#).unwrap_err();
    assert_eq!(e, ParseError { context: ErrorContext::DoubleQuotedString, position: 2 });
}

#[test]
fn unsupported_escapes_are_errors() {
    let e = parse_single_quoted_string(r"'line\nbreak'").unwrap_err();
    assert_eq!(e, ParseError { context: ErrorContext::SingleQuotedString, position: 5 });
    let e = parse_double_quoted_string(r#""\u0041""#).unwrap_err();
    assert_eq!(e, ParseError { context: ErrorContext::DoubleQuotedString, position: 1 });
}

#[test]
fn trailing_backslash_is_an_error() {
    let e = parse_single_quoted_string(r"'abc\").unwrap_err();
    assert_eq!(e, ParseError { context: ErrorContext::SingleQuotedString, position: 4 });
    assert!(parse_string(r#""abc\"#).is_err());
}

#[test]
fn error_positions_of_strings() {
    assert_eq!(
        parse_single_quoted_string("'yoted").unwrap_err(),
        ParseError { context: ErrorContext::SingleQuotedString, position: 6 }
    );
    assert_eq!(
        parse_single_quoted_string("yoted'").unwrap_err(),
        ParseError { context: ErrorContext::SingleQuotedString, position: 0 }
    );
    assert_eq!(
        parse_double_quoted_string("\"yoted").unwrap_err(),
        ParseError { context: ErrorContext::DoubleQuotedString, position: 6 }
    );
    assert_eq!(
        parse_string("'yoted\"").unwrap_err(),
        ParseError { context: ErrorContext::String, position: 7 }
    );
    assert_eq!(
        parse_string("\"yo").unwrap_err(),
        ParseError { context: ErrorContext::String, position: 3 }
    );
    assert_eq!(
        parse_string("yoted").unwrap_err(),
        ParseError { context: ErrorContext::String, position: 0 }
    );
    assert_eq!(parse_string("").unwrap_err(), ParseError { context: ErrorContext::String, position: 0 });
}

#[test]
fn non_ascii_content_is_kept() {
    assert_eq!(parse_string("'héllo wörld' ünd").unwrap(), (" ünd", text("héllo wörld")));
    assert_eq!(parse_double_quoted_string("\"日本\"").unwrap(), ("", text("日本")));
}

#[test]
fn plain_content_round_trips() {
    for content in ["", "hello world", "a-b_c 123", "ünïcödé"] {
        let single = format!("'{}'", content);
        let double = format!("\"{}\"", content);
        assert_eq!(parse_single_quoted_string(&single).unwrap(), ("", text(content)));
        assert_eq!(parse_double_quoted_string(&double).unwrap(), ("", text(content)));
        assert_eq!(parse_string(&single).unwrap(), ("", text(content)));
        assert_eq!(parse_string(&double).unwrap(), ("", text(content)));
    }
}

fn escape(s: &str, q: char) -> String {
    let mut out = String::new();
    for c in s.chars() {
        if c == '\\' || c == q {
            out.push('\\');
        }
        out.push(c);
    }
    out
}

#[test]
fn escaped_content_round_trips() {
    for content in [r"it's a \ test", "\"quoted\" and 'quoted'", r"\\'\'", "'", "\\"] {
        for q in ['\'', '"'] {
            let quoted = format!("{}{}{}", q, escape(content, q), q);
            assert_eq!(parse_string(&quoted).unwrap(), ("", text(content)));
        }
    }
}

#[test]
fn rescanning_the_rest_continues_the_input() {
    let (rest, first) = parse_single_quoted_string("'a''b'").unwrap();
    assert_eq!((rest, first), ("'b'", text("a")));
    assert_eq!(parse_single_quoted_string(rest).unwrap(), ("", text("b")));

    let (rest, first) = parse_float("1.5.25").unwrap();
    assert_eq!((rest, first), (".25", number("1.5")));
    assert_eq!(parse_float(rest).unwrap(), ("", number(".25")));
}

#[test]
fn decimal_runs_and_their_rest() {
    assert_eq!(parse_decimal("12_3x4").unwrap(), ("x4", "12_3"));
    assert_eq!(parse_decimal("7__").unwrap(), ("", "7__"));
    assert_eq!(parse_decimal("").unwrap_err(), ParseError { context: ErrorContext::Decimal, position: 0 });
    assert_eq!(parse_decimal("x1").unwrap_err(), ParseError { context: ErrorContext::Decimal, position: 0 });
}

#[test]
fn float_shapes() {
    assert_eq!(parse_float(".5e-2").unwrap(), ("", number(".5e-2")));
    assert_eq!(value(&parse_float(".5e-2").unwrap().1), 0.005);
    assert_eq!(parse_float("42e42").unwrap(), ("", number("42e42")));
    assert_eq!(parse_float("42.42e42").unwrap(), ("", number("42.42e42")));
    assert_eq!(parse_float("42E+1,").unwrap(), (",", number("42E+1")));
    assert_eq!(parse_float("42.").unwrap(), ("", number("42.")));
    assert_eq!(value(&parse_float("42.").unwrap().1), 42.0);
    assert_eq!(parse_float("42.42 ").unwrap(), (" ", number("42.42")));
}

#[test]
fn separators_are_stripped_from_numbers() {
    assert_eq!(parse_float("1_000.000_5").unwrap(), ("", number("1000.0005")));
    assert_eq!(value(&parse_float("1_000.000_5").unwrap().1), 1000.0005);
    assert_eq!(parse_float("3_0e1_0").unwrap(), ("", number("30e10")));
    assert_eq!(value(&parse_float("3_0e1_0").unwrap().1), 30e10);
}

#[test]
fn plain_integers_are_no_floats() {
    assert_eq!(parse_float("42").unwrap_err(), ParseError { context: ErrorContext::Float, position: 2 });
    assert_eq!(parse_float("4_2").unwrap_err(), ParseError { context: ErrorContext::Float, position: 3 });
    assert_eq!(parse_float("13").unwrap_err().context, ErrorContext::Float);
}

#[test]
fn malformed_floats() {
    assert_eq!(parse_float("").unwrap_err(), ParseError { context: ErrorContext::Float, position: 0 });
    assert_eq!(parse_float(".").unwrap_err(), ParseError { context: ErrorContext::Float, position: 0 });
    assert_eq!(parse_float(".e5").unwrap_err(), ParseError { context: ErrorContext::Float, position: 0 });
    assert_eq!(parse_float("_1.0").unwrap_err(), ParseError { context: ErrorContext::Float, position: 0 });
    assert_eq!(parse_float("42e").unwrap_err(), ParseError { context: ErrorContext::Float, position: 2 });
}

#[test]
fn incomplete_exponents_are_left_over() {
    assert_eq!(parse_float(".5e").unwrap(), ("e", number(".5")));
    assert_eq!(parse_float(".5e+x").unwrap(), ("e+x", number(".5")));
    assert_eq!(parse_float("42.e5").unwrap(), ("e5", number("42.")));
    assert_eq!(parse_float("42.5e-").unwrap(), ("e-", number("42.5")));
}
