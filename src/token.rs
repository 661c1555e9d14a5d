//! Tokens, their mathematical views, and recognition errors.
use vstd::prelude::*;

verus! {

/// A recognized lexical unit.
#[derive(Debug, PartialEq)]
pub enum Token {
    /// The decoded content of a single- or double-quoted string.
    String(String),
    /// The text of a floating-point literal with its digit separators removed,
    /// ready for a decimal-to-double conversion.
    Number(String),
}

/// What a token holds, as sequences of characters.
pub enum TokenView {
    String(Seq<char>),
    Number(Seq<char>),
}

impl View for Token {
    type V = TokenView;

    open spec fn view(&self) -> TokenView {
        match self {
            Token::String(s) => TokenView::String(s@),
            Token::Number(s) => TokenView::Number(s@),
        }
    }
}

/// The recognizer that reported a failure.
#[derive(Debug, Clone, Copy, PartialEq, Eq, Structural)]
pub enum ErrorContext {
    SingleQuotedString,
    DoubleQuotedString,
    String,
    Float,
    Decimal,
}

/// A recognition failure: which recognizer failed, and the character offset
/// in its input at which it could not go on.
#[derive(Debug, Clone, Copy, PartialEq, Eq, Structural)]
pub struct ParseError {
    pub context: ErrorContext,
    pub position: usize,
}

/// The outcome of a scan of some input: a token and the number of characters
/// it spans, or the offset at which the scan failed.
pub type Scan = Result<(TokenView, nat), nat>;

/// `r` is what a recognizer returns on `input` when scanning gives `scan`:
/// the token with the text after it, or an error with the scan's offset.
pub open spec fn reports<'a>(
    input: &'a str,
    scan: Scan,
    context: ErrorContext,
    r: Result<(&'a str, Token), ParseError>,
) -> bool {
    match scan {
        Ok((t, n)) => r matches Ok((rest, tok)) && rest@ == input@.skip(n as int) && tok@ == t,
        Err(p) => r == Err::<(&'a str, Token), ParseError>(
            ParseError { context, position: p as usize },
        ),
    }
}

} // verus!
