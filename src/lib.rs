//! A small tokenizer for quoted strings and floating-point literals.
//!
//! Each recognizer reads a token at the start of its input and returns the
//! text after it together with the token, or an error that names the
//! recognizer and the character offset at which it stopped. The modules hold
//! the mathematical model of each grammar, against which the recognizers are
//! verified, and the laws proved of it.
pub mod number;
pub mod quoted;
mod text;
pub mod token;

pub use number::{parse_decimal, parse_float};
pub use quoted::{parse_double_quoted_string, parse_single_quoted_string, parse_string};
pub use token::{ErrorContext, ParseError, Token, TokenView};
