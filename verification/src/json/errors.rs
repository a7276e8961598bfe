//! Error taxonomy of the parser: lexical errors, grammar errors, and the
//! accessor-level numeric-conversion error.

use vstd::prelude::*;

verus! {

/// The keyword whose spelling a malformed-keyword error reports.
#[derive(Debug, PartialEq, Eq, Structural, Clone, Copy)]
pub enum Keyword {
    True,
    False,
    Null,
}

/// An error found while turning text into tokens.
#[derive(Debug, PartialEq, Eq, Structural, Clone, Copy)]
pub enum LexError {
    /// A character that cannot begin any token.
    UnexpectedChar(char),
    /// End of input reached before the closing quote of a string literal.
    UnterminatedString,
    /// A backslash followed by a character that is not a valid escape.
    InvalidEscape(char),
    /// A `t`, `f` or `n` that does not begin the expected keyword.
    MalformedKeyword(Keyword),
}

/// An error found while parsing the token sequence against the grammar.
#[derive(Debug, PartialEq, Eq, Structural, Clone, Copy)]
pub enum SyntaxError {
    /// The document root does not begin with `{`.
    ExpectedObject,
    /// An array production was entered on a token other than `[`.
    ExpectedArray,
    /// A token other than a string literal stands in object-key position.
    ExpectedStringKey,
    /// The `:` after an object key is missing.
    MissingColon,
    /// A `,` immediately followed by the closing brace or bracket, or an
    /// object whose input ends right after a `,`.
    TrailingComma,
    /// After a key-value pair, a token that is neither `,` nor `}`.
    UnexpectedTokenInObject,
    /// After an array element, a token that is neither `,` nor `]`.
    UnexpectedTokenInArray,
    /// A structural token that cannot begin a value.
    UnexpectedTokenInValue,
    /// End of input where a value was expected.
    UnexpectedEndOfInput,
    /// End of input before the `}` closing an object.
    UnterminatedObject,
    /// End of input before the `]` closing an array.
    UnterminatedArray,
}

/// The failure value of a whole `parse` call: a lexical error bubbled through
/// unchanged, or a grammar error.
#[derive(Debug, PartialEq, Eq, Structural, Clone, Copy)]
pub enum ParseError {
    Lex(LexError),
    Syntax(SyntaxError),
}

/// An accessor-level failure: the raw text of a number does not fit the
/// requested representation.
#[derive(Debug, PartialEq, Eq, Structural, Clone, Copy)]
pub enum ConversionError {
    /// The text is not an optionally-signed run of decimal digits.
    Invalid,
    /// The text denotes an integer outside the target range.
    OutOfRange,
}

} // verus!
