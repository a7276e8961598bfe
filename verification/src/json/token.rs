//! Lexical tokens of the JSON grammar.

use vstd::prelude::*;

verus! {

/// A classified lexical unit: a structural character, a string or number
/// literal, or one of the keywords `true`, `false`, `null`.
///
/// A string-literal token carries the decoded text (escapes resolved); a
/// number-literal token carries the raw literal text unparsed.
#[derive(Debug, PartialEq, Clone)]
pub enum Token {
    LeftBrace,
    RightBrace,
    LeftBracket,
    RightBracket,
    Comma,
    Colon,
    String(String),
    Number(String),
    True,
    False,
    Null,
}

/// The mathematical model of a token: literal payloads as character
/// sequences.
pub enum TokenModel {
    LeftBrace,
    RightBrace,
    LeftBracket,
    RightBracket,
    Comma,
    Colon,
    String(Seq<char>),
    Number(Seq<char>),
    True,
    False,
    Null,
}

impl View for Token {
    type V = TokenModel;

    open spec fn view(&self) -> TokenModel {
        match self {
            Token::LeftBrace => TokenModel::LeftBrace,
            Token::RightBrace => TokenModel::RightBrace,
            Token::LeftBracket => TokenModel::LeftBracket,
            Token::RightBracket => TokenModel::RightBracket,
            Token::Comma => TokenModel::Comma,
            Token::Colon => TokenModel::Colon,
            Token::String(s) => TokenModel::String(s@),
            Token::Number(s) => TokenModel::Number(s@),
            Token::True => TokenModel::True,
            Token::False => TokenModel::False,
            Token::Null => TokenModel::Null,
        }
    }
}

/// The models of a token sequence, in order.
pub open spec fn token_views(v: Seq<Token>) -> Seq<TokenModel> {
    v.map_values(|t: Token| t@)
}

} // verus!
