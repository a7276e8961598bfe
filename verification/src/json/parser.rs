//! The recursive-descent parser: `parse_object_at` and its companions are the
//! mathematical statement of the grammar over the token sequence; the
//! executable methods on `JsonObject` are proven equal to them. The document
//! root must be an object: a bare array or scalar at top level is rejected.

use vstd::prelude::*;
use crate::json::cursor::TokenIterator;
use crate::json::errors::{ParseError, SyntaxError};
use crate::json::lexer::{spec_tokenize, Tokenizer};
use crate::json::token::{Token, TokenModel};
use crate::json::value::{
    elems_val, lemma_elems_val, lemma_elems_val_push, lemma_view_array, lemma_view_atoms,
    lemma_view_number, lemma_view_object, lemma_view_string, JsonMap, JsonNumber, JsonObject,
    JsonValue,
};

verus! {

/// Parses the object whose `{` stands at position `i`: the object value and
/// the position after its `}`, or the grammar error.
pub open spec fn parse_object_at(ts: Seq<TokenModel>, i: int) -> Result<
    (JsonValue, int),
    SyntaxError,
>
    decreases ts.len() - i, 0int,
{
    if i < 0 || i >= ts.len() || !(ts[i] is LeftBrace) {
        Err(SyntaxError::ExpectedObject)
    } else if i + 1 < ts.len() && ts[i + 1] is RightBrace {
        Ok((JsonValue::Object(Map::empty()), i + 2))
    } else {
        parse_members(ts, i + 1, Map::empty())
    }
}

/// Parses the key-value pairs of an object from position `i` on, `acc`
/// holding the pairs already read; a key written twice keeps the later value.
pub open spec fn parse_members(
    ts: Seq<TokenModel>,
    i: int,
    acc: Map<Seq<char>, JsonValue>,
) -> Result<(JsonValue, int), SyntaxError>
    decreases ts.len() - i, 2int,
{
    if i < 0 || i >= ts.len() {
        Err(SyntaxError::UnterminatedObject)
    } else {
        match ts[i] {
            TokenModel::String(k) => if i + 1 >= ts.len() || !(ts[i + 1] is Colon) {
                Err(SyntaxError::MissingColon)
            } else {
                match parse_value_at(ts, i + 2) {
                    Ok((v, j)) => {
                        let m = acc.insert(k, v);
                        if j >= ts.len() {
                            Err(SyntaxError::UnterminatedObject)
                        } else if ts[j] is RightBrace {
                            Ok((JsonValue::Object(m), j + 1))
                        } else if ts[j] is Comma {
                            if j + 1 >= ts.len() || ts[j + 1] is RightBrace {
                                Err(SyntaxError::TrailingComma)
                            } else if j + 1 > i {
                                parse_members(ts, j + 1, m)
                            } else {
                                Err(SyntaxError::UnterminatedObject)
                            }
                        } else {
                            Err(SyntaxError::UnexpectedTokenInObject)
                        }
                    },
                    Err(e) => Err(e),
                }
            },
            _ => Err(SyntaxError::ExpectedStringKey),
        }
    }
}

/// Parses the array whose `[` stands at position `i`.
pub open spec fn parse_array_at(ts: Seq<TokenModel>, i: int) -> Result<
    (JsonValue, int),
    SyntaxError,
>
    decreases ts.len() - i, 0int,
{
    if i < 0 || i >= ts.len() || !(ts[i] is LeftBracket) {
        Err(SyntaxError::ExpectedArray)
    } else if i + 1 < ts.len() && ts[i + 1] is RightBracket {
        Ok((JsonValue::Array(Seq::empty()), i + 2))
    } else {
        parse_elems(ts, i + 1, Seq::empty())
    }
}

/// Parses the elements of an array from position `i` on, `acc` holding the
/// elements already read.
pub open spec fn parse_elems(ts: Seq<TokenModel>, i: int, acc: Seq<JsonValue>) -> Result<
    (JsonValue, int),
    SyntaxError,
>
    decreases ts.len() - i, 2int,
{
    if i < 0 || i >= ts.len() {
        Err(SyntaxError::UnterminatedArray)
    } else {
        match parse_value_at(ts, i) {
            Ok((v, j)) => {
                let es = acc.push(v);
                if j >= ts.len() {
                    Err(SyntaxError::UnterminatedArray)
                } else if ts[j] is RightBracket {
                    Ok((JsonValue::Array(es), j + 1))
                } else if ts[j] is Comma {
                    if j + 1 >= ts.len() {
                        Err(SyntaxError::UnterminatedArray)
                    } else if ts[j + 1] is RightBracket {
                        Err(SyntaxError::TrailingComma)
                    } else if j + 1 > i {
                        parse_elems(ts, j + 1, es)
                    } else {
                        Err(SyntaxError::UnterminatedArray)
                    }
                } else {
                    Err(SyntaxError::UnexpectedTokenInArray)
                }
            },
            Err(e) => Err(e),
        }
    }
}

/// Parses the value that starts at position `i`: a scalar token, or a nested
/// object or array.
pub open spec fn parse_value_at(ts: Seq<TokenModel>, i: int) -> Result<
    (JsonValue, int),
    SyntaxError,
>
    decreases ts.len() - i, 1int,
{
    if i < 0 || i >= ts.len() {
        Err(SyntaxError::UnexpectedEndOfInput)
    } else {
        match ts[i] {
            TokenModel::String(t) => Ok((JsonValue::String(t), i + 1)),
            TokenModel::Number(w) => Ok((JsonValue::Number(w), i + 1)),
            TokenModel::True => Ok((JsonValue::True, i + 1)),
            TokenModel::False => Ok((JsonValue::False, i + 1)),
            TokenModel::Null => Ok((JsonValue::Null, i + 1)),
            TokenModel::LeftBrace => parse_object_at(ts, i),
            TokenModel::LeftBracket => parse_array_at(ts, i),
            _ => Err(SyntaxError::UnexpectedTokenInValue),
        }
    }
}

/// The document a text parses to: its tokens fed to the object production at
/// the root, tokens after the root object being ignored.
pub open spec fn spec_parse(s: Seq<char>) -> Result<JsonValue, ParseError> {
    match spec_tokenize(s) {
        Ok(ts) => match parse_object_at(ts, 0) {
            Ok((v, j)) => Ok(v),
            Err(e) => Err(ParseError::Syntax(e)),
        },
        Err(e) => Err(ParseError::Lex(e)),
    }
}

/// A successful object parse always moves forward and stays in bounds.
pub proof fn lemma_parse_object_range(ts: Seq<TokenModel>, i: int)
    ensures
        parse_object_at(ts, i) matches Ok((v, j)) ==> i < j <= ts.len(),
    decreases ts.len() - i, 0int,
{
    if 0 <= i < ts.len() && ts[i] is LeftBrace {
        if !(i + 1 < ts.len() && ts[i + 1] is RightBrace) {
            lemma_parse_members_range(ts, i + 1, Map::empty());
        }
    }
}

/// A successful member-list parse always moves forward and stays in bounds.
pub proof fn lemma_parse_members_range(ts: Seq<TokenModel>, i: int, acc: Map<Seq<char>, JsonValue>)
    ensures
        parse_members(ts, i, acc) matches Ok((v, j)) ==> i < j <= ts.len(),
    decreases ts.len() - i, 2int,
{
    if 0 <= i < ts.len() && i + 1 < ts.len() && ts[i + 1] is Colon {
        lemma_parse_value_range(ts, i + 2);
        match parse_value_at(ts, i + 2) {
            Ok(pair) => {
                let j0 = pair.1;
                if j0 < ts.len() && ts[j0] is Comma && !(j0 + 1 >= ts.len() || ts[j0 + 1]
                    is RightBrace) && j0 + 1 > i {
                    match ts[i] {
                        TokenModel::String(k) => {
                            lemma_parse_members_range(ts, j0 + 1, acc.insert(k, pair.0));
                        },
                        _ => {},
                    }
                }
            },
            Err(_) => {},
        }
    }
}

/// A successful element-list parse always moves forward and stays in bounds.
pub proof fn lemma_parse_elems_range(ts: Seq<TokenModel>, i: int, acc: Seq<JsonValue>)
    ensures
        parse_elems(ts, i, acc) matches Ok((v, j)) ==> i < j <= ts.len(),
    decreases ts.len() - i, 2int,
{
    if 0 <= i < ts.len() {
        lemma_parse_value_range(ts, i);
        match parse_value_at(ts, i) {
            Ok(pair) => {
                let j0 = pair.1;
                if j0 < ts.len() && ts[j0] is Comma && j0 + 1 < ts.len() && !(ts[j0 + 1]
                    is RightBracket) && j0 + 1 > i {
                    lemma_parse_elems_range(ts, j0 + 1, acc.push(pair.0));
                }
            },
            Err(_) => {},
        }
    }
}

/// A successful array parse always moves forward and stays in bounds.
pub proof fn lemma_parse_array_range(ts: Seq<TokenModel>, i: int)
    ensures
        parse_array_at(ts, i) matches Ok((v, j)) ==> i < j <= ts.len(),
    decreases ts.len() - i, 0int,
{
    if 0 <= i < ts.len() && ts[i] is LeftBracket {
        if !(i + 1 < ts.len() && ts[i + 1] is RightBracket) {
            lemma_parse_elems_range(ts, i + 1, Seq::empty());
        }
    }
}

/// A successful value parse always moves forward and stays in bounds.
pub proof fn lemma_parse_value_range(ts: Seq<TokenModel>, i: int)
    ensures
        parse_value_at(ts, i) matches Ok((v, j)) ==> i < j <= ts.len(),
    decreases ts.len() - i, 1int,
{
    if 0 <= i < ts.len() {
        match ts[i] {
            TokenModel::LeftBrace => lemma_parse_object_range(ts, i),
            TokenModel::LeftBracket => lemma_parse_array_range(ts, i),
            _ => {},
        }
    }
}

/// A member-list parse only ever produces an object value.
proof fn lemma_parse_members_object(ts: Seq<TokenModel>, i: int, acc: Map<Seq<char>, JsonValue>)
    ensures
        parse_members(ts, i, acc) matches Ok((v, j)) ==> v is Object,
    decreases ts.len() - i, 2int,
{
    if 0 <= i < ts.len() && i + 1 < ts.len() && ts[i + 1] is Colon {
        lemma_parse_value_range(ts, i + 2);
        match parse_value_at(ts, i + 2) {
            Ok(pair) => {
                let j0 = pair.1;
                if j0 < ts.len() && ts[j0] is Comma && !(j0 + 1 >= ts.len() || ts[j0 + 1]
                    is RightBrace) && j0 + 1 > i {
                    match ts[i] {
                        TokenModel::String(k) => {
                            lemma_parse_members_object(ts, j0 + 1, acc.insert(k, pair.0));
                        },
                        _ => {},
                    }
                }
            },
            Err(_) => {},
        }
    }
}

/// Whatever input `parse` accepts, the document's root is the object
/// variant: the entry point feeds the tokens to the object production alone,
/// so a bare array or scalar at top level never comes back.
pub proof fn lemma_parse_root_is_object(s: Seq<char>)
    ensures
        spec_parse(s) matches Ok(v) ==> v is Object,
{
    match spec_tokenize(s) {
        Ok(ts) => {
            if !(0 >= ts.len() || !(ts[0] is LeftBrace)) && !(1 < ts.len() && ts[1]
                is RightBrace) {
                lemma_parse_members_object(ts, 1, Map::empty());
            }
        },
        Err(_) => {},
    }
}

/// Parsing is deterministic: one text has one document. Two successful
/// parses of the same text give structurally equal documents — the same
/// variant shape and payload at every position of the tree.
pub proof fn lemma_parse_deterministic(s: Seq<char>, d1: JsonValue, d2: JsonValue)
    requires
        spec_parse(s) == Ok::<JsonValue, ParseError>(d1),
        spec_parse(s) == Ok::<JsonValue, ParseError>(d2),
    ensures
        d1 == d2,
{
}

impl JsonObject {
    /// Parses a whole document: the text is tokenized, the cursor loads the
    /// first token, and the root must derive the object production. The
    /// result is exactly what the grammar (`spec_parse`) gives the text.
    pub fn parse(input: &str) -> (r: Result<JsonObject, ParseError>)
        ensures
            match r {
                Ok(d) => spec_parse(input@) == Ok::<JsonValue, ParseError>(d@),
                Err(e) => spec_parse(input@) == Err::<JsonValue, ParseError>(e),
            },
    {
        let mut tokenizer = Tokenizer::new(input);
        let tokens = match tokenizer.tokenize() {
            Ok(v) => v,
            Err(e) => {
                return Err(ParseError::Lex(e));
            },
        };
        let mut iterator = TokenIterator::new(tokens);
        iterator.advance();
        match Self::parse_object(&mut iterator) {
            Ok(d) => Ok(d),
            Err(e) => Err(ParseError::Syntax(e)),
        }
    }

    /// Parses the object whose `{` is the cursor's current token.
    fn parse_object(it: &mut TokenIterator) -> (r: Result<JsonObject, SyntaxError>)
        requires
            old(it).inv(),
            old(it).started(),
        ensures
            final(it).inv(),
            final(it).started(),
            final(it).toks() == old(it).toks(),
            match r {
                Ok(d) => parse_object_at(old(it).toks(), old(it).cur()) == Ok::<
                    (JsonValue, int),
                    SyntaxError,
                >((d@, final(it).cur())),
                Err(e) => parse_object_at(old(it).toks(), old(it).cur()) == Err::<
                    (JsonValue, int),
                    SyntaxError,
                >(e),
            },
        decreases old(it).toks().len() - old(it).cur(), 0int,
    {
        let ghost ts = it.toks();
        let ghost i0 = it.cur();
        let is_brace = match it.current() {
            Some(Token::LeftBrace) => true,
            _ => false,
        };
        if !is_brace {
            return Err(SyntaxError::ExpectedObject);
        }
        it.advance();
        let mut map = JsonMap::new();
        let empty_obj = match it.current() {
            Some(Token::RightBrace) => true,
            _ => false,
        };
        if empty_obj {
            it.advance();
            proof {
                lemma_view_object(map);
            }
            return Ok(JsonObject::Object(map));
        }
        loop
            invariant
                it.inv(),
                it.started(),
                it.toks() == ts,
                ts == old(it).toks(),
                i0 == old(it).cur(),
                i0 < it.cur() <= ts.len(),
                parse_object_at(ts, i0) == parse_members(ts, it.cur(), map@),
            decreases ts.len() - it.cur(),
        {
            let ghost i = it.cur();
            let key: String = match it.current() {
                None => {
                    return Err(SyntaxError::UnterminatedObject);
                },
                Some(t) => match t {
                    Token::String(s) => s.clone(),
                    _ => {
                        return Err(SyntaxError::ExpectedStringKey);
                    },
                },
            };
            it.advance();
            let is_colon = match it.current() {
                Some(Token::Colon) => true,
                _ => false,
            };
            if !is_colon {
                return Err(SyntaxError::MissingColon);
            }
            it.advance();
            let value = match Self::parse_value(it) {
                Ok(v) => v,
                Err(e) => {
                    return Err(e);
                },
            };
            proof {
                lemma_parse_value_range(ts, i + 2);
            }
            let ghost j = it.cur();
            map.insert(key, value);
            let after: u8 = match it.current() {
                Some(Token::RightBrace) => 1,
                Some(Token::Comma) => 2,
                Some(_) => 3,
                None => 0,
            };
            if after == 1 {
                it.advance();
                proof {
                    lemma_view_object(map);
                }
                return Ok(JsonObject::Object(map));
            } else if after == 2 {
                it.advance();
                let next: u8 = match it.current() {
                    Some(Token::RightBrace) => 1,
                    Some(_) => 2,
                    None => 0,
                };
                if next == 0 || next == 1 {
                    return Err(SyntaxError::TrailingComma);
                }
            } else if after == 0 {
                return Err(SyntaxError::UnterminatedObject);
            } else {
                return Err(SyntaxError::UnexpectedTokenInObject);
            }
        }
    }

    /// Parses the array whose `[` is the cursor's current token.
    fn parse_array(it: &mut TokenIterator) -> (r: Result<JsonObject, SyntaxError>)
        requires
            old(it).inv(),
            old(it).started(),
        ensures
            final(it).inv(),
            final(it).started(),
            final(it).toks() == old(it).toks(),
            match r {
                Ok(d) => parse_array_at(old(it).toks(), old(it).cur()) == Ok::<
                    (JsonValue, int),
                    SyntaxError,
                >((d@, final(it).cur())),
                Err(e) => parse_array_at(old(it).toks(), old(it).cur()) == Err::<
                    (JsonValue, int),
                    SyntaxError,
                >(e),
            },
        decreases old(it).toks().len() - old(it).cur(), 0int,
    {
        let ghost ts = it.toks();
        let ghost i0 = it.cur();
        let is_bracket = match it.current() {
            Some(Token::LeftBracket) => true,
            _ => false,
        };
        if !is_bracket {
            return Err(SyntaxError::ExpectedArray);
        }
        it.advance();
        let mut values: Vec<JsonObject> = Vec::new();
        let empty_arr = match it.current() {
            Some(Token::RightBracket) => true,
            _ => false,
        };
        if empty_arr {
            it.advance();
            proof {
                lemma_view_array(values);
                lemma_elems_val(values@);
                assert(elems_val(values@) =~= Seq::<JsonValue>::empty());
            }
            return Ok(JsonObject::Array(values));
        }
        proof {
            lemma_elems_val(values@);
            assert(elems_val(values@) =~= Seq::<JsonValue>::empty());
        }
        loop
            invariant
                it.inv(),
                it.started(),
                it.toks() == ts,
                ts == old(it).toks(),
                i0 == old(it).cur(),
                i0 < it.cur() <= ts.len(),
                parse_array_at(ts, i0) == parse_elems(ts, it.cur(), elems_val(values@)),
            decreases ts.len() - it.cur(),
        {
            let ghost i = it.cur();
            let at_end = match it.current() {
                None => true,
                Some(_) => false,
            };
            if at_end {
                return Err(SyntaxError::UnterminatedArray);
            }
            let value = match Self::parse_value(it) {
                Ok(v) => v,
                Err(e) => {
                    return Err(e);
                },
            };
            proof {
                lemma_parse_value_range(ts, i);
            }
            let ghost j = it.cur();
            let ghost vold = values@;
            proof {
                lemma_elems_val_push(vold, value);
            }
            values.push(value);
            let after: u8 = match it.current() {
                Some(Token::RightBracket) => 1,
                Some(Token::Comma) => 2,
                Some(_) => 3,
                None => 0,
            };
            if after == 1 {
                it.advance();
                proof {
                    lemma_view_array(values);
                }
                return Ok(JsonObject::Array(values));
            } else if after == 2 {
                it.advance();
                let next: u8 = match it.current() {
                    Some(Token::RightBracket) => 1,
                    Some(_) => 2,
                    None => 0,
                };
                if next == 0 {
                    return Err(SyntaxError::UnterminatedArray);
                }
                if next == 1 {
                    return Err(SyntaxError::TrailingComma);
                }
            } else if after == 0 {
                return Err(SyntaxError::UnterminatedArray);
            } else {
                return Err(SyntaxError::UnexpectedTokenInArray);
            }
        }
    }

    /// Parses the value that starts at the cursor's current token: a scalar
    /// is taken as is, `{` and `[` enter the nested productions.
    fn parse_value(it: &mut TokenIterator) -> (r: Result<JsonObject, SyntaxError>)
        requires
            old(it).inv(),
            old(it).started(),
        ensures
            final(it).inv(),
            final(it).started(),
            final(it).toks() == old(it).toks(),
            match r {
                Ok(d) => parse_value_at(old(it).toks(), old(it).cur()) == Ok::<
                    (JsonValue, int),
                    SyntaxError,
                >((d@, final(it).cur())),
                Err(e) => parse_value_at(old(it).toks(), old(it).cur()) == Err::<
                    (JsonValue, int),
                    SyntaxError,
                >(e),
            },
        decreases old(it).toks().len() - old(it).cur(), 1int,
    {
        let kind: u8 = match it.current() {
            None => 0,
            Some(Token::String(_)) => 1,
            Some(Token::Number(_)) => 2,
            Some(Token::LeftBrace) => 3,
            Some(Token::LeftBracket) => 4,
            Some(Token::True) => 5,
            Some(Token::False) => 6,
            Some(Token::Null) => 7,
            Some(_) => 8,
        };
        if kind == 0 {
            return Err(SyntaxError::UnexpectedEndOfInput);
        }
        if kind == 3 {
            return Self::parse_object(it);
        }
        if kind == 4 {
            return Self::parse_array(it);
        }
        if kind == 8 {
            return Err(SyntaxError::UnexpectedTokenInValue);
        }
        if kind == 1 || kind == 2 {
            let payload: String = match it.current() {
                Some(Token::String(s)) => s.clone(),
                Some(Token::Number(s)) => s.clone(),
                _ => {
                    return Err(SyntaxError::UnexpectedTokenInValue);
                },
            };
            it.advance();
            if kind == 1 {
                proof {
                    lemma_view_string(payload);
                }
                return Ok(JsonObject::String(payload));
            } else {
                let num = JsonNumber::new(payload);
                proof {
                    lemma_view_number(num);
                }
                return Ok(JsonObject::Number(num));
            }
        }
        it.advance();
        proof {
            lemma_view_atoms();
        }
        if kind == 5 {
            Ok(JsonObject::True)
        } else if kind == 6 {
            Ok(JsonObject::False)
        } else {
            Ok(JsonObject::Null)
        }
    }
}

} // verus!
