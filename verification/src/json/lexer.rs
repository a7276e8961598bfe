//! The lexer: turns the input text into a token sequence, scanning left to
//! right by Unicode scalar value. `lex_from` is the mathematical statement of
//! the token grammar; `Tokenizer` is the executable scanner proven against it.

use vstd::prelude::*;
use crate::json::errors::{Keyword, LexError};
use crate::json::token::{Token, TokenModel, token_views};
use crate::text::{chars_to_string, is_dec_digit};

verus! {

/// `c` is whitespace (the Unicode white-space scalars).
pub open spec fn is_ws(c: char) -> bool {
    let u = c as int;
    u == 32 || u == 9 || u == 10 || u == 13 || u == 11 || u == 12 || u == 0x85 || u == 0xA0 || u
        == 0x1680 || (0x2000 <= u <= 0x200A) || u == 0x2028 || u == 0x2029 || u == 0x202F || u
        == 0x205F || u == 0x3000
}

/// What a character after a backslash decodes to, if it is a valid escape.
pub open spec fn unescape(c: char) -> Option<char> {
    match c {
        '"' => Some('"'),
        '\\' => Some('\\'),
        '/' => Some('/'),
        'b' => Some('\u{0008}'),
        'f' => Some('\u{000C}'),
        'n' => Some('\n'),
        'r' => Some('\r'),
        't' => Some('\t'),
        _ => None::<char>,
    }
}

/// The characters of a keyword's spelling.
pub open spec fn kw_chars(k: Keyword) -> Seq<char> {
    match k {
        Keyword::True => seq!['t', 'r', 'u', 'e'],
        Keyword::False => seq!['f', 'a', 'l', 's', 'e'],
        Keyword::Null => seq!['n', 'u', 'l', 'l'],
    }
}

/// `kw` occurs in `s` starting at position `i`.
pub open spec fn matches_at(s: Seq<char>, i: int, kw: Seq<char>) -> bool {
    0 <= i && i + kw.len() <= s.len() && s.subrange(i, i + kw.len()) == kw
}

/// Scans a string literal's body from position `i` (just after the opening
/// quote): the decoded text and the position after the closing quote, or the
/// lexical error.
pub open spec fn scan_string(s: Seq<char>, i: int) -> Result<(Seq<char>, int), LexError>
    decreases s.len() - i,
{
    if i < 0 || i >= s.len() {
        Err(LexError::UnterminatedString)
    } else if s[i] == '"' {
        Ok((Seq::empty(), i + 1))
    } else if s[i] == '\\' {
        if i + 1 >= s.len() {
            Err(LexError::UnterminatedString)
        } else {
            match unescape(s[i + 1]) {
                Some(d) => match scan_string(s, i + 2) {
                    Ok((t, j)) => Ok((seq![d] + t, j)),
                    Err(e) => Err(e),
                },
                None => Err(LexError::InvalidEscape(s[i + 1])),
            }
        }
    } else {
        match scan_string(s, i + 1) {
            Ok((t, j)) => Ok((seq![s[i]] + t, j)),
            Err(e) => Err(e),
        }
    }
}

/// A successful string scan always moves forward and stays in bounds.
pub proof fn lemma_scan_string_range(s: Seq<char>, i: int)
    ensures
        scan_string(s, i) matches Ok((t, j)) ==> i < j <= s.len(),
    decreases s.len() - i,
{
    if 0 <= i < s.len() && s[i] != '"' {
        if s[i] == '\\' {
            if i + 1 < s.len() {
                lemma_scan_string_range(s, i + 2);
            }
        } else {
            lemma_scan_string_range(s, i + 1);
        }
    }
}

/// The position after the run of decimal digits that starts at `i`.
pub open spec fn skip_digits(s: Seq<char>, i: int) -> int
    decreases s.len() - i,
{
    if 0 <= i < s.len() && is_dec_digit(s[i]) {
        skip_digits(s, i + 1)
    } else {
        i
    }
}

/// `skip_digits` stays in bounds and stops at the first non-digit.
pub proof fn lemma_skip_digits(s: Seq<char>, i: int)
    requires
        0 <= i <= s.len(),
    ensures
        i <= skip_digits(s, i) <= s.len(),
    decreases s.len() - i,
{
    if i < s.len() && is_dec_digit(s[i]) {
        lemma_skip_digits(s, i + 1);
    }
}

/// The position after the number literal that starts at `i`: an optional
/// leading minus, digits, an optional fraction, an optional exponent.
pub open spec fn number_end(s: Seq<char>, i: int) -> int {
    let a = if s[i] == '-' {
        i + 1
    } else {
        i
    };
    let b = skip_digits(s, a);
    let c = if b < s.len() && s[b] == '.' {
        skip_digits(s, b + 1)
    } else {
        b
    };
    if c < s.len() && (s[c] == 'e' || s[c] == 'E') {
        if c + 1 < s.len() && (s[c + 1] == '+' || s[c + 1] == '-') {
            skip_digits(s, c + 2)
        } else {
            skip_digits(s, c + 1)
        }
    } else {
        c
    }
}

/// A number scan that begins on a digit or a minus always moves forward and
/// stays in bounds.
pub proof fn lemma_number_end(s: Seq<char>, i: int)
    requires
        0 <= i < s.len(),
        is_dec_digit(s[i]) || s[i] == '-',
    ensures
        i < number_end(s, i) <= s.len(),
{
    let a = if s[i] == '-' {
        i + 1
    } else {
        i
    };
    lemma_skip_digits(s, a);
    let b = skip_digits(s, a);
    if s[i] != '-' {
        assert(skip_digits(s, i) == skip_digits(s, i + 1));
        lemma_skip_digits(s, i + 1);
        assert(b > i);
    }
    let c = if b < s.len() && s[b] == '.' {
        skip_digits(s, b + 1)
    } else {
        b
    };
    if b < s.len() && s[b] == '.' {
        lemma_skip_digits(s, b + 1);
    }
    if c < s.len() && (s[c] == 'e' || s[c] == 'E') {
        if c + 1 < s.len() && (s[c + 1] == '+' || s[c + 1] == '-') {
            lemma_skip_digits(s, c + 2);
        } else {
            lemma_skip_digits(s, c + 1);
        }
    }
}

/// Prepends a token to the result of lexing the rest of the input.
pub open spec fn prepend_token(
    t: TokenModel,
    r: Result<Seq<TokenModel>, LexError>,
) -> Result<Seq<TokenModel>, LexError> {
    match r {
        Ok(ts) => Ok(seq![t] + ts),
        Err(e) => Err(e),
    }
}

/// The token sequence of the input text from position `i` on: whitespace is
/// skipped; string, number, structural and keyword tokens are recognized as
/// the grammar states; anything else is the lexical error the offending
/// character earns.
pub open spec fn lex_from(s: Seq<char>, i: int) -> Result<Seq<TokenModel>, LexError>
    decreases s.len() - i,
{
    if i < 0 || i >= s.len() {
        Ok(Seq::empty())
    } else {
        let c = s[i];
        if is_ws(c) {
            lex_from(s, i + 1)
        } else if c == '"' {
            match scan_string(s, i + 1) {
                Ok((t, j)) => if i < j <= s.len() {
                    prepend_token(TokenModel::String(t), lex_from(s, j))
                } else {
                    Err(LexError::UnterminatedString)
                },
                Err(e) => Err(e),
            }
        } else if is_dec_digit(c) || c == '-' {
            let j = number_end(s, i);
            if i < j <= s.len() {
                prepend_token(TokenModel::Number(s.subrange(i, j)), lex_from(s, j))
            } else {
                Err(LexError::UnexpectedChar(c))
            }
        } else if c == '{' {
            prepend_token(TokenModel::LeftBrace, lex_from(s, i + 1))
        } else if c == '}' {
            prepend_token(TokenModel::RightBrace, lex_from(s, i + 1))
        } else if c == '[' {
            prepend_token(TokenModel::LeftBracket, lex_from(s, i + 1))
        } else if c == ']' {
            prepend_token(TokenModel::RightBracket, lex_from(s, i + 1))
        } else if c == ',' {
            prepend_token(TokenModel::Comma, lex_from(s, i + 1))
        } else if c == ':' {
            prepend_token(TokenModel::Colon, lex_from(s, i + 1))
        } else if c == 't' {
            if matches_at(s, i, kw_chars(Keyword::True)) {
                prepend_token(TokenModel::True, lex_from(s, i + 4))
            } else {
                Err(LexError::MalformedKeyword(Keyword::True))
            }
        } else if c == 'f' {
            if matches_at(s, i, kw_chars(Keyword::False)) {
                prepend_token(TokenModel::False, lex_from(s, i + 5))
            } else {
                Err(LexError::MalformedKeyword(Keyword::False))
            }
        } else if c == 'n' {
            if matches_at(s, i, kw_chars(Keyword::Null)) {
                prepend_token(TokenModel::Null, lex_from(s, i + 4))
            } else {
                Err(LexError::MalformedKeyword(Keyword::Null))
            }
        } else {
            Err(LexError::UnexpectedChar(c))
        }
    }
}

/// The token sequence of the whole input text, or its first lexical error.
pub open spec fn spec_tokenize(s: Seq<char>) -> Result<Seq<TokenModel>, LexError> {
    lex_from(s, 0)
}

/// Skipping whitespace does not change the token sequence.
proof fn lemma_lex_ws(s: Seq<char>, p: int, q: int)
    requires
        0 <= p <= q <= s.len(),
        forall|j: int| p <= j < q ==> is_ws(#[trigger] s[j]),
    ensures
        lex_from(s, p) == lex_from(s, q),
    decreases q - p,
{
    if p < q {
        lemma_lex_ws(s, p + 1, q);
    }
}

/// One recognized token carries the lexing relation one step forward.
proof fn lemma_lex_step(s: Seq<char>, p0: int, p: int, q: int, toks: Seq<Token>, t: Token)
    requires
        lex_from(s, p0) == (match lex_from(s, p) {
            Ok(ts) => Ok::<Seq<TokenModel>, LexError>(token_views(toks) + ts),
            Err(e) => Err(e),
        }),
        lex_from(s, p) == prepend_token(t@, lex_from(s, q)),
    ensures
        lex_from(s, p0) == (match lex_from(s, q) {
            Ok(ts) => Ok::<Seq<TokenModel>, LexError>(token_views(toks.push(t)) + ts),
            Err(e) => Err(e),
        }),
{
    match lex_from(s, q) {
        Ok(ts) => {
            assert(token_views(toks.push(t)) =~= token_views(toks).push(t@));
            assert(token_views(toks) + (seq![t@] + ts) =~= token_views(toks.push(t)) + ts);
        },
        Err(e) => {},
    }
}

/// Whether `c` is a whitespace character.
fn is_ws_char(c: char) -> (r: bool)
    ensures
        r == is_ws(c),
{
    let u = c as u32;
    u == 32 || u == 9 || u == 10 || u == 13 || u == 11 || u == 12 || u == 0x85 || u == 0xA0 || u
        == 0x1680 || (0x2000 <= u && u <= 0x200A) || u == 0x2028 || u == 0x2029 || u == 0x202F || u
        == 0x205F || u == 0x3000
}

/// Whether `c` is a decimal digit.
fn is_digit_char(c: char) -> (r: bool)
    ensures
        r == is_dec_digit(c),
{
    let u = c as u32;
    48 <= u && u <= 57
}

/// Decodes the character after a backslash, if it is a valid escape.
fn unescape_char(c: char) -> (r: Option<char>)
    ensures
        r == unescape(c),
{
    match c {
        '"' => Some('"'),
        '\\' => Some('\\'),
        '/' => Some('/'),
        'b' => Some('\u{0008}'),
        'f' => Some('\u{000C}'),
        'n' => Some('\n'),
        'r' => Some('\r'),
        't' => Some('\t'),
        _ => None,
    }
}

/// The keyword a keyword token spells; immaterial for other tokens.
pub open spec fn keyword_of(t: Token) -> Keyword {
    match t {
        Token::False => Keyword::False,
        Token::Null => Keyword::Null,
        _ => Keyword::True,
    }
}

/// The keyword a keyword token spells, computed.
fn keyword_kind(token: &Token) -> (k: Keyword)
    ensures
        k == keyword_of(*token),
{
    match token {
        Token::False => Keyword::False,
        Token::Null => Keyword::Null,
        _ => Keyword::True,
    }
}

/// The executable scanner: the input text and the position (in Unicode
/// scalars) of the next character to classify.
#[derive(Debug)]
pub struct Tokenizer<'a> {
    input: &'a str,
    position: usize,
}

impl<'a> Tokenizer<'a> {
    /// The input text being scanned.
    pub closed spec fn text(&self) -> Seq<char> {
        self.input@
    }

    /// The current scan position, in characters.
    pub closed spec fn pos(&self) -> int {
        self.position as int
    }

    /// A scanner over `input`, positioned at its start.
    pub fn new(input: &'a str) -> (r: Tokenizer<'a>)
        ensures
            r.text() == input@,
            r.pos() == 0,
    {
        Tokenizer { input, position: 0 }
    }

    /// The character at the current position.
    fn peek_char(&self) -> (c: char)
        requires
            0 <= self.pos() < self.text().len(),
        ensures
            c == self.text()[self.pos()],
    {
        self.input.get_char(self.position)
    }

    /// Returns the current character and steps past it.
    fn consume_char(&mut self) -> (c: char)
        requires
            0 <= old(self).pos() < old(self).text().len(),
            old(self).text().len() <= usize::MAX,
        ensures
            final(self).text() == old(self).text(),
            c == old(self).text()[old(self).pos()],
            final(self).pos() == old(self).pos() + 1,
    {
        let c = self.peek_char();
        self.position = self.position + 1;
        c
    }

    /// Steps past consecutive whitespace.
    fn consume_whitespace(&mut self)
        requires
            0 <= old(self).pos() <= old(self).text().len(),
            old(self).text().len() <= usize::MAX,
        ensures
            final(self).text() == old(self).text(),
            old(self).pos() <= final(self).pos() <= final(self).text().len(),
            forall|j: int|
                old(self).pos() <= j < final(self).pos() ==> is_ws(
                    #[trigger] final(self).text()[j],
                ),
    {
        let n = self.input.unicode_len();
        while self.position < n
            invariant
                self.input@ == old(self).text(),
                n == self.input@.len(),
                old(self).pos() <= self.pos() <= n,
                forall|j: int| old(self).pos() <= j < self.pos() ==> is_ws(#[trigger] self.input@[j]),
            decreases n - self.position,
        {
            let c = self.peek_char();
            if !is_ws_char(c) {
                return ;
            }
            self.position = self.position + 1;
        }
    }

    /// Steps past the run of decimal digits at the current position.
    fn skip_digit_run(&mut self, n: usize)
        requires
            0 <= old(self).pos() <= old(self).text().len(),
            old(self).text().len() <= usize::MAX,
            n == old(self).text().len(),
        ensures
            final(self).text() == old(self).text(),
            final(self).pos() == skip_digits(old(self).text(), old(self).pos()),
            old(self).pos() <= final(self).pos() <= final(self).text().len(),
    {
        proof {
            lemma_skip_digits(self.input@, self.position as int);
        }
        while self.position < n
            invariant
                self.input@ == old(self).text(),
                n == self.input@.len(),
                old(self).pos() <= self.pos() <= n,
                skip_digits(self.input@, old(self).pos()) == skip_digits(
                    self.input@,
                    self.pos(),
                ),
            decreases n - self.position,
        {
            let c = self.peek_char();
            if !is_digit_char(c) {
                return ;
            }
            proof {
                assert(skip_digits(self.input@, self.pos()) == skip_digits(
                    self.input@,
                    self.pos() + 1,
                ));
            }
            self.position = self.position + 1;
        }
    }

    /// Scans a string literal whose opening quote stands at the current
    /// position, decoding escapes.
    fn consume_string(&mut self) -> (r: Result<Token, LexError>)
        requires
            0 <= old(self).pos() < old(self).text().len(),
            old(self).text().len() <= usize::MAX,
            old(self).text()[old(self).pos()] == '"',
        ensures
            final(self).text() == old(self).text(),
            match r {
                Ok(t) => t matches Token::String(txt) && scan_string(
                    old(self).text(),
                    old(self).pos() + 1,
                ) == Ok::<_, LexError>((txt@, final(self).pos())),
                Err(e) => scan_string(old(self).text(), old(self).pos() + 1) == Err::<
                    (Seq<char>, int),
                    _,
                >(e),
            },
    {
        let ghost s = self.input@;
        let n = self.input.unicode_len();
        self.position = self.position + 1;
        let ghost start = self.position as int;
        let mut buf: Vec<char> = Vec::new();
        while self.position < n
            invariant
                self.input@ == s,
                s == old(self).text(),
                start == old(self).pos() + 1,
                n == s.len(),
                start <= self.pos() <= n,
                scan_string(s, start) == (match scan_string(s, self.pos()) {
                    Ok((t, j)) => Ok::<_, LexError>((buf@ + t, j)),
                    Err(e) => Err(e),
                }),
            decreases n - self.position,
        {
            let ghost p = self.pos();
            let ghost bold = buf@;
            let c = self.consume_char();
            if c == '"' {
                proof {
                    assert(buf@ + Seq::<char>::empty() =~= buf@);
                }
                return Ok(Token::String(chars_to_string(&buf)));
            } else if c == '\\' {
                if self.position >= n {
                    return Err(LexError::UnterminatedString);
                }
                let e = self.consume_char();
                match unescape_char(e) {
                    Some(d) => {
                        buf.push(d);
                        proof {
                            match scan_string(s, self.pos()) {
                                Ok((t, j)) => {
                                    assert(bold + (seq![d] + t) =~= buf@ + t);
                                },
                                Err(_) => {},
                            }
                        }
                    },
                    None => {
                        return Err(LexError::InvalidEscape(e));
                    },
                }
            } else {
                buf.push(c);
                proof {
                    match scan_string(s, self.pos()) {
                        Ok((t, j)) => {
                            assert(bold + (seq![c] + t) =~= buf@ + t);
                        },
                        Err(_) => {},
                    }
                }
            }
        }
        Err(LexError::UnterminatedString)
    }

    /// Scans a number literal beginning at the current position, capturing
    /// its raw text.
    fn consume_number(&mut self) -> (t: Token)
        requires
            0 <= old(self).pos() < old(self).text().len(),
            old(self).text().len() <= usize::MAX,
            is_dec_digit(old(self).text()[old(self).pos()]) || old(self).text()[old(self).pos()]
                == '-',
        ensures
            final(self).text() == old(self).text(),
            t matches Token::Number(raw) && raw@ == old(self).text().subrange(
                old(self).pos(),
                number_end(old(self).text(), old(self).pos()),
            ) && final(self).pos() == number_end(old(self).text(), old(self).pos()),
    {
        let ghost s = self.input@;
        let ghost i0 = self.position as int;
        let n = self.input.unicode_len();
        let start = self.position;
        if self.peek_char() == '-' {
            self.position = self.position + 1;
        }
        self.skip_digit_run(n);
        if self.position < n && self.peek_char() == '.' {
            self.position = self.position + 1;
            self.skip_digit_run(n);
        }
        if self.position < n {
            let c = self.peek_char();
            if c == 'e' || c == 'E' {
                self.position = self.position + 1;
                if self.position < n {
                    let d = self.peek_char();
                    if d == '+' || d == '-' {
                        self.position = self.position + 1;
                    }
                }
                self.skip_digit_run(n);
            }
        }
        proof {
            assert(self.pos() == number_end(s, i0));
            lemma_number_end(s, i0);
        }
        let raw = self.input.substring_char(start, self.position).to_owned();
        Token::Number(raw)
    }

    /// Matches the spelling of `keyword` character by character at the
    /// current position, producing `token` on success.
    fn consume_keyword(&mut self, keyword: &str, token: Token) -> (r: Result<Token, LexError>)
        requires
            0 <= old(self).pos() <= old(self).text().len(),
            old(self).text().len() <= usize::MAX,
            keyword@ == kw_chars(keyword_of(token)),
        ensures
            final(self).text() == old(self).text(),
            match r {
                Ok(t) => t == token && matches_at(old(self).text(), old(self).pos(), keyword@)
                    && final(self).pos() == old(self).pos() + keyword@.len(),
                Err(e) => !matches_at(old(self).text(), old(self).pos(), keyword@) && e
                    == LexError::MalformedKeyword(keyword_of(token)),
            },
    {
        let ghost s = self.input@;
        let ghost o = self.position as int;
        let n = self.input.unicode_len();
        let klen = keyword.unicode_len();
        let mut idx: usize = 0;
        while idx < klen
            invariant
                self.input@ == s,
                s == old(self).text(),
                o == old(self).pos(),
                keyword@ == kw_chars(keyword_of(token)),
                n == s.len(),
                klen == keyword@.len(),
                0 <= idx <= klen,
                self.pos() == o + idx,
                o + idx <= n,
                s.len() <= usize::MAX,
                forall|j: int| 0 <= j < idx ==> s[o + j] == keyword@[j],
            decreases klen - idx,
        {
            if self.position >= n {
                proof {
                    assert(o + keyword@.len() > s.len());
                }
                return Err(LexError::MalformedKeyword(keyword_kind(&token)));
            }
            let c = self.consume_char();
            if c != keyword.get_char(idx) {
                proof {
                    if o + keyword@.len() <= s.len() {
                        assert(s.subrange(o, o + keyword@.len())[idx as int] == s[o + idx]);
                    }
                }
                return Err(LexError::MalformedKeyword(keyword_kind(&token)));
            }
            idx = idx + 1;
        }
        proof {
            assert(s.subrange(o, o + keyword@.len()) =~= keyword@);
        }
        Ok(token)
    }

    /// Converts the whole input into its token sequence, or reports the
    /// first lexical error.
    pub fn tokenize(&mut self) -> (r: Result<Vec<Token>, LexError>)
        ensures
            final(self).text() == old(self).text(),
            match r {
                Ok(v) => lex_from(old(self).text(), old(self).pos()) == Ok::<_, LexError>(
                    token_views(v@),
                ),
                Err(e) => lex_from(old(self).text(), old(self).pos()) == Err::<
                    Seq<TokenModel>,
                    _,
                >(e),
            },
    {
        let ghost s = self.input@;
        let ghost p0 = self.position as int;
        let n = self.input.unicode_len();
        let mut tokens: Vec<Token> = Vec::new();
        if self.position > n {
            proof {
                assert(token_views(tokens@) =~= Seq::<TokenModel>::empty());
            }
            return Ok(tokens);
        }
        while self.position < n
            invariant
                self.input@ == s,
                s == old(self).text(),
                p0 == old(self).pos(),
                n == s.len(),
                s.len() <= usize::MAX,
                0 <= self.pos() <= n,
                lex_from(s, p0) == (match lex_from(s, self.pos()) {
                    Ok(ts) => Ok::<Seq<TokenModel>, LexError>(token_views(tokens@) + ts),
                    Err(e) => Err(e),
                }),
            decreases n - self.position,
        {
            let ghost p = self.pos();
            let ghost toks = tokens@;
            let c = self.peek_char();
            if is_ws_char(c) {
                self.position = self.position + 1;
                self.consume_whitespace();
                proof {
                    lemma_lex_ws(s, p, self.pos());
                }
            } else if c == '"' {
                match self.consume_string() {
                    Ok(t) => {
                        proof {
                            lemma_scan_string_range(s, p + 1);
                            lemma_lex_step(s, p0, p, self.pos(), toks, t);
                        }
                        tokens.push(t);
                    },
                    Err(e) => {
                        return Err(e);
                    },
                }
            } else if is_digit_char(c) || c == '-' {
                let t = self.consume_number();
                proof {
                    lemma_number_end(s, p);
                    lemma_lex_step(s, p0, p, self.pos(), toks, t);
                }
                tokens.push(t);
            } else if c == '{' {
                self.position = self.position + 1;
                proof {
                    lemma_lex_step(s, p0, p, self.pos(), toks, Token::LeftBrace);
                }
                tokens.push(Token::LeftBrace);
            } else if c == '}' {
                self.position = self.position + 1;
                proof {
                    lemma_lex_step(s, p0, p, self.pos(), toks, Token::RightBrace);
                }
                tokens.push(Token::RightBrace);
            } else if c == '[' {
                self.position = self.position + 1;
                proof {
                    lemma_lex_step(s, p0, p, self.pos(), toks, Token::LeftBracket);
                }
                tokens.push(Token::LeftBracket);
            } else if c == ']' {
                self.position = self.position + 1;
                proof {
                    lemma_lex_step(s, p0, p, self.pos(), toks, Token::RightBracket);
                }
                tokens.push(Token::RightBracket);
            } else if c == ',' {
                self.position = self.position + 1;
                proof {
                    lemma_lex_step(s, p0, p, self.pos(), toks, Token::Comma);
                }
                tokens.push(Token::Comma);
            } else if c == ':' {
                self.position = self.position + 1;
                proof {
                    lemma_lex_step(s, p0, p, self.pos(), toks, Token::Colon);
                }
                tokens.push(Token::Colon);
            } else if c == 't' {
                proof {
                    reveal_strlit("true");
                    assert("true"@ =~= kw_chars(Keyword::True));
                }
                match self.consume_keyword("true", Token::True) {
                    Ok(t) => {
                        proof {
                            lemma_lex_step(s, p0, p, self.pos(), toks, t);
                        }
                        tokens.push(t);
                    },
                    Err(e) => {
                        return Err(e);
                    },
                }
            } else if c == 'f' {
                proof {
                    reveal_strlit("false");
                    assert("false"@ =~= kw_chars(Keyword::False));
                }
                match self.consume_keyword("false", Token::False) {
                    Ok(t) => {
                        proof {
                            lemma_lex_step(s, p0, p, self.pos(), toks, t);
                        }
                        tokens.push(t);
                    },
                    Err(e) => {
                        return Err(e);
                    },
                }
            } else if c == 'n' {
                proof {
                    reveal_strlit("null");
                    assert("null"@ =~= kw_chars(Keyword::Null));
                }
                match self.consume_keyword("null", Token::Null) {
                    Ok(t) => {
                        proof {
                            lemma_lex_step(s, p0, p, self.pos(), toks, t);
                        }
                        tokens.push(t);
                    },
                    Err(e) => {
                        return Err(e);
                    },
                }
            } else {
                return Err(LexError::UnexpectedChar(c));
            }
        }
        proof {
            assert(token_views(tokens@) + Seq::<TokenModel>::empty() =~= token_views(tokens@));
        }
        Ok(tokens)
    }
}

} // verus!
