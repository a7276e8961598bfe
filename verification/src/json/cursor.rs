//! The token cursor: a single-token lookahead buffer over an owned token
//! sequence. `advance` loads the next token (or nothing at the end) into the
//! current slot, `current` re-reads that slot, and `peek` looks one token
//! further without moving.

use vstd::prelude::*;
use crate::json::token::{Token, TokenModel, token_views};

verus! {

/// The cursor: the wrapped tokens, how many `advance` calls have loaded a
/// token, and whether an `advance` already ran off the end.
pub struct TokenIterator {
    tokens: Vec<Token>,
    taken: usize,
    past: bool,
}

impl TokenIterator {
    /// The models of the wrapped tokens.
    pub closed spec fn toks(&self) -> Seq<TokenModel> {
        token_views(self.tokens@)
    }

    /// How many tokens `advance` has loaded.
    pub closed spec fn cursor(&self) -> int {
        self.taken as int
    }

    /// An `advance` has already run past the last token.
    pub closed spec fn past_end(&self) -> bool {
        self.past
    }

    /// The cursor stays within the token sequence; constructors establish
    /// this and every method preserves it.
    pub open spec fn inv(&self) -> bool {
        0 <= self.cursor() <= self.toks().len() && (self.past_end() ==> self.cursor()
            == self.toks().len())
    }

    /// The position of the current token: one before `cursor`, or the length
    /// of the sequence once the cursor ran off the end.
    pub open spec fn cur(&self) -> int {
        if self.past_end() {
            self.toks().len() as int
        } else {
            self.cursor() - 1
        }
    }

    /// `advance` was called at least once: the current slot means something.
    pub open spec fn started(&self) -> bool {
        self.cursor() >= 1 || self.past_end()
    }

    /// Wraps an owned token sequence; no token is loaded yet.
    pub fn new(tokens: Vec<Token>) -> (r: TokenIterator)
        ensures
            r.toks() == token_views(tokens@),
            r.cursor() == 0,
            !r.past_end(),
            r.inv(),
    {
        proof {
            assert(token_views(tokens@).len() == tokens@.len());
        }
        TokenIterator { tokens, taken: 0, past: false }
    }

    /// The token loaded by the last `advance`, if any.
    pub fn current(&self) -> (r: Option<&Token>)
        requires
            self.inv(),
        ensures
            match r {
                Some(t) => 1 <= self.cursor() && !self.past_end() && 0 <= self.cur()
                    < self.toks().len() && t@ == self.toks()[self.cur()],
                None => self.cursor() == 0 || self.cur() >= self.toks().len(),
            },
    {
        proof {
            assert(self.toks().len() == self.tokens@.len());
        }
        if 1 <= self.taken && !self.past {
            Some(&self.tokens[self.taken - 1])
        } else {
            None
        }
    }

    /// Discards the current token and loads the next one (or nothing at the
    /// end), returning the new current token.
    pub fn advance(&mut self) -> (r: Option<&Token>)
        requires
            old(self).inv(),
        ensures
            final(self).inv(),
            final(self).toks() == old(self).toks(),
            final(self).started(),
            final(self).cur() == if old(self).cur() + 1 <= old(self).toks().len() {
                old(self).cur() + 1
            } else {
                old(self).toks().len() as int
            },
            match r {
                Some(t) => !final(self).past_end() && 0 <= final(self).cur()
                    < final(self).toks().len() && t@ == final(self).toks()[final(self).cur()],
                None => final(self).past_end(),
            },
    {
        proof {
            assert(self.toks().len() == self.tokens@.len());
        }
        if self.taken < self.tokens.len() {
            self.taken = self.taken + 1;
        } else {
            self.past = true;
        }
        if 1 <= self.taken && !self.past {
            Some(&self.tokens[self.taken - 1])
        } else {
            None
        }
    }

    /// The token after the current one, without moving the cursor.
    pub fn peek(&mut self) -> (r: Option<&Token>)
        requires
            old(self).inv(),
        ensures
            *final(self) == *old(self),
            match r {
                Some(t) => old(self).cursor() < old(self).toks().len() && t@
                    == old(self).toks()[old(self).cursor()],
                None => old(self).cursor() >= old(self).toks().len(),
            },
    {
        proof {
            assert(self.toks().len() == self.tokens@.len());
        }
        if self.taken < self.tokens.len() {
            Some(&self.tokens[self.taken])
        } else {
            None
        }
    }
}

} // verus!
