//! A cursor over the scanned token sequence, consumed by the parser.

use vstd::prelude::*;

use crate::scanner::Token;
use crate::token_type::TokenType;

verus! {

/// The parser's input: the tokens and a cursor into them. The parser
/// backtracks by saving and restoring the cursor.
#[derive(Debug, Clone)]
pub struct TokenStream {
    pub input: Vec<Token>,
    pub position: usize,
}

/// A syntax error: the position (index into the token stream) at which
/// no grammar alternative matched.
#[derive(Debug, Clone, PartialEq, Eq)]
pub struct TokenStreamError {
    pub position: usize,
}

impl TokenStreamError {
    pub fn empty(position: usize) -> (e: TokenStreamError)
        ensures
            e.position == position,
    {
        TokenStreamError { position }
    }
}

impl TokenStream {
    /// The cursor stands inside the input (or just past its end).
    pub open spec fn wf(&self) -> bool {
        self.position <= self.input@.len()
    }

    pub fn new(input: Vec<Token>) -> (s: TokenStream)
        ensures
            s.input == input,
            s.position == 0,
            s.wf(),
    {
        TokenStream { input, position: 0 }
    }

    /// The kind of the next token, if any.
    pub fn peek_kind(&self) -> (k: Option<TokenType>)
        requires
            self.wf(),
        ensures
            self.position < self.input@.len() ==> k == Option::Some(
                self.input@[self.position as int].token_type,
            ),
            self.position >= self.input@.len() ==> k is None,
    {
        if self.position < self.input.len() {
            Some(self.input[self.position].token_type)
        } else {
            None
        }
    }

    /// Whether the next token has kind `k`.
    pub fn check(&self, k: TokenType) -> (b: bool)
        requires
            self.wf(),
        ensures
            b == (self.position < self.input@.len() && self.input@[self.position as int].token_type
                == k),
    {
        if self.position < self.input.len() {
            self.input[self.position].token_type == k
        } else {
            false
        }
    }

    /// Consume the next token if it has kind `k`; on any other kind, or
    /// at the end of input, fail without moving.
    pub fn expect(&mut self, k: TokenType) -> (r: Result<Token, TokenStreamError>)
        requires
            old(self).wf(),
        ensures
            final(self).wf(),
            final(self).input == old(self).input,
            match r {
                Ok(t) => {
                    &&& old(self).position < old(self).input@.len()
                    &&& t == old(self).input@[old(self).position as int]
                    &&& t.token_type == k
                    &&& final(self).position == old(self).position + 1
                },
                Err(_) => {
                    &&& final(self).position == old(self).position
                    &&& !(old(self).position < old(self).input@.len() && old(self).input@[old(
                        self,
                    ).position as int].token_type == k)
                },
            },
    {
        if self.position < self.input.len() {
            let t = &self.input[self.position];
            if t.token_type == k {
                let t = t.dup();
                self.position = self.position + 1;
                return Ok(t);
            }
        }
        Err(TokenStreamError { position: self.position })
    }
}

} // verus!
