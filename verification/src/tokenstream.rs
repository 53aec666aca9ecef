//! A cursor over a shared token list.
use std::rc::Rc;
use vstd::prelude::*;

use crate::lexer::{lex, lex_model};
use crate::token::{tokens_model, LexerError, OwnedToken, Token, TokenKind, TokenModel};

verus! {

#[derive(Debug)]
pub enum StreamError {
    UnexpectedToken { expected: Option<TokenKind>, found: OwnedToken },
    UnexpectedEOF { expected: Option<TokenKind> },
}

#[derive(Debug)]
pub struct TokenStream {
    tokens: Rc<Vec<Token>>,
    position: usize,
}

impl TokenStream {
    /// The tokens of the stream.
    pub closed spec fn tokens(&self) -> Seq<TokenModel> {
        tokens_model((*self.tokens)@)
    }

    /// The index of the next token.
    pub closed spec fn pos(&self) -> nat {
        self.position as nat
    }

    pub fn new(tokens: Vec<Token>) -> (r: Self)
        ensures
            r.tokens() == tokens_model(tokens@),
            r.pos() == 0,
    {
        Self { tokens: Rc::new(tokens), position: 0 }
    }

    /// A stream over the tokens of `source`.
    pub fn from_source(source: &str) -> (r: Result<Self, LexerError>)
        ensures
            match lex_model(source@) {
                Ok(toks) => r matches Ok(s) && s.tokens() == toks && s.pos() == 0,
                Err(e) => r matches Err(e2) && e2 == e,
            },
    {
        Ok(Self::new(lex(source)?))
    }

    pub fn len(&self) -> (r: usize)
        ensures
            r == self.tokens().len(),
    {
        self.tokens.len()
    }

    pub fn is_empty(&self) -> (r: bool)
        ensures
            r == (self.tokens().len() == 0),
    {
        self.tokens.len() == 0
    }

    /// Whether every token has been consumed.
    pub fn is_eof(&self) -> (r: bool)
        ensures
            r == (self.pos() >= self.tokens().len()),
    {
        self.position >= self.tokens.len()
    }

    /// A copy of the token at `index`.
    pub fn get(&self, index: usize) -> (r: Option<Token>)
        ensures
            r is None <==> index >= self.tokens().len(),
            r matches Some(t) ==> t@ == self.tokens()[index as int],
    {
        if index < self.tokens.len() {
            Some(self.tokens[index].into_owned())
        } else {
            None
        }
    }

    /// The next token, without consuming it.
    pub fn peek(&self) -> (r: Option<&Token>)
        ensures
            r is None <==> self.pos() >= self.tokens().len(),
            r matches Some(t) ==> t@ == self.tokens()[self.pos() as int],
    {
        if self.position < self.tokens.len() {
            Some(&self.tokens[self.position])
        } else {
            None
        }
    }

    /// A copy of the token `offset` places after the next one, without
    /// consuming anything.
    pub fn peek_at(&self, offset: usize) -> (r: Option<Token>)
        ensures
            self.pos() + offset < self.tokens().len() ==> (r matches Some(t) && t@ == self.tokens()[self.pos() + offset]),
            self.pos() + offset >= self.tokens().len() ==> r is None,
    {
        if offset >= self.tokens.len() || self.position >= self.tokens.len() - offset {
            None
        } else {
            self.get(self.position + offset)
        }
    }

    /// Moves past the next token.
    pub fn consume(&mut self)
        requires
            old(self).pos() < usize::MAX,
        ensures
            final(self).tokens() == old(self).tokens(),
            final(self).pos() == old(self).pos() + 1,
    {
        self.position = self.position + 1;
    }

    /// Consumes the next token when it has kind `expected`; otherwise reports
    /// what was found.
    pub fn expect(&mut self, expected: TokenKind) -> (r: Result<Token, StreamError>)
        ensures
            final(self).tokens() == old(self).tokens(),
            old(self).pos() >= old(self).tokens().len() ==> (r matches Err(StreamError::UnexpectedEOF { expected: e }) && e == Some(expected) && final(self).pos() == old(self).pos()),
            old(self).pos() < old(self).tokens().len() && old(self).tokens()[old(self).pos() as int].kind == expected ==> (r matches Ok(t) && t@ == old(self).tokens()[old(self).pos() as int] && final(self).pos() == old(self).pos() + 1),
            old(self).pos() < old(self).tokens().len() && old(self).tokens()[old(self).pos() as int].kind != expected ==> (r matches Err(StreamError::UnexpectedToken { expected: e, found }) && e == Some(expected) && found@ == old(self).tokens()[old(self).pos() as int] && final(self).pos() == old(self).pos()),
    {
        let n = self.tokens.len();
        if let Some(token) = self.peek() {
            if token.is_kind(&expected) {
                let token = token.into_owned();
                assert(self.position < n);
                self.consume();
                Ok(token)
            } else {
                Err(StreamError::UnexpectedToken { expected: Some(expected), found: token.into_owned() })
            }
        } else {
            Err(StreamError::UnexpectedEOF { expected: Some(expected) })
        }
    }

    /// Whether the next token has kind `expected`; nothing is consumed.
    pub fn check(&self, expected: TokenKind) -> (r: bool)
        ensures
            r == (self.pos() < self.tokens().len() && self.tokens()[self.pos() as int].kind == expected),
    {
        if let Some(token) = self.peek() {
            token.is_kind(&expected)
        } else {
            false
        }
    }

    /// All the tokens, from the first.
    pub fn iter(&self) -> (r: &[Token])
        ensures
            tokens_model(r@) == self.tokens(),
    {
        self.tokens.as_slice()
    }
}

} // verus!
