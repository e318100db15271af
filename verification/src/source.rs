//! The token source: a cursor over the tokens of one input.

use vstd::prelude::*;
use crate::syntax::{SyntaxKind, TextRange, Token};

verus! {

/// A token sequence with a single forward-moving cursor.
pub struct Source<'t> {
    tokens: &'t [Token],
    cursor: usize,
}

/// The token at `cursor`, if there is one.
pub open spec fn token_at(tokens: Seq<Token>, cursor: int) -> Option<Token> {
    if 0 <= cursor < tokens.len() {
        Some(tokens[cursor])
    } else {
        None
    }
}

/// The kind of the token at `cursor`, if there is one.
pub open spec fn kind_at(tokens: Seq<Token>, cursor: int) -> Option<SyntaxKind> {
    match token_at(tokens, cursor) {
        Some(token) => Some(token.kind),
        None => None,
    }
}

/// The range of the last token of the input, if it has any token.
pub open spec fn last_range(tokens: Seq<Token>) -> Option<TextRange> {
    if tokens.len() > 0 {
        Some(tokens.last().range)
    } else {
        None
    }
}

impl<'t> Source<'t> {
    /// All tokens of the input.
    pub closed spec fn tokens(&self) -> Seq<Token> {
        self.tokens@
    }

    /// How many tokens have been consumed.
    pub closed spec fn cursor(&self) -> int {
        self.cursor as int
    }

    /// The cursor never runs past the end of the input.
    pub open spec fn wf(&self) -> bool {
        0 <= self.cursor() <= self.tokens().len()
    }

    pub fn new(tokens: &'t [Token]) -> (s: Self)
        ensures
            s.wf(),
            s.tokens() == tokens@,
            s.cursor() == 0,
    {
        Source { tokens, cursor: 0 }
    }

    /// Hands out the current token and steps past it.
    pub fn next_token(&mut self) -> (r: Option<Token>)
        requires
            old(self).wf(),
        ensures
            final(self).wf(),
            final(self).tokens() == old(self).tokens(),
            r == token_at(old(self).tokens(), old(self).cursor()),
            final(self).cursor() == if r is Some {
                old(self).cursor() + 1
            } else {
                old(self).cursor()
            },
    {
        if self.cursor < self.tokens.len() {
            let token = self.tokens[self.cursor];
            self.cursor = self.cursor + 1;
            Some(token)
        } else {
            None
        }
    }

    /// The current token, without consuming it.
    pub fn peek_token(&self) -> (r: Option<Token>)
        ensures
            r == token_at(self.tokens(), self.cursor()),
    {
        if self.cursor < self.tokens.len() {
            Some(self.tokens[self.cursor])
        } else {
            None
        }
    }

    /// The kind of the current token, without consuming it.
    pub fn peek_kind(&self) -> (r: Option<SyntaxKind>)
        ensures
            r == kind_at(self.tokens(), self.cursor()),
    {
        match self.peek_token() {
            Some(token) => Some(token.kind),
            None => None,
        }
    }

    /// The range of the last token of the input.
    pub fn last_token_range(&self) -> (r: Option<TextRange>)
        ensures
            r == last_range(self.tokens()),
    {
        let n = self.tokens.len();
        if n > 0 {
            Some(self.tokens[n - 1].range)
        } else {
            None
        }
    }
}

} // verus!
