//! Syntax kinds, text ranges and tokens: the vocabulary shared by the token
//! source, the parser and the event log.

use vstd::prelude::*;

verus! {

/// The closed set of tags carried by tokens and by tree nodes.
#[derive(Clone, Copy, Debug, PartialEq, Eq, Structural)]
pub enum SyntaxKind {
    Whitespace,
    Comment,
    SetKw,
    Ident,
    Number,
    Equals,
    Plus,
    Minus,
    Star,
    Slash,
    LParen,
    RParen,
    Error,
    Root,
    Literal,
    InfixExpr,
    PrefixExpr,
    ParenExpr,
    VariableDef,
    VariableRef,
}

impl SyntaxKind {
    /// Whitespace and comments: tokens that carry no grammatical meaning.
    pub open spec fn spec_is_trivia(self) -> bool {
        self == SyntaxKind::Whitespace || self == SyntaxKind::Comment
    }

    #[verifier::when_used_as_spec(spec_is_trivia)]
    pub fn is_trivia(self) -> (r: bool)
        ensures
            r == self.spec_is_trivia(),
    {
        match self {
            SyntaxKind::Whitespace => true,
            SyntaxKind::Comment => true,
            _ => false,
        }
    }
}

/// A half-open span of source positions, `start..end`.
#[derive(Clone, Copy, Debug, PartialEq, Eq, Structural)]
pub struct TextRange {
    pub start: u32,
    pub end: u32,
}

impl TextRange {
    /// The zero-length range at position zero.
    pub open spec fn spec_empty() -> TextRange {
        TextRange { start: 0, end: 0 }
    }

    #[verifier::when_used_as_spec(spec_empty)]
    pub fn empty() -> (r: TextRange)
        ensures
            r == TextRange::spec_empty(),
    {
        TextRange { start: 0, end: 0 }
    }
}

/// One lexed token: its kind and where it sits in the source text.
#[derive(Clone, Copy, Debug, PartialEq, Eq, Structural)]
pub struct Token {
    pub kind: SyntaxKind,
    pub range: TextRange,
}

/// The kinds at which an enclosing rule resumes after an error. A token of
/// such a kind is never swallowed into an error node.
pub const RECOVERY_SET: [SyntaxKind; 1] = [SyntaxKind::SetKw];

/// Whether `kind` is a recovery point.
pub open spec fn is_recovery_kind(kind: SyntaxKind) -> bool {
    RECOVERY_SET@.contains(kind)
}

/// The recovery points are exactly the tokens that start a new item.
pub proof fn lemma_recovery_kinds(kind: SyntaxKind)
    ensures
        is_recovery_kind(kind) <==> kind == SyntaxKind::SetKw,
{
    if kind == SyntaxKind::SetKw {
        assert(RECOVERY_SET@[0] == kind);
    }
}

} // verus!
