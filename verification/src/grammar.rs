//! The top-level rule that drives the parser over a whole input.
//!
//! The root node holds a flat run of items. Trivia is attached as it comes,
//! the keyword that starts an item is consumed, and any other token is
//! reported and wrapped in an error node.

use vstd::prelude::*;
use crate::event::{is_complete, EventView};
use crate::parser::marker::CompletedMarker;
use crate::parser::{error_entries, Parser};
use crate::source::kind_at;
use crate::syntax::{lemma_recovery_kinds, SyntaxKind, Token};

verus! {

/// The entries written for the item at `cursor`.
pub open spec fn item_entries(
    tokens: Seq<Token>,
    cursor: int,
    expected: Seq<SyntaxKind>,
) -> Seq<EventView> {
    match kind_at(tokens, cursor) {
        Some(kind) => if kind.is_trivia() || kind == SyntaxKind::SetKw {
            seq![EventView::AddToken]
        } else {
            error_entries(tokens, cursor, expected.push(SyntaxKind::SetKw))
        },
        None => Seq::empty(),
    }
}

/// The entries written for all items from `cursor` to the end of the input.
/// `expected` holds the kinds probed for before the first of them.
pub open spec fn items_entries(
    tokens: Seq<Token>,
    cursor: int,
    expected: Seq<SyntaxKind>,
) -> Seq<EventView>
    decreases tokens.len() - cursor,
{
    if cursor < 0 || cursor >= tokens.len() {
        Seq::empty()
    } else {
        item_entries(tokens, cursor, expected) + items_entries(tokens, cursor + 1, Seq::empty())
    }
}

/// The entries written for the root node over the input from `cursor` on.
pub open spec fn root_entries(
    tokens: Seq<Token>,
    cursor: int,
    expected: Seq<SyntaxKind>,
) -> Seq<EventView> {
    seq![EventView::StartNode { kind: SyntaxKind::Root }] + items_entries(tokens, cursor, expected)
        + seq![EventView::Finish]
}

/// The items leave no placeholder behind.
pub proof fn lemma_items_entries_complete(
    tokens: Seq<Token>,
    cursor: int,
    expected: Seq<SyntaxKind>,
)
    ensures
        is_complete(items_entries(tokens, cursor, expected)),
    decreases tokens.len() - cursor,
{
    if 0 <= cursor < tokens.len() {
        lemma_items_entries_complete(tokens, cursor + 1, Seq::empty());
    }
}

/// The root rule leaves no placeholder behind.
pub proof fn lemma_root_entries_complete(
    tokens: Seq<Token>,
    cursor: int,
    expected: Seq<SyntaxKind>,
)
    ensures
        is_complete(root_entries(tokens, cursor, expected)),
{
    lemma_items_entries_complete(tokens, cursor, expected);
}

/// Parses one item: consumes exactly one token.
pub fn item(p: &mut Parser)
    requires
        old(p).wf(),
        old(p).current() is Some,
    ensures
        final(p).wf(),
        final(p).tokens() == old(p).tokens(),
        final(p).cursor() == old(p).cursor() + 1,
        final(p).expected() == Seq::<SyntaxKind>::empty(),
        final(p).log() == old(p).log() + item_entries(
            old(p).tokens(),
            old(p).cursor(),
            old(p).expected(),
        ),
{
    proof {
        lemma_recovery_kinds(p.current_kind().unwrap());
    }
    let trivia = match p.peek() {
        Some(kind) => kind.is_trivia(),
        None => false,
    };
    if trivia {
        p.bump();
    } else {
        p.expect(SyntaxKind::SetKw);
    }
    assert(old(p).log().push(EventView::AddToken) =~= old(p).log() + seq![EventView::AddToken]);
}

/// Parses the whole remaining input into one root node.
pub fn root(p: &mut Parser) -> (done: CompletedMarker)
    requires
        old(p).wf(),
    ensures
        final(p).wf(),
        final(p).tokens() == old(p).tokens(),
        final(p).cursor() == old(p).tokens().len(),
        final(p).expected() == if old(p).current() is Some {
            Seq::<SyntaxKind>::empty()
        } else {
            old(p).expected()
        },
        final(p).log() == old(p).log() + root_entries(
            old(p).tokens(),
            old(p).cursor(),
            old(p).expected(),
        ),
        done.pos() == old(p).log().len(),
        final(p).is_completed(done),
{
    let m = p.start();
    let ghost opened = p.log();
    let ghost all = items_entries(p.tokens(), p.cursor(), p.expected());
    assert(opened + Seq::<EventView>::empty() =~= opened);
    while !p.at_end()
        invariant
            p.wf(),
            p.is_open(m),
            m.target() is None,
            p.tokens() == old(p).tokens(),
            opened.len() <= p.log().len(),
            old(p).cursor() <= p.cursor(),
            p.expected() == if old(p).cursor() < p.cursor() {
                Seq::<SyntaxKind>::empty()
            } else {
                old(p).expected()
            },
            p.log() + items_entries(p.tokens(), p.cursor(), p.expected()) == opened + all,
        decreases p.tokens().len() - p.cursor(),
    {
        let ghost before = p.log();
        let ghost entries = item_entries(p.tokens(), p.cursor(), p.expected());
        let ghost rest = items_entries(p.tokens(), p.cursor() + 1, Seq::empty());
        item(p);
        assert(p.log() + rest =~= before + (entries + rest));
    }
    assert(p.log() =~= opened + all);
    let done = m.complete(p, SyntaxKind::Root);
    assert(p.log() =~= old(p).log() + root_entries(
        old(p).tokens(),
        old(p).cursor(),
        old(p).expected(),
    ));
    done
}

} // verus!
