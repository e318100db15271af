//! The event log: what the parser writes and the tree builder later replays.

use vstd::prelude::*;
use crate::syntax::{SyntaxKind, TextRange};

verus! {

/// A recorded parse error.
#[derive(Clone, Debug, PartialEq, Eq)]
pub struct ParseError {
    /// The kinds the parser was looking for, in the order it probed them.
    pub expected: Vec<SyntaxKind>,
    /// The kind of the offending token, or `None` at the end of the input.
    pub found: Option<SyntaxKind>,
    /// The span of the offending token; at the end of the input, the span of
    /// the last token, or the empty range if the input held no token at all.
    pub range: TextRange,
}

/// The mathematical content of a [`ParseError`].
pub struct ParseErrorView {
    pub expected: Seq<SyntaxKind>,
    pub found: Option<SyntaxKind>,
    pub range: TextRange,
}

impl View for ParseError {
    type V = ParseErrorView;

    open spec fn view(&self) -> ParseErrorView {
        ParseErrorView { expected: self.expected@, found: self.found, range: self.range }
    }
}

/// One entry of the event log.
#[derive(Clone, Debug, PartialEq, Eq)]
pub enum Event {
    /// A node start whose kind is not known yet.
    Placeholder,
    /// A node that starts at this entry.
    StartNode { kind: SyntaxKind },
    /// A node that starts just before the entry at `target`, an earlier
    /// position of the log, and so wraps everything from there on.
    StartNodeAt { kind: SyntaxKind, target: usize },
    /// The current token becomes a child of the innermost open node.
    AddToken,
    /// The innermost open node is closed.
    Finish,
    /// A diagnostic. It neither opens nor closes a node.
    Error(ParseError),
}

/// The mathematical content of an [`Event`].
pub enum EventView {
    Placeholder,
    StartNode { kind: SyntaxKind },
    StartNodeAt { kind: SyntaxKind, target: int },
    AddToken,
    Finish,
    Error(ParseErrorView),
}

impl View for Event {
    type V = EventView;

    open spec fn view(&self) -> EventView {
        match *self {
            Event::Placeholder => EventView::Placeholder,
            Event::StartNode { kind } => EventView::StartNode { kind },
            Event::StartNodeAt { kind, target } => EventView::StartNodeAt {
                kind,
                target: target as int,
            },
            Event::AddToken => EventView::AddToken,
            Event::Finish => EventView::Finish,
            Event::Error(e) => EventView::Error(e@),
        }
    }
}

/// The log that a vector of events stands for.
pub open spec fn event_log(events: Seq<Event>) -> Seq<EventView> {
    events.map_values(|e: Event| e@)
}

/// Appending to a vector of events appends to the log it stands for.
pub proof fn lemma_event_log_push(events: Seq<Event>, e: Event)
    ensures
        event_log(events.push(e)) == event_log(events).push(e@),
{
    assert(event_log(events.push(e)) =~= event_log(events).push(e@));
}

/// Overwriting an event overwrites the entry of the log it stands for.
pub proof fn lemma_event_log_update(events: Seq<Event>, i: int, e: Event)
    requires
        0 <= i < events.len(),
    ensures
        event_log(events.update(i, e)) == event_log(events).update(i, e@),
{
    assert(event_log(events.update(i, e)) =~= event_log(events).update(i, e@));
}

/// A log is complete when no placeholder is left in it.
pub open spec fn is_complete(log: Seq<EventView>) -> bool {
    forall|i: int| 0 <= i < log.len() ==> !(#[trigger] log[i] is Placeholder)
}

/// The diagnostics of a log, in the order they were recorded.
pub open spec fn diagnostics(log: Seq<EventView>) -> Seq<ParseErrorView>
    decreases log.len(),
{
    if log.len() == 0 {
        Seq::empty()
    } else {
        match log.last() {
            EventView::Error(e) => diagnostics(log.drop_last()).push(e),
            _ => diagnostics(log.drop_last()),
        }
    }
}

/// Appending entries appends their diagnostics.
pub proof fn lemma_diagnostics_concat(a: Seq<EventView>, b: Seq<EventView>)
    ensures
        diagnostics(a + b) == diagnostics(a) + diagnostics(b),
    decreases b.len(),
{
    if b.len() == 0 {
        assert(a + b =~= a);
        assert(diagnostics(a) + diagnostics(b) =~= diagnostics(a));
    } else {
        assert((a + b).drop_last() =~= a + b.drop_last());
        lemma_diagnostics_concat(a, b.drop_last());
        match b.last() {
            EventView::Error(e) => {
                assert(diagnostics(a) + diagnostics(b.drop_last()).push(e) =~= (diagnostics(a)
                    + diagnostics(b.drop_last())).push(e));
            },
            _ => {},
        }
    }
}

/// Collects the diagnostics of a log, in the order they were recorded.
pub fn errors<'a>(events: &'a Vec<Event>) -> (found: Vec<&'a ParseError>)
    ensures
        found@.map_values(|e: &ParseError| e@) == diagnostics(event_log(events@)),
{
    let mut found: Vec<&'a ParseError> = Vec::new();
    let mut i: usize = 0;
    assert(event_log(events@).take(0) =~= Seq::<EventView>::empty());
    while i < events.len()
        invariant
            i <= events.len(),
            found@.map_values(|e: &ParseError| e@) == diagnostics(
                event_log(events@).take(i as int),
            ),
        decreases events.len() - i,
    {
        let ghost log = event_log(events@);
        let ghost before = found@;
        assert(log.take(i + 1).drop_last() =~= log.take(i as int));
        match &events[i] {
            Event::Error(e) => {
                found.push(e);
                assert(found@.map_values(|e: &ParseError| e@) =~= before.map_values(
                    |e: &ParseError| e@,
                ).push(e@));
            },
            _ => {},
        }
        i = i + 1;
    }
    assert(event_log(events@).take(i as int) =~= event_log(events@));
    found
}

} // verus!
