//! Markers: handles to nodes that are open or already completed.

use vstd::prelude::*;
use crate::event::{lemma_event_log_push, lemma_event_log_update, Event, EventView};
use crate::log_steps::{
    completed, lemma_completed_well_formed, lemma_pushed_well_formed, open_offset,
};
use crate::parser::Parser;
use crate::replay::{steps, Step};
use crate::syntax::SyntaxKind;

verus! {

/// A handle to an open node: the position of its placeholder and, for a
/// node that wraps an earlier one, the position where it starts.
pub struct Marker {
    pos: usize,
    target: Option<usize>,
}

impl Marker {
    /// The position of the placeholder in the log.
    pub closed spec fn pos(&self) -> int {
        self.pos as int
    }

    /// The earlier position at which the node starts, if it wraps a node.
    pub closed spec fn target(&self) -> Option<int> {
        match self.target {
            Some(t) => Some(t as int),
            None => None,
        }
    }

    /// The marker of a placeholder at `pos` that wraps nothing.
    pub(crate) fn new(pos: usize) -> (m: Marker)
        ensures
            m.pos() == pos,
            m.target() is None,
    {
        Marker { pos, target: None }
    }

    /// Gives the node its kind and closes it at the current end of the log.
    ///
    /// The placeholder becomes the node's start, placed at the marker's
    /// target if it has one, and a `Finish` is appended. The handle that
    /// comes back names the position where the node starts.
    pub fn complete(self, p: &mut Parser, kind: SyntaxKind) -> (done: CompletedMarker)
        requires
            old(p).wf(),
            old(p).is_open(self),
        ensures
            final(p).wf(),
            final(p).log() == completed(old(p).log(), self.pos(), kind, self.target()),
            steps(final(p).log()) == steps(old(p).log()).insert(
                open_offset(old(p).log(), self.pos(), self.target()),
                Step::Open(kind),
            ).push(Step::Close),
            final(p).expected() == old(p).expected(),
            final(p).tokens() == old(p).tokens(),
            final(p).cursor() == old(p).cursor(),
            done.pos() == match self.target() {
                Some(t) => t,
                None => self.pos(),
            },
            final(p).is_completed(done),
    {
        let (event, start) = match self.target {
            Some(target) => (Event::StartNodeAt { kind, target }, target),
            None => (Event::StartNode { kind }, self.pos),
        };
        proof {
            lemma_event_log_update(p.events@, self.pos as int, event);
            lemma_event_log_push(p.events@.update(self.pos as int, event), Event::Finish);
            lemma_completed_well_formed(p.log(), self.pos(), kind, self.target());
        }
        p.events.set(self.pos, event);
        p.events.push(Event::Finish);
        CompletedMarker { pos: start }
    }
}

/// A handle to a completed node: the position in the log where it starts.
pub struct CompletedMarker {
    pos: usize,
}

impl CompletedMarker {
    /// The position at which the node starts.
    pub closed spec fn pos(&self) -> int {
        self.pos as int
    }

    /// Opens a new node that starts where this one starts, so that this node
    /// and everything recorded after it become children of the new node.
    ///
    /// Nothing already in the log is touched: a placeholder is appended, and
    /// the marker remembers where its node is to start.
    pub fn precede(self, p: &mut Parser) -> (m: Marker)
        requires
            old(p).wf(),
            old(p).is_completed(self),
        ensures
            final(p).wf(),
            final(p).log() == old(p).log().push(EventView::Placeholder),
            final(p).expected() == old(p).expected(),
            final(p).tokens() == old(p).tokens(),
            final(p).cursor() == old(p).cursor(),
            m.pos() == old(p).log().len(),
            m.target() == Some(self.pos()),
            final(p).is_open(m),
    {
        let pos = p.events.len();
        proof {
            lemma_event_log_push(p.events@, Event::Placeholder);
            lemma_pushed_well_formed(p.log(), EventView::Placeholder);
        }
        p.events.push(Event::Placeholder);
        Marker { pos, target: Some(self.pos) }
    }
}

} // verus!
