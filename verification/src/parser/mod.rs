//! The parser engine: the primitives that grammar rules drive.

pub mod marker;

use vstd::prelude::*;
use crate::event::{
    diagnostics, event_log, is_complete, lemma_diagnostics_concat, lemma_event_log_push, Event,
    EventView, ParseError, ParseErrorView,
};
use crate::grammar::{lemma_root_entries_complete, root, root_entries};
use crate::log_steps::{lemma_pushed_well_formed, resolvable};
use crate::nesting::lemma_balanced_empty;
use crate::replay::well_formed;
use crate::source::{kind_at, last_range, token_at, Source};
use crate::syntax::{is_recovery_kind, SyntaxKind, TextRange, Token, RECOVERY_SET};
use self::marker::{CompletedMarker, Marker};

verus! {

/// The state of one parse: the token source, the event log written so far,
/// and the kinds probed for since the last token was consumed.
pub struct Parser<'t> {
    source: Source<'t>,
    events: Vec<Event>,
    expected_kinds: Vec<SyntaxKind>,
}

/// The diagnostic that an error at `cursor` records: what was expected,
/// the kind and range of the current token, or at the end of the input no
/// kind and the range of the last token. An input without any token has no
/// last token; the range is then the empty range at position zero.
pub open spec fn error_report(
    tokens: Seq<Token>,
    cursor: int,
    expected: Seq<SyntaxKind>,
) -> ParseErrorView {
    match token_at(tokens, cursor) {
        Some(token) => ParseErrorView { expected, found: Some(token.kind), range: token.range },
        None => ParseErrorView {
            expected,
            found: None,
            range: match last_range(tokens) {
                Some(range) => range,
                None => TextRange::spec_empty(),
            },
        },
    }
}

/// Whether an error at `cursor` wraps the current token in an error node:
/// there is a current token, and it is not a recovery point.
pub open spec fn error_consumes(tokens: Seq<Token>, cursor: int) -> bool {
    match kind_at(tokens, cursor) {
        Some(kind) => !is_recovery_kind(kind),
        None => false,
    }
}

/// The cursor after an error at `cursor`: one token further if the error
/// wraps a token, else where it was.
pub open spec fn cursor_after_error(tokens: Seq<Token>, cursor: int) -> int {
    if error_consumes(tokens, cursor) {
        cursor + 1
    } else {
        cursor
    }
}

/// The entries that an error at `cursor` appends to the log: the
/// diagnostic, then an error node around one token if the error wraps one.
pub open spec fn error_entries(
    tokens: Seq<Token>,
    cursor: int,
    expected: Seq<SyntaxKind>,
) -> Seq<EventView> {
    let report = seq![EventView::Error(error_report(tokens, cursor, expected))];
    if error_consumes(tokens, cursor) {
        report + seq![
            EventView::StartNode { kind: SyntaxKind::Error },
            EventView::AddToken,
            EventView::Finish,
        ]
    } else {
        report
    }
}

/// An error records exactly one diagnostic.
pub proof fn lemma_error_entries_diagnostics(
    log: Seq<EventView>,
    tokens: Seq<Token>,
    cursor: int,
    expected: Seq<SyntaxKind>,
)
    ensures
        diagnostics(log + error_entries(tokens, cursor, expected)) == diagnostics(log).push(
            error_report(tokens, cursor, expected),
        ),
{
    let entries = error_entries(tokens, cursor, expected);
    let report = error_report(tokens, cursor, expected);
    lemma_diagnostics_concat(log, entries);
    reveal_with_fuel(diagnostics, 5);
    assert(seq![EventView::Error(report)].drop_last() =~= Seq::<EventView>::empty());
    if error_consumes(tokens, cursor) {
        let d3 = entries.drop_last();
        let d2 = d3.drop_last();
        let d1 = d2.drop_last();
        assert(d1 =~= seq![EventView::Error(report)]);
    }
    assert(diagnostics(entries) =~= seq![report]);
    assert(diagnostics(log) + seq![report] =~= diagnostics(log).push(report));
}

/// The cursor after `n` errors in a row, starting at `cursor`.
pub open spec fn cursor_after_errors(tokens: Seq<Token>, cursor: int, n: nat) -> int
    decreases n,
{
    if n == 0 {
        cursor
    } else {
        cursor_after_error(tokens, cursor_after_errors(tokens, cursor, (n - 1) as nat))
    }
}

/// Error recovery makes progress and comes to rest. However many errors
/// follow one another, the cursor only moves forward and stays within the
/// input, so no more tokens are wrapped than were left. Once an error has
/// wrapped no token, none after it does. And once as many errors were
/// recorded as tokens were left, the parser stands at the end of the input
/// or at a recovery point, where a further error moves nothing.
pub proof fn lemma_error_recovery_terminates(tokens: Seq<Token>, cursor: int, n: nat)
    requires
        0 <= cursor <= tokens.len(),
    ensures
        cursor <= cursor_after_errors(tokens, cursor, n) <= tokens.len(),
        cursor_after_errors(tokens, cursor, n) <= cursor + n,
        cursor_after_errors(tokens, cursor, n) < cursor + n ==> !error_consumes(
            tokens,
            cursor_after_errors(tokens, cursor, n),
        ),
        n >= tokens.len() - cursor ==> !error_consumes(
            tokens,
            cursor_after_errors(tokens, cursor, n),
        ),
    decreases n,
{
    if n > 0 {
        lemma_error_recovery_terminates(tokens, cursor, (n - 1) as nat);
    }
}

impl<'t> Parser<'t> {
    /// The event log written so far.
    pub closed spec fn log(&self) -> Seq<EventView> {
        event_log(self.events@)
    }

    /// The kinds probed for since the last token was consumed, in order.
    pub closed spec fn expected(&self) -> Seq<SyntaxKind> {
        self.expected_kinds@
    }

    /// All tokens of the input.
    pub closed spec fn tokens(&self) -> Seq<Token> {
        self.source.tokens()
    }

    /// How many tokens have been consumed.
    pub closed spec fn cursor(&self) -> int {
        self.source.cursor()
    }

    /// The current token, or `None` at the end of the input.
    pub open spec fn current(&self) -> Option<Token> {
        token_at(self.tokens(), self.cursor())
    }

    /// The kind of the current token, or `None` at the end of the input.
    pub open spec fn current_kind(&self) -> Option<SyntaxKind> {
        kind_at(self.tokens(), self.cursor())
    }

    /// The cursor is within the input and the log replays without error.
    pub open spec fn wf(&self) -> bool {
        &&& 0 <= self.cursor() <= self.tokens().len()
        &&& well_formed(self.log())
    }

    /// `m` is open in this parser: its placeholder is still in the log.
    pub open spec fn is_open(&self, m: Marker) -> bool {
        resolvable(self.log(), m.pos(), m.target())
    }

    /// `done` names a node of this parser's log: a `StartNode` is recorded
    /// at its position.
    pub open spec fn is_completed(&self, done: CompletedMarker) -> bool {
        0 <= done.pos() < self.log().len() && self.log()[done.pos()] is StartNode
    }

    /// A parser at the start of its work: nothing logged, nothing expected.
    pub fn new(source: Source<'t>) -> (p: Self)
        requires
            source.wf(),
        ensures
            p.wf(),
            p.log() == Seq::<EventView>::empty(),
            p.expected() == Seq::<SyntaxKind>::empty(),
            p.tokens() == source.tokens(),
            p.cursor() == source.cursor(),
    {
        let p = Parser { source, events: Vec::new(), expected_kinds: Vec::new() };
        proof {
            assert(p.log() =~= Seq::<EventView>::empty());
            lemma_balanced_empty();
        }
        p
    }

    /// Runs the root rule over the input and hands out the finished log.
    pub fn parse(self) -> (events: Vec<Event>)
        requires
            self.wf(),
        ensures
            event_log(events@) == self.log() + root_entries(
                self.tokens(),
                self.cursor(),
                self.expected(),
            ),
            well_formed(event_log(events@)),
            is_complete(self.log()) ==> is_complete(event_log(events@)),
    {
        let mut p = self;
        let _ = root(&mut p);
        proof {
            lemma_root_entries_complete(self.tokens(), self.cursor(), self.expected());
        }
        p.finish()
    }

    /// Ends the parse and hands out the log as it stands.
    pub fn finish(self) -> (events: Vec<Event>)
        ensures
            event_log(events@) == self.log(),
    {
        self.events
    }

    /// Opens a node whose kind is decided later.
    pub fn start(&mut self) -> (m: Marker)
        requires
            old(self).wf(),
        ensures
            final(self).wf(),
            final(self).log() == old(self).log().push(EventView::Placeholder),
            final(self).expected() == old(self).expected(),
            final(self).tokens() == old(self).tokens(),
            final(self).cursor() == old(self).cursor(),
            m.pos() == old(self).log().len(),
            m.target() is None,
            final(self).is_open(m),
    {
        let pos = self.events.len();
        proof {
            lemma_event_log_push(self.events@, Event::Placeholder);
            lemma_pushed_well_formed(self.log(), EventView::Placeholder);
        }
        self.events.push(Event::Placeholder);
        Marker::new(pos)
    }

    /// Consumes the current token into the innermost open node and forgets
    /// the kinds probed for so far.
    pub fn bump(&mut self)
        requires
            old(self).wf(),
            old(self).current() is Some,
        ensures
            final(self).wf(),
            final(self).log() == old(self).log().push(EventView::AddToken),
            final(self).expected() == Seq::<SyntaxKind>::empty(),
            final(self).tokens() == old(self).tokens(),
            final(self).cursor() == old(self).cursor() + 1,
    {
        self.expected_kinds.clear();
        let _ = self.source.next_token();
        proof {
            lemma_event_log_push(self.events@, Event::AddToken);
            lemma_pushed_well_formed(self.log(), EventView::AddToken);
        }
        self.events.push(Event::AddToken);
    }

    /// Consumes the current token if it is of the kind `kind`, and records
    /// an error otherwise.
    pub fn expect(&mut self, kind: SyntaxKind)
        requires
            old(self).wf(),
        ensures
            final(self).wf(),
            final(self).tokens() == old(self).tokens(),
            final(self).expected() == Seq::<SyntaxKind>::empty(),
            old(self).current_kind() == Some(kind) ==> {
                &&& final(self).log() == old(self).log().push(EventView::AddToken)
                &&& final(self).cursor() == old(self).cursor() + 1
            },
            old(self).current_kind() != Some(kind) ==> {
                &&& final(self).log() == old(self).log() + error_entries(
                    old(self).tokens(),
                    old(self).cursor(),
                    old(self).expected().push(kind),
                )
                &&& final(self).cursor() == cursor_after_error(
                    old(self).tokens(),
                    old(self).cursor(),
                )
                &&& diagnostics(final(self).log()) == diagnostics(old(self).log()).push(
                    error_report(
                        old(self).tokens(),
                        old(self).cursor(),
                        old(self).expected().push(kind),
                    ),
                )
            },
    {
        if self.at(kind) {
            self.bump();
        } else {
            self.error();
        }
    }

    /// Records a diagnostic for the current position and recovers.
    ///
    /// The diagnostic takes over the kinds probed for so far. Unless the
    /// input is exhausted or the current token is a recovery point, exactly
    /// one token is then wrapped in an error node; otherwise no token is
    /// consumed and the caller decides how to go on.
    pub fn error(&mut self)
        requires
            old(self).wf(),
        ensures
            final(self).wf(),
            final(self).tokens() == old(self).tokens(),
            final(self).expected() == Seq::<SyntaxKind>::empty(),
            final(self).log() == old(self).log() + error_entries(
                old(self).tokens(),
                old(self).cursor(),
                old(self).expected(),
            ),
            final(self).cursor() == cursor_after_error(old(self).tokens(), old(self).cursor()),
            diagnostics(final(self).log()) == diagnostics(old(self).log()).push(
                error_report(old(self).tokens(), old(self).cursor(), old(self).expected()),
            ),
    {
        proof {
            lemma_error_entries_diagnostics(
                self.log(),
                self.tokens(),
                self.cursor(),
                self.expected(),
            );
        }
        let (found, range) = match self.source.peek_token() {
            Some(token) => (Some(token.kind), token.range),
            None => match self.source.last_token_range() {
                Some(range) => (None, range),
                None => (None, TextRange::empty()),
            },
        };
        let mut expected: Vec<SyntaxKind> = Vec::new();
        std::mem::swap(&mut expected, &mut self.expected_kinds);
        let error = Event::Error(ParseError { expected, found, range });
        proof {
            lemma_event_log_push(self.events@, error);
            lemma_pushed_well_formed(self.log(), error@);
        }
        self.events.push(error);
        let ghost reported = self.log();
        assert(reported =~= old(self).log() + seq![
            EventView::Error(
                error_report(old(self).tokens(), old(self).cursor(), old(self).expected()),
            ),
        ]);

        if !self.at_set(&RECOVERY_SET) && !self.at_end() {
            let m = self.start();
            self.bump();
            let _ = m.complete(self, SyntaxKind::Error);
            assert(self.log() =~= reported + seq![
                EventView::StartNode { kind: SyntaxKind::Error },
                EventView::AddToken,
                EventView::Finish,
            ]);
        }
        assert(self.log() =~= old(self).log() + error_entries(
            old(self).tokens(),
            old(self).cursor(),
            old(self).expected(),
        ));
    }

    /// Whether the current token is of the kind `kind`. The kind is
    /// remembered as one the parser was looking for here.
    pub fn at(&mut self, kind: SyntaxKind) -> (r: bool)
        ensures
            r == (old(self).current_kind() == Some(kind)),
            final(self).expected() == old(self).expected().push(kind),
            final(self).log() == old(self).log(),
            final(self).tokens() == old(self).tokens(),
            final(self).cursor() == old(self).cursor(),
    {
        self.expected_kinds.push(kind);
        match self.peek() {
            Some(k) => k == kind,
            None => false,
        }
    }

    /// Whether the current token is of one of the kinds in `set`.
    pub fn at_set(&self, set: &[SyntaxKind]) -> (r: bool)
        ensures
            r == match self.current_kind() {
                Some(kind) => set@.contains(kind),
                None => false,
            },
    {
        match self.peek() {
            Some(kind) => {
                let mut i: usize = 0;
                while i < set.len()
                    invariant
                        i <= set.len(),
                        self.current_kind() == Some(kind),
                        forall|j: int| 0 <= j < i ==> set@[j] != kind,
                    decreases set.len() - i,
                {
                    if set[i] == kind {
                        assert(set@[i as int] == kind);
                        return true;
                    }
                    i = i + 1;
                }
                false
            },
            None => false,
        }
    }

    /// Whether the input is exhausted.
    pub fn at_end(&self) -> (r: bool)
        ensures
            r == (self.current() is None),
    {
        self.peek().is_none()
    }

    /// The kind of the current token, or `None` at the end of the input.
    pub fn peek(&self) -> (r: Option<SyntaxKind>)
        ensures
            r == self.current_kind(),
    {
        self.source.peek_kind()
    }
}

} // verus!
