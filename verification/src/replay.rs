//! What a log means to the tree builder that replays it.
//!
//! Replaying walks the log from its first entry to its last. Before it handles
//! the entry at position `t` it opens every node that starts there: first the
//! nodes that a later `StartNodeAt` placed at `t`, the one recorded last
//! outermost, then the node of a `StartNode` at `t` itself. `AddToken` attaches
//! a token, `Finish` closes the innermost open node. This module writes that
//! walk down as a sequence of steps and says when such a sequence is well
//! nested.

use vstd::prelude::*;
use crate::event::EventView;
use crate::syntax::SyntaxKind;

verus! {

/// One structural action of the tree builder.
pub enum Step {
    Open(SyntaxKind),
    Token,
    Close,
}

/// The change in the number of open nodes that a step makes.
pub open spec fn delta(step: Step) -> int {
    match step {
        Step::Open(_) => 1,
        Step::Token => 0,
        Step::Close => -1,
    }
}

/// The number of nodes left open after `steps`.
pub open spec fn depth(steps: Seq<Step>) -> int
    decreases steps.len(),
{
    if steps.len() == 0 {
        0
    } else {
        depth(steps.drop_last()) + delta(steps.last())
    }
}

/// No prefix of `steps` closes more nodes than it has opened.
pub open spec fn never_underflows(steps: Seq<Step>) -> bool {
    forall|k: int| 0 <= k <= steps.len() ==> depth(#[trigger] steps.take(k)) >= 0
}

/// `steps` is a well-nested bracketing: it never closes a node that is not
/// open, and it leaves none open.
pub open spec fn balanced(steps: Seq<Step>) -> bool {
    never_underflows(steps) && depth(steps) == 0
}

/// The open at `i` and the close at `j` enclose a well-nested run of steps,
/// so a stack-based replay closes at `j` the node it opened at `i`.
pub open spec fn encloses(steps: Seq<Step>, i: int, j: int) -> bool {
    &&& 0 <= i < j < steps.len()
    &&& steps[i] is Open
    &&& steps[j] is Close
    &&& balanced(steps.subrange(i + 1, j))
}

/// The open that the entry `e` places at position `t`, if it is a
/// `StartNodeAt` with that target.
pub open spec fn wrapper_of(e: EventView, t: int) -> Seq<Step> {
    match e {
        EventView::StartNodeAt { kind, target } => if target == t {
            seq![Step::Open(kind)]
        } else {
            Seq::empty()
        },
        _ => Seq::empty(),
    }
}

/// The opens that the entries of `log` from position `j` on place at
/// position `t`, the one recorded last first.
pub open spec fn wrappers_from(log: Seq<EventView>, t: int, j: int) -> Seq<Step>
    decreases log.len() - j,
{
    if j < 0 || j >= log.len() {
        Seq::empty()
    } else {
        wrappers_from(log, t, j + 1) + wrapper_of(log[j], t)
    }
}

/// The steps of the entry `e` at its own position.
pub open spec fn own_steps(e: EventView) -> Seq<Step> {
    match e {
        EventView::StartNode { kind } => seq![Step::Open(kind)],
        EventView::AddToken => seq![Step::Token],
        EventView::Finish => seq![Step::Close],
        _ => Seq::empty(),
    }
}

/// Everything the tree builder does at position `i`.
pub open spec fn steps_at(log: Seq<EventView>, i: int) -> Seq<Step> {
    wrappers_from(log, i, 0) + own_steps(log[i])
}

/// The steps of the positions before `k`.
pub open spec fn steps_upto(log: Seq<EventView>, k: int) -> Seq<Step>
    decreases k,
{
    if k <= 0 {
        Seq::empty()
    } else {
        steps_upto(log, k - 1) + steps_at(log, k - 1)
    }
}

/// The steps of replaying the whole log.
pub open spec fn steps(log: Seq<EventView>) -> Seq<Step> {
    steps_upto(log, log.len() as int)
}

/// Every `StartNodeAt` points back to an earlier `StartNode`.
pub open spec fn targets_resolved(log: Seq<EventView>) -> bool {
    forall|j: int|
        0 <= j < log.len() ==> (#[trigger] log[j] matches EventView::StartNodeAt { target, .. }
            ==> 0 <= target < j && log[target] is StartNode)
}

/// A log that replays without error: targets point back to node starts and
/// the steps are well nested.
pub open spec fn well_formed(log: Seq<EventView>) -> bool {
    targets_resolved(log) && balanced(steps(log))
}

} // verus!
