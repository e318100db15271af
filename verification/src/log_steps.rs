//! How the operations on a log change the steps of its replay.

use vstd::prelude::*;
use crate::event::EventView;
use crate::nesting::{lemma_balanced_push_token, lemma_balanced_wrap};
use crate::replay::{
    balanced, encloses, own_steps, steps, steps_at, steps_upto, targets_resolved, well_formed,
    wrapper_of, wrappers_from, Step,
};
use crate::syntax::SyntaxKind;

verus! {

/// The entry that a placeholder turns into when its node gets the kind
/// `kind`: a plain start, or a start placed at the earlier position `target`.
pub open spec fn resolved_start(kind: SyntaxKind, target: Option<int>) -> EventView {
    match target {
        None => EventView::StartNode { kind },
        Some(t) => EventView::StartNodeAt { kind, target: t },
    }
}

/// The log after the placeholder at `pos` got its kind and its node was
/// closed at the end.
pub open spec fn completed(
    log: Seq<EventView>,
    pos: int,
    kind: SyntaxKind,
    target: Option<int>,
) -> Seq<EventView> {
    log.update(pos, resolved_start(kind, target)).push(EventView::Finish)
}

/// Where in the steps of `log` the open of a node lands once the
/// placeholder at `pos` is resolved.
pub open spec fn open_offset(log: Seq<EventView>, pos: int, target: Option<int>) -> int {
    match target {
        None => (steps_upto(log, pos).len() + wrappers_from(log, pos, 0).len()) as int,
        Some(t) => (steps_upto(log, t).len() + wrappers_from(log, t, pos + 1).len()) as int,
    }
}

/// A placeholder at `pos` that may be resolved: it is in the log, and its
/// target, if it has one, is an earlier node start.
pub open spec fn resolvable(log: Seq<EventView>, pos: int, target: Option<int>) -> bool {
    &&& 0 <= pos < log.len()
    &&& log[pos] is Placeholder
    &&& target matches Some(t) ==> 0 <= t < pos && log[t] is StartNode
}

/// Logs that agree from `j` on in what they place at `t` have the same
/// wrappers from `j` on.
proof fn lemma_wrappers_agree(a: Seq<EventView>, b: Seq<EventView>, t: int, j: int)
    requires
        a.len() == b.len(),
        forall|i: int| j <= i < a.len() && 0 <= i ==> wrapper_of(a[i], t) == wrapper_of(b[i], t),
    ensures
        wrappers_from(a, t, j) == wrappers_from(b, t, j),
    decreases a.len() - j,
{
    if 0 <= j < a.len() {
        lemma_wrappers_agree(a, b, t, j + 1);
    }
}

/// Where no entry from `j` on places anything at `t`, there are no wrappers.
proof fn lemma_no_wrappers(log: Seq<EventView>, t: int, j: int)
    requires
        forall|i: int| j <= i < log.len() && 0 <= i ==> wrapper_of(log[i], t).len() == 0,
    ensures
        wrappers_from(log, t, j) =~= Seq::<Step>::empty(),
    decreases log.len() - j,
{
    if 0 <= j < log.len() {
        lemma_no_wrappers(log, t, j + 1);
    }
}

/// An appended entry that places nothing at `t` leaves the wrappers of `t`
/// as they were.
proof fn lemma_wrappers_push(log: Seq<EventView>, e: EventView, t: int, j: int)
    requires
        0 <= j <= log.len(),
        wrapper_of(e, t).len() == 0,
    ensures
        wrappers_from(log.push(e), t, j) =~= wrappers_from(log, t, j),
    decreases log.len() - j,
{
    let ext = log.push(e);
    if j < log.len() {
        lemma_wrappers_push(log, e, t, j + 1);
        assert(ext[j] == log[j]);
    } else {
        assert(wrappers_from(ext, t, j + 1) =~= Seq::<Step>::empty());
    }
}

/// Turning the entry at `q`, which placed nothing at `t`, into a start
/// placed at `t` adds one open to the wrappers of `t`, inside those that
/// were recorded after `q`.
proof fn lemma_wrappers_resolve(log: Seq<EventView>, q: int, kind: SyntaxKind, t: int, j: int)
    requires
        0 <= j <= q < log.len(),
        wrapper_of(log[q], t).len() == 0,
    ensures
        wrappers_from(log.update(q, EventView::StartNodeAt { kind, target: t }), t, j)
            =~= wrappers_from(log, t, j).insert(
            wrappers_from(log, t, q + 1).len() as int,
            Step::Open(kind),
        ),
        wrappers_from(log, t, q + 1).len() <= wrappers_from(log, t, j).len(),
    decreases q - j,
{
    let next = log.update(q, EventView::StartNodeAt { kind, target: t });
    if j == q {
        lemma_wrappers_agree(log, next, t, q + 1);
        assert(wrapper_of(log[q], t) =~= Seq::<Step>::empty());
    } else {
        lemma_wrappers_resolve(log, q, kind, t, j + 1);
        assert(next[j] == log[j]);
    }
}

/// The steps before `k` are a prefix of the steps before any later `m`.
pub proof fn lemma_steps_upto_prefix(log: Seq<EventView>, k: int, m: int)
    requires
        0 <= k <= m,
    ensures
        steps_upto(log, k).len() <= steps_upto(log, m).len(),
        steps_upto(log, m).take(steps_upto(log, k).len() as int) =~= steps_upto(log, k),
    decreases m - k,
{
    if k < m {
        lemma_steps_upto_prefix(log, k, m - 1);
    }
}

/// Logs with the same steps at every position before `k` have the same
/// steps up to `k`.
proof fn lemma_steps_upto_agree(a: Seq<EventView>, b: Seq<EventView>, k: int)
    requires
        forall|i: int| 0 <= i < k ==> steps_at(a, i) == steps_at(b, i),
    ensures
        steps_upto(a, k) == steps_upto(b, k),
    decreases k,
{
    if k > 0 {
        lemma_steps_upto_agree(a, b, k - 1);
    }
}

/// Where two logs differ only in that `b` has one more step `x` at position
/// `c`, the steps of `b` are those of `a` with `x` inserted.
proof fn lemma_steps_upto_insert(
    a: Seq<EventView>,
    b: Seq<EventView>,
    c: int,
    r: int,
    x: Step,
    k: int,
)
    requires
        0 <= c < k,
        0 <= r <= steps_at(a, c).len(),
        steps_at(b, c) == steps_at(a, c).insert(r, x),
        forall|i: int| 0 <= i < k && i != c ==> steps_at(a, i) == steps_at(b, i),
    ensures
        steps_upto(b, k) =~= steps_upto(a, k).insert(steps_upto(a, c).len() + r, x),
        steps_upto(a, c).len() + r <= steps_upto(a, k).len(),
    decreases k,
{
    if k == c + 1 {
        lemma_steps_upto_agree(a, b, c);
    } else {
        lemma_steps_upto_insert(a, b, c, r, x, k - 1);
    }
}

/// Appending an entry that starts no node appends that entry's own steps
/// and leaves the rest of the replay as it was.
pub proof fn lemma_steps_push(log: Seq<EventView>, e: EventView)
    requires
        targets_resolved(log),
        !(e is StartNodeAt),
        !(e is StartNode),
    ensures
        steps(log.push(e)) =~= steps(log) + own_steps(e),
        targets_resolved(log.push(e)),
{
    let ext = log.push(e);
    let n = log.len() as int;
    assert forall|i: int| 0 <= i < n implies steps_at(log, i) == steps_at(ext, i) by {
        lemma_wrappers_push(log, e, i, 0);
        assert(ext[i] == log[i]);
    }
    lemma_steps_upto_agree(log, ext, n);
    assert forall|i: int| 0 <= i < ext.len() implies wrapper_of(#[trigger] ext[i], n).len()
        == 0 by {
        if i < n {
            assert(ext[i] == log[i]);
        }
    }
    lemma_no_wrappers(ext, n, 0);
    assert(steps_at(ext, n) =~= own_steps(e));
    assert forall|j: int| 0 <= j < ext.len() implies (#[trigger] ext[j] matches EventView::StartNodeAt {
        target,
        ..
    } ==> 0 <= target < j && ext[target] is StartNode) by {
        if j < n {
            assert(ext[j] == log[j]);
        }
    }
}

/// Resolving a placeholder adds one open to the replay, at `open_offset`,
/// and changes nothing else.
pub proof fn lemma_steps_resolve(
    log: Seq<EventView>,
    pos: int,
    kind: SyntaxKind,
    target: Option<int>,
)
    requires
        targets_resolved(log),
        resolvable(log, pos, target),
    ensures
        0 <= open_offset(log, pos, target) <= steps(log).len(),
        steps(log.update(pos, resolved_start(kind, target))) =~= steps(log).insert(
            open_offset(log, pos, target),
            Step::Open(kind),
        ),
        targets_resolved(log.update(pos, resolved_start(kind, target))),
{
    let next = log.update(pos, resolved_start(kind, target));
    let n = log.len() as int;
    let open = Step::Open(kind);
    assert forall|j: int| 0 <= j < next.len() implies (#[trigger] next[j] matches EventView::StartNodeAt {
        target,
        ..
    } ==> 0 <= target < j && next[target] is StartNode) by {
        if j != pos {
            assert(next[j] == log[j]);
        }
    }
    match target {
        None => {
            let r = wrappers_from(log, pos, 0).len() as int;
            assert forall|i: int| 0 <= i < n implies wrappers_from(log, i, 0) == wrappers_from(
                next,
                i,
                0,
            ) by {
                lemma_wrappers_agree(log, next, i, 0);
            }
            assert(steps_at(next, pos) =~= steps_at(log, pos).insert(r, open));
            lemma_steps_upto_insert(log, next, pos, r, open, n);
        },
        Some(t) => {
            let r = wrappers_from(log, t, pos + 1).len() as int;
            assert forall|i: int| 0 <= i < n && i != t implies steps_at(log, i) == steps_at(
                next,
                i,
            ) by {
                lemma_wrappers_agree(log, next, i, 0);
            }
            lemma_wrappers_resolve(log, pos, kind, t, 0);
            assert(steps_at(next, t) =~= steps_at(log, t).insert(r, open));
            lemma_steps_upto_insert(log, next, t, r, open, n);
        },
    }
}

/// Completing a node keeps a log well formed: its replay gains one open, at
/// `open_offset`, and one close at the end.
pub proof fn lemma_completed_well_formed(
    log: Seq<EventView>,
    pos: int,
    kind: SyntaxKind,
    target: Option<int>,
)
    requires
        well_formed(log),
        resolvable(log, pos, target),
    ensures
        well_formed(completed(log, pos, kind, target)),
        steps(completed(log, pos, kind, target)) =~= steps(log).insert(
            open_offset(log, pos, target),
            Step::Open(kind),
        ).push(Step::Close),
{
    lemma_steps_resolve(log, pos, kind, target);
    let next = log.update(pos, resolved_start(kind, target));
    lemma_steps_push(next, EventView::Finish);
    assert(steps(next) + own_steps(EventView::Finish) =~= steps(next).push(Step::Close));
    lemma_balanced_wrap(steps(log), open_offset(log, pos, target), kind);
}

/// Wrapping a completed node. Let a node start at `start`, let a marker
/// that precedes it hold the placeholder at `pos`, and let no other wrapper
/// of that node have been recorded since. Completing the marker with `kind`
/// then changes the replay in exactly two places: the new node is opened
/// where the old one used to start, just outside it, and it is closed at the
/// very end. Every step from the old node's start up to the completion lies
/// between the two; where those steps are well nested, the new node's close
/// answers its open, so all of them are inside the new node.
pub proof fn lemma_precede_wraps(log: Seq<EventView>, pos: int, start: int, kind: SyntaxKind)
    requires
        well_formed(log),
        resolvable(log, pos, Some(start)),
        forall|j: int| pos < j < log.len() ==> wrapper_of(#[trigger] log[j], start).len() == 0,
    ensures
        well_formed(completed(log, pos, kind, Some(start))),
        steps_upto(log, start).len() <= steps(log).len(),
        steps(log).take(steps_upto(log, start).len() as int) == steps_upto(log, start),
        steps(completed(log, pos, kind, Some(start))) == steps_upto(log, start) + seq![
            Step::Open(kind),
        ] + steps(log).skip(steps_upto(log, start).len() as int) + seq![Step::Close],
        balanced(steps(log).skip(steps_upto(log, start).len() as int)) ==> encloses(
            steps(completed(log, pos, kind, Some(start))),
            steps_upto(log, start).len() as int,
            (steps(log).len() + 1) as int,
        ),
{
    let off = steps_upto(log, start).len() as int;
    let before = steps(log);
    let after = steps(completed(log, pos, kind, Some(start)));
    lemma_no_wrappers(log, start, pos + 1);
    lemma_steps_upto_prefix(log, start, log.len() as int);
    lemma_completed_well_formed(log, pos, kind, Some(start));
    assert(open_offset(log, pos, Some(start)) == off);
    assert(after =~= before.take(off) + seq![Step::Open(kind)] + before.skip(off) + seq![
        Step::Close,
    ]);
    assert(after.subrange(off + 1, (before.len() + 1) as int) =~= before.skip(off));
}

/// Appending a placeholder, a token or a diagnostic keeps a log well formed.
pub proof fn lemma_pushed_well_formed(log: Seq<EventView>, e: EventView)
    requires
        well_formed(log),
        e is Placeholder || e is AddToken || e is Error,
    ensures
        well_formed(log.push(e)),
        steps(log.push(e)) =~= steps(log) + own_steps(e),
{
    lemma_steps_push(log, e);
    if e is AddToken {
        lemma_balanced_push_token(steps(log));
        assert(steps(log) + own_steps(e) =~= steps(log).push(Step::Token));
    } else {
        assert(steps(log) + own_steps(e) =~= steps(log));
    }
}

} // verus!
