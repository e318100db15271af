//! The replay of a log accounts for every entry: it opens one node for each
//! node start in the log and closes one for each `Finish`.

use vstd::prelude::*;
use crate::event::EventView;
use crate::replay::{
    depth, own_steps, steps, steps_at, steps_upto, targets_resolved, well_formed,
    wrapper_of, wrappers_from, Step,
};

verus! {

/// Whether the entry starts a node, at its own position or at an earlier one.
pub open spec fn is_start(e: EventView) -> bool {
    e is StartNode || e is StartNodeAt
}

/// How many of the first `k` entries of `log` start a node.
pub open spec fn starts_upto(log: Seq<EventView>, k: int) -> int
    decreases k,
{
    if k <= 0 {
        0
    } else {
        starts_upto(log, k - 1) + if is_start(log[k - 1]) {
            1int
        } else {
            0int
        }
    }
}

/// How many of the first `k` entries of `log` finish a node.
pub open spec fn finishes_upto(log: Seq<EventView>, k: int) -> int
    decreases k,
{
    if k <= 0 {
        0
    } else {
        finishes_upto(log, k - 1) + if log[k - 1] is Finish {
            1int
        } else {
            0int
        }
    }
}

/// How many entries of `log` start a node.
pub open spec fn starts(log: Seq<EventView>) -> int {
    starts_upto(log, log.len() as int)
}

/// How many entries of `log` finish a node.
pub open spec fn finishes(log: Seq<EventView>) -> int {
    finishes_upto(log, log.len() as int)
}

/// How many of `steps` open a node.
pub open spec fn opens(steps: Seq<Step>) -> int
    decreases steps.len(),
{
    if steps.len() == 0 {
        0
    } else {
        opens(steps.drop_last()) + if steps.last() is Open {
            1int
        } else {
            0int
        }
    }
}

/// How many of `steps` close a node.
pub open spec fn closes(steps: Seq<Step>) -> int
    decreases steps.len(),
{
    if steps.len() == 0 {
        0
    } else {
        closes(steps.drop_last()) + if steps.last() is Close {
            1int
        } else {
            0int
        }
    }
}

/// The depth after a run of steps is the number of opens less the number
/// of closes.
pub proof fn lemma_depth_counts(s: Seq<Step>)
    ensures
        depth(s) == opens(s) - closes(s),
    decreases s.len(),
{
    if s.len() > 0 {
        lemma_depth_counts(s.drop_last());
    }
}

proof fn lemma_counts_concat(a: Seq<Step>, b: Seq<Step>)
    ensures
        opens(a + b) == opens(a) + opens(b),
        closes(a + b) == closes(a) + closes(b),
    decreases b.len(),
{
    if b.len() == 0 {
        assert(a + b =~= a);
    } else {
        assert((a + b).drop_last() =~= a + b.drop_last());
        lemma_counts_concat(a, b.drop_last());
    }
}

proof fn lemma_counts_short(s: Seq<Step>)
    requires
        s.len() <= 1,
    ensures
        opens(s) == if s.len() == 1 && s[0] is Open {
            1int
        } else {
            0int
        },
        closes(s) == if s.len() == 1 && s[0] is Close {
            1int
        } else {
            0int
        },
{
    if s.len() == 1 {
        assert(s.drop_last().len() == 0);
        assert(opens(s.drop_last()) == 0);
        assert(closes(s.drop_last()) == 0);
    }
}

/// Wrappers are opens, one for each entry that places a node at `t`.
proof fn lemma_wrappers_counts(log: Seq<EventView>, t: int, j: int)
    ensures
        opens(wrappers_from(log, t, j)) == wrappers_from(log, t, j).len(),
        closes(wrappers_from(log, t, j)) == 0,
    decreases log.len() - j,
{
    if 0 <= j < log.len() {
        lemma_wrappers_counts(log, t, j + 1);
        lemma_counts_concat(wrappers_from(log, t, j + 1), wrapper_of(log[j], t));
        lemma_counts_short(wrapper_of(log[j], t));
    }
}

/// How many entries of `log` from `j` on place a node at a position before
/// `k`.
spec fn placed_below(log: Seq<EventView>, k: int, j: int) -> int
    decreases log.len() - j,
{
    if j < 0 || j >= log.len() {
        0
    } else {
        placed_below(log, k, j + 1) + match log[j] {
            EventView::StartNodeAt { target, .. } => if 0 <= target < k {
                1int
            } else {
                0int
            },
            _ => 0int,
        }
    }
}

proof fn lemma_placed_below_step(log: Seq<EventView>, k: int, j: int)
    requires
        k >= 1,
    ensures
        placed_below(log, k, j) == placed_below(log, k - 1, j) + wrappers_from(
            log,
            k - 1,
            j,
        ).len(),
    decreases log.len() - j,
{
    if 0 <= j < log.len() {
        lemma_placed_below_step(log, k, j + 1);
    }
}

/// How many of the first `k` entries of `log` are a `StartNode`.
spec fn plain_upto(log: Seq<EventView>, k: int) -> int
    decreases k,
{
    if k <= 0 {
        0
    } else {
        plain_upto(log, k - 1) + if log[k - 1] is StartNode {
            1int
        } else {
            0int
        }
    }
}

proof fn lemma_steps_upto_counts(log: Seq<EventView>, k: int)
    requires
        0 <= k <= log.len(),
    ensures
        opens(steps_upto(log, k)) == plain_upto(log, k) + placed_below(log, k, 0),
        closes(steps_upto(log, k)) == finishes_upto(log, k),
    decreases k,
{
    if k > 0 {
        lemma_steps_upto_counts(log, k - 1);
        lemma_placed_below_step(log, k, 0);
        lemma_wrappers_counts(log, k - 1, 0);
        let own = own_steps(log[k - 1]);
        lemma_counts_short(own);
        lemma_counts_concat(wrappers_from(log, k - 1, 0), own);
        lemma_counts_concat(steps_upto(log, k - 1), steps_at(log, k - 1));
    } else {
        assert(placed_below(log, 0, 0) == 0) by {
            lemma_placed_none(log, 0);
        }
    }
}

proof fn lemma_placed_none(log: Seq<EventView>, j: int)
    ensures
        placed_below(log, 0, j) == 0,
    decreases log.len() - j,
{
    if 0 <= j < log.len() {
        lemma_placed_none(log, j + 1);
    }
}

/// With every target inside the log, the entries from `j` on that place a
/// node somewhere and the `StartNode` entries make up the node starts.
proof fn lemma_starts_split(log: Seq<EventView>, j: int)
    requires
        targets_resolved(log),
        0 <= j <= log.len(),
    ensures
        starts_upto(log, log.len() as int) - starts_upto(log, j) == plain_upto(
            log,
            log.len() as int,
        ) - plain_upto(log, j) + placed_below(log, log.len() as int, j),
    decreases log.len() - j,
{
    if j < log.len() {
        lemma_starts_split(log, j + 1);
    }
}

/// Replaying a log opens exactly one node for each node start in it and
/// closes exactly one for each `Finish`.
pub proof fn lemma_replay_accounts_for_log(log: Seq<EventView>)
    requires
        targets_resolved(log),
    ensures
        opens(steps(log)) == starts(log),
        closes(steps(log)) == finishes(log),
{
    lemma_steps_upto_counts(log, log.len() as int);
    lemma_starts_split(log, 0);
}

/// A well-formed log finishes exactly as many nodes as it starts.
pub proof fn lemma_well_formed_counts(log: Seq<EventView>)
    requires
        well_formed(log),
    ensures
        starts(log) == finishes(log),
{
    lemma_replay_accounts_for_log(log);
    lemma_depth_counts(steps(log));
}

} // verus!
