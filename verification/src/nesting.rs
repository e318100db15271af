//! Facts about well-nested step sequences.

use vstd::prelude::*;
use crate::replay::{balanced, delta, depth, Step};
use crate::syntax::SyntaxKind;

verus! {

/// Appending a step changes the depth by that step's delta.
pub proof fn lemma_depth_push(s: Seq<Step>, x: Step)
    ensures
        depth(s.push(x)) == depth(s) + delta(x),
{
    assert(s.push(x).drop_last() =~= s);
}

/// Inserting a step anywhere changes the depth by that step's delta.
pub proof fn lemma_depth_insert(s: Seq<Step>, p: int, x: Step)
    requires
        0 <= p <= s.len(),
    ensures
        depth(s.insert(p, x)) == depth(s) + delta(x),
    decreases s.len() - p,
{
    if p == s.len() {
        assert(s.insert(p, x) =~= s.push(x));
        lemma_depth_push(s, x);
    } else {
        let t = s.insert(p, x);
        assert(t.drop_last() =~= s.drop_last().insert(p, x));
        assert(t.last() == s.last());
        lemma_depth_insert(s.drop_last(), p, x);
    }
}

/// The empty sequence is well nested.
pub proof fn lemma_balanced_empty()
    ensures
        balanced(Seq::<Step>::empty()),
{
    let s = Seq::<Step>::empty();
    assert forall|k: int| 0 <= k <= s.len() implies depth(#[trigger] s.take(k)) >= 0 by {
        assert(s.take(k) =~= s);
    }
}

/// A token between nodes keeps a sequence well nested.
pub proof fn lemma_balanced_push_token(s: Seq<Step>)
    requires
        balanced(s),
    ensures
        balanced(s.push(Step::Token)),
{
    let t = s.push(Step::Token);
    lemma_depth_push(s, Step::Token);
    assert forall|k: int| 0 <= k <= t.len() implies depth(#[trigger] t.take(k)) >= 0 by {
        if k <= s.len() {
            assert(t.take(k) =~= s.take(k));
        } else {
            assert(t.take(k) =~= t);
        }
    }
}

/// Opening a node anywhere in a well-nested sequence and closing it at the
/// end gives a well-nested sequence again.
pub proof fn lemma_balanced_wrap(s: Seq<Step>, p: int, kind: SyntaxKind)
    requires
        balanced(s),
        0 <= p <= s.len(),
    ensures
        balanced(s.insert(p, Step::Open(kind)).push(Step::Close)),
{
    let open = Step::Open(kind);
    let u = s.insert(p, open);
    let t = u.push(Step::Close);
    lemma_depth_insert(s, p, open);
    lemma_depth_push(u, Step::Close);
    assert forall|k: int| 0 <= k <= t.len() implies depth(#[trigger] t.take(k)) >= 0 by {
        if k <= p {
            assert(t.take(k) =~= s.take(k));
        } else if k <= u.len() {
            assert(t.take(k) =~= s.take(k - 1).insert(p, open));
            lemma_depth_insert(s.take(k - 1), p, open);
        } else {
            assert(t.take(k) =~= t);
        }
    }
}

} // verus!
