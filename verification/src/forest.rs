//! Parent links that form a forest: following them upwards always ends.
//!
//! The nodes are numbered from zero; `parents[c]` is the node that holds `c`,
//! if any. The links form a forest exactly if the nodes can be ranked so that
//! each node ranks above its parent.

use vstd::prelude::*;

verus! {

/// Whether `rank` gives every node a higher rank than its parent, and every
/// parent is a node.
pub open spec fn ranked(parents: Seq<Option<usize>>, rank: Seq<nat>) -> bool {
    &&& rank.len() == parents.len()
    &&& forall|c: int|
        0 <= c < parents.len() && (#[trigger] parents[c]) is Some ==> parents[c]->0
            < parents.len() && rank[parents[c]->0 as int] < rank[c]
}

/// No node is above itself: the links can be ranked.
pub open spec fn acyclic(parents: Seq<Option<usize>>) -> bool {
    exists|rank: Seq<nat>| ranked(parents, rank)
}

/// The node `k` links above `s`, if the links lead that far.
pub open spec fn ancestor(parents: Seq<Option<usize>>, s: int, k: nat) -> Option<int>
    decreases k,
{
    if !(0 <= s < parents.len()) {
        None
    } else if k == 0 {
        Some(s)
    } else {
        match parents[s] {
            Some(p) => ancestor(parents, p as int, (k - 1) as nat),
            None => None,
        }
    }
}

/// Whether `s` is `c` or lies below it.
pub open spec fn within(parents: Seq<Option<usize>>, s: int, c: int) -> bool {
    exists|k: nat| ancestor(parents, s, k) == Some(c)
}

/// One link further up: the parent of the node `k` links above `s` is
/// `k + 1` links above it.
pub proof fn lemma_ancestor_step(parents: Seq<Option<usize>>, s: int, k: nat, a: int)
    requires
        ancestor(parents, s, k) == Some(a),
        0 <= a < parents.len(),
        parents[a] is Some,
        parents[a]->0 < parents.len(),
    ensures
        ancestor(parents, s, k + 1) == Some(parents[a]->0 as int),
    decreases k,
{
    if k > 0 {
        lemma_ancestor_step(parents, parents[s]->0 as int, (k - 1) as nat, a);
    } else {
        assert(ancestor(parents, parents[a]->0 as int, 0) == Some(parents[a]->0 as int));
    }
}

/// Above a node without a parent there is nothing.
pub proof fn lemma_ancestor_ends(parents: Seq<Option<usize>>, s: int, k: nat, j: nat)
    requires
        ancestor(parents, s, k) matches Some(top) && 0 <= top < parents.len()
            && parents[top] is None,
        j > k,
    ensures
        ancestor(parents, s, j) is None,
    decreases k,
{
    if k > 0 {
        lemma_ancestor_ends(parents, parents[s]->0 as int, (k - 1) as nat, (j - 1) as nat);
    }
}

/// The nodes on the way up are nodes.
pub proof fn lemma_ancestor_in_range(parents: Seq<Option<usize>>, s: int, k: nat)
    ensures
        ancestor(parents, s, k) matches Some(a) ==> 0 <= a < parents.len(),
    decreases k,
{
    if k > 0 && 0 <= s < parents.len() && parents[s] is Some {
        lemma_ancestor_in_range(parents, parents[s]->0 as int, (k - 1) as nat);
    }
}

/// A forest stays one when a node without a parent joins it.
pub proof fn lemma_push_acyclic(parents: Seq<Option<usize>>)
    requires
        acyclic(parents),
    ensures
        acyclic(parents.push(None)),
{
    let rank = choose|rank: Seq<nat>| ranked(parents, rank);
    let after = parents.push(None);
    assert forall|x: int| 0 <= x < after.len() && (#[trigger] after[x]) is Some implies after[x]->0
        < after.len() && rank.push(0)[after[x]->0 as int] < rank.push(0)[x] by {
        assert(parents[x] == after[x]);
    }
    assert(ranked(after, rank.push(0)));
}

/// Where a node let go of its parent, the ways up are ways of before.
pub proof fn lemma_unparent_ancestor(parents: Seq<Option<usize>>, c: int, s: int, k: nat)
    requires
        0 <= c < parents.len(),
        ancestor(parents.update(c, None), s, k) is Some,
    ensures
        ancestor(parents, s, k) == ancestor(parents.update(c, None), s, k),
    decreases k,
{
    if k > 0 {
        let after = parents.update(c, None);
        assert(after[s] is Some);
        assert(parents[s] == after[s]);
        lemma_unparent_ancestor(parents, c, parents[s]->0 as int, (k - 1) as nat);
    }
}

/// Where a node let go of its parent, nothing lies below a node that did
/// not lie below it before.
pub proof fn lemma_unparent_within(parents: Seq<Option<usize>>, c: int, s: int, top: int)
    requires
        0 <= c < parents.len(),
        within(parents.update(c, None), s, top),
    ensures
        within(parents, s, top),
{
    let k = choose|k: nat| ancestor(parents.update(c, None), s, k) == Some(top);
    lemma_unparent_ancestor(parents, c, s, k);
}

/// A forest stays one when a node lets go of its parent.
pub proof fn lemma_unparent_acyclic(parents: Seq<Option<usize>>, c: int)
    requires
        acyclic(parents),
        0 <= c < parents.len(),
    ensures
        acyclic(parents.update(c, None)),
{
    let rank = choose|rank: Seq<nat>| ranked(parents, rank);
    let after = parents.update(c, None);
    assert forall|x: int| 0 <= x < after.len() && (#[trigger] after[x]) is Some implies after[x]->0
        < after.len() && rank[after[x]->0 as int] < rank[x] by {
        assert(parents[x] == after[x]);
    }
    assert(ranked(after, rank));
}

/// A forest stays one when a node without a parent gets one that does not
/// lie below it.
pub proof fn lemma_parent_acyclic(parents: Seq<Option<usize>>, c: int, s: int)
    requires
        acyclic(parents),
        0 <= c < parents.len(),
        parents[c] is None,
        0 <= s < parents.len(),
        s <= usize::MAX,
        !within(parents, s, c),
    ensures
        acyclic(parents.update(c, Some(s as usize))),
{
    let rank = choose|rank: Seq<nat>| ranked(parents, rank);
    let after = parents.update(c, Some(s as usize));
    let lift = rank[s] + 1;
    let raised = Seq::new(
        parents.len(),
        |x: int|
            if within(parents, x, c) {
                (rank[x] + lift) as nat
            } else {
                rank[x]
            },
    );
    assert(ancestor(parents, c, 0) == Some(c));
    assert(within(parents, c, c));
    assert forall|x: int| 0 <= x < after.len() && (#[trigger] after[x]) is Some implies after[x]->0
        < after.len() && raised[after[x]->0 as int] < raised[x] by {
        if x != c {
            assert(parents[x] == after[x]);
            let p = parents[x]->0 as int;
            if within(parents, x, c) {
                let k = choose|k: nat| ancestor(parents, x, k) == Some(c);
                assert(k > 0);
                assert(ancestor(parents, p, (k - 1) as nat) == Some(c));
                assert(within(parents, p, c));
            }
            if within(parents, p, c) {
                let k = choose|k: nat| ancestor(parents, p, k) == Some(c);
                assert(ancestor(parents, x, k + 1) == Some(c));
                assert(within(parents, x, c));
            }
        }
    }
    assert(ranked(after, raised));
}

} // verus!
