//! What holds of the search for the cause of a frozen frame.

use crate::nodetree::NodeView;
use crate::occurrence::frame_drop::{first_cause, FrozenFrameStats, NodeStackView, MAX_STACK_DEPTH};
use vstd::prelude::*;

verus! {

/// A cause, once found, stays the first.
pub proof fn lemma_first_cause_stays(
    stats: FrozenFrameStats,
    roots: Seq<NodeView>,
    k: int,
    later: int,
)
    requires
        k <= later,
        first_cause(stats, roots, k) is Some,
    ensures
        first_cause(stats, roots, later) == first_cause(stats, roots, k),
    decreases later - k,
{
    if k < later {
        lemma_first_cause_stays(stats, roots, k, later - 1);
    }
}

/// The node reached from `n` by taking, at each level, the child whose
/// index `path` gives.
pub open spec fn node_at(n: NodeView, path: Seq<int>) -> Option<NodeView>
    decreases path.len(),
{
    if path.len() == 0 {
        Some(n)
    } else if 0 <= path[0] < n.children.len() {
        node_at(n.children[path[0]], path.drop_first())
    } else {
        None
    }
}

/// A search that starts at `depth` reaches the node at `path` below its
/// starting point: the starting point itself always, any other node where
/// it lies above `MAX_STACK_DEPTH`.
pub open spec fn reaches(depth: i32, path: Seq<int>) -> bool {
    path.len() == 0 || depth + path.len() < MAX_STACK_DEPTH
}

/// `m`, found at `depth`, does not beat the cause `c`: it is shorter, or as
/// long and no deeper.
pub open spec fn not_beaten_by(c: NodeStackView, m: NodeView, depth: int) -> bool {
    m.duration_ns < c.n.duration_ns || (m.duration_ns == c.n.duration_ns && depth <= c.depth)
}

/// A cause that the search returns can be the cause, lies no higher than
/// the search began, and closes its own stack trace.
pub proof fn lemma_cause_shape(
    stats: FrozenFrameStats,
    n: NodeView,
    above: Seq<NodeView>,
    depth: i32,
)
    ensures
        stats.cause_below(n, above, depth) matches Some(c) ==> stats.admits(c.n) && c.depth
            >= depth && c.st.len() > 0 && c.st.last() == c.n,
    decreases n, n.children.len() + 1,
{
    if depth < MAX_STACK_DEPTH - 1 {
        lemma_longest_shape(stats, n, above.push(n), (depth + 1) as i32, n.children.len() as int);
    }
}

/// The same of the longest cause below the first `k` children of a node.
pub proof fn lemma_longest_shape(
    stats: FrozenFrameStats,
    n: NodeView,
    st: Seq<NodeView>,
    depth: i32,
    k: int,
)
    ensures
        stats.longest_below(n, st, depth, k) matches Some(c) ==> stats.admits(c.n) && c.depth
            >= depth && c.st.len() > 0 && c.st.last() == c.n,
    decreases n, k,
{
    if 0 < k <= n.children.len() {
        lemma_longest_shape(stats, n, st, depth, k - 1);
        lemma_cause_shape(stats, n.children[k - 1], st, depth);
    }
}

/// The cause that the search returns is the longest of the nodes it
/// reaches that can be the cause, and of those that are as long the
/// deepest: no such node lasts longer, and none that lasts as long lies
/// deeper. Where the search reaches such a node, it returns a cause.
pub proof fn lemma_cause_is_longest_then_deepest(
    stats: FrozenFrameStats,
    n: NodeView,
    above: Seq<NodeView>,
    depth: i32,
    path: Seq<int>,
)
    requires
        node_at(n, path) is Some,
        stats.admits(node_at(n, path)->0),
        reaches(depth, path),
    ensures
        stats.cause_below(n, above, depth) is Some,
        not_beaten_by(
            stats.cause_below(n, above, depth)->0,
            node_at(n, path)->0,
            depth + path.len(),
        ),
    decreases n, n.children.len() + 1,
{
    if depth < MAX_STACK_DEPTH - 1 {
        lemma_longest_shape(stats, n, above.push(n), (depth + 1) as i32, n.children.len() as int);
    }
    if path.len() > 0 {
        lemma_longest_is_longest_then_deepest(
            stats,
            n,
            above.push(n),
            (depth + 1) as i32,
            n.children.len() as int,
            path,
        );
    }
}

/// The same of the longest cause below the first `k` children of a node:
/// no node that the search reaches below one of them, and that can be the
/// cause, lasts longer, and none that lasts as long lies deeper.
pub proof fn lemma_longest_is_longest_then_deepest(
    stats: FrozenFrameStats,
    n: NodeView,
    st: Seq<NodeView>,
    depth: i32,
    k: int,
    path: Seq<int>,
)
    requires
        path.len() > 0,
        0 <= path[0] < k <= n.children.len(),
        node_at(n, path) is Some,
        stats.admits(node_at(n, path)->0),
        reaches(depth, path.drop_first()),
    ensures
        stats.longest_below(n, st, depth, k) is Some,
        not_beaten_by(
            stats.longest_below(n, st, depth, k)->0,
            node_at(n, path)->0,
            depth + path.len() - 1,
        ),
    decreases n, k,
{
    if path[0] == k - 1 {
        lemma_cause_is_longest_then_deepest(stats, n.children[k - 1], st, depth, path.drop_first());
    } else {
        lemma_longest_is_longest_then_deepest(stats, n, st, depth, k - 1, path);
    }
}

/// Of two nodes that can be the cause and last equally long, the search
/// does not return the one that lies higher.
pub proof fn lemma_deeper_of_equal_wins(
    stats: FrozenFrameStats,
    root: NodeView,
    high: Seq<int>,
    deep: Seq<int>,
)
    requires
        node_at(root, high) is Some,
        node_at(root, deep) is Some,
        stats.admits(node_at(root, high)->0),
        stats.admits(node_at(root, deep)->0),
        node_at(root, high)->0.duration_ns == node_at(root, deep)->0.duration_ns,
        high.len() < deep.len() < MAX_STACK_DEPTH,
    ensures
        stats.cause_below(root, Seq::empty(), 0) is Some,
        stats.cause_below(root, Seq::empty(), 0)->0.depth > high.len()
            || stats.cause_below(root, Seq::empty(), 0)->0.n.duration_ns > node_at(
            root,
            high,
        )->0.duration_ns,
{
    lemma_cause_is_longest_then_deepest(stats, root, Seq::empty(), 0, deep);
}

} // verus!
