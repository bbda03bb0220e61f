//! What holds of every list of siblings in the call trees of samples.

use crate::frame::FrameView;
use crate::nodetree::NodeView;
use crate::sample::laws::lemma_filter_sorted;
use crate::sample::model::{
    call_trees_of, continues, entry_of_thread, fingerprint_at, forest_apart, forest_settled,
    lemma_trees_of_threads_entries, of_thread, resolved_stack, siblings_apart,
    siblings_apart_throughout, sorted_by_time, thread_build, thread_order, tree_apart, tree_settled,
    with_sample,
};
use crate::sample::v2::SampleView;
use super::SampleError;
use vstd::prelude::*;

verus! {

/// A tree that is settled by some time is settled by any later time.
pub proof fn lemma_tree_settled_later(n: NodeView, t: u64, later: u64)
    requires
        tree_settled(n, t),
        t <= later,
    ensures
        tree_settled(n, later),
    decreases n,
{
    assert forall|i: int| 0 <= i < n.children.len() implies tree_settled(
        #[trigger] n.children[i],
        later,
    ) by {
        lemma_tree_settled_later(n.children[i], t, later);
    }
}

/// In a settled tree the siblings are apart everywhere.
pub proof fn lemma_settled_tree_is_apart(n: NodeView, t: u64)
    requires
        tree_settled(n, t),
    ensures
        tree_apart(n),
    decreases n,
{
    assert forall|i: int| 0 <= i < n.children.len() implies tree_apart(#[trigger] n.children[i]) by {
        lemma_settled_tree_is_apart(n.children[i], t);
    }
}

/// In a settled forest the siblings are apart everywhere.
pub proof fn lemma_settled_forest_is_apart(forest: Seq<NodeView>, t: u64)
    requires
        forest_settled(forest, t),
    ensures
        forest_apart(forest),
{
    assert forall|i: int| 0 <= i < forest.len() implies tree_apart(#[trigger] forest[i]) by {
        lemma_settled_tree_is_apart(forest[i], t);
    }
}

/// A settled forest whose last root gives way to a node with the same
/// fingerprint and start stays settled.
pub proof fn lemma_settled_replace_last(
    forest: Seq<NodeView>,
    node: NodeView,
    start: u64,
    end: u64,
)
    requires
        forest.len() > 0,
        forest_settled(forest, start),
        start <= end,
        node.fingerprint == forest.last().fingerprint,
        node.start_ns == forest.last().start_ns,
        tree_settled(node, end),
    ensures
        forest_settled(forest.drop_last().push(node), end),
{
    let out = forest.drop_last().push(node);
    assert forall|i: int| 0 <= i < out.len() implies tree_settled(#[trigger] out[i], end) by {
        if i < out.len() - 1 {
            assert(out[i] == forest[i]);
            lemma_tree_settled_later(forest[i], start, end);
        }
    }
    assert forall|i: int| 0 <= i < out.len() - 1 implies {
        &&& !((#[trigger] out[i]).fingerprint == out[i + 1].fingerprint && out[i].end_ns == out[i
            + 1].start_ns)
        &&& out[i].end_ns <= out[i + 1].start_ns
    } by {
        assert(out[i] == forest[i]);
        if i + 1 < out.len() - 1 {
            assert(out[i + 1] == forest[i + 1]);
        }
    }
}

/// A settled forest stays settled with one more root that starts no
/// earlier than any node ends and does not continue the last root.
pub proof fn lemma_settled_push(forest: Seq<NodeView>, node: NodeView, start: u64, end: u64)
    requires
        forest_settled(forest, start),
        start <= end,
        !continues(forest, node.fingerprint, start),
        node.start_ns == start,
        tree_settled(node, end),
    ensures
        forest_settled(forest.push(node), end),
{
    let out = forest.push(node);
    assert forall|i: int| 0 <= i < out.len() implies tree_settled(#[trigger] out[i], end) by {
        if i < out.len() - 1 {
            assert(out[i] == forest[i]);
            lemma_tree_settled_later(forest[i], start, end);
        }
    }
    assert forall|i: int| 0 <= i < out.len() - 1 implies {
        &&& !((#[trigger] out[i]).fingerprint == out[i + 1].fingerprint && out[i].end_ns == out[i
            + 1].start_ns)
        &&& out[i].end_ns <= out[i + 1].start_ns
    } by {
        assert(out[i] == forest[i]);
        if i + 1 < out.len() - 1 {
            assert(out[i + 1] == forest[i + 1]);
        } else {
            assert(forest[i] == forest.last());
            assert(tree_settled(forest[i], start));
        }
    }
}

/// A sample that starts no earlier than any node ends leaves the siblings
/// apart at every level: it is taken into the last node where it continues
/// that node, and a node that it starts is apart from the one before it.
pub proof fn lemma_with_sample_settled(
    forest: Seq<NodeView>,
    path: Seq<FrameView>,
    depth: int,
    start: u64,
    end: u64,
)
    requires
        forest_settled(forest, start),
        start <= end,
    ensures
        forest_settled(with_sample(forest, path, depth, start, end), end),
    decreases path.len() - depth,
{
    let out = with_sample(forest, path, depth, start, end);
    if depth < 0 || depth >= path.len() {
        assert forall|i: int| 0 <= i < forest.len() implies tree_settled(
            #[trigger] forest[i],
            end,
        ) by {
            lemma_tree_settled_later(forest[i], start, end);
        }
    } else {
        let fingerprint = fingerprint_at(path, depth);
        if continues(forest, fingerprint, start) {
            let last = forest.last();
            assert(tree_settled(last, start));
            let inner = with_sample(last.children, path, depth + 1, start, end);
            let node = NodeView { children: inner, ..last.updated(end) };
            assert(out == forest.drop_last().push(node));
            lemma_with_sample_settled(last.children, path, depth + 1, start, end);
            assert(tree_settled(node, end));
            lemma_settled_replace_last(forest, node, start, end);
        } else {
            let inner = with_sample(Seq::<NodeView>::empty(), path, depth + 1, start, end);
            let node = NodeView {
                children: inner,
                ..NodeView::from_frame(path[depth], start, end, fingerprint)
            };
            assert(out == forest.push(node));
            lemma_with_sample_settled(Seq::empty(), path, depth + 1, start, end);
            assert(tree_settled(node, end));
            lemma_settled_push(forest, node, start, end);
        }
    }
}

/// The forest built from the first `k` samples of a thread, sorted by time,
/// has its siblings apart at every level, and none of its nodes ends after
/// the sample that follows.
pub proof fn lemma_thread_build_settled(
    frames: Seq<FrameView>,
    stacks: Seq<Seq<i32>>,
    ts: Seq<SampleView>,
    k: int,
)
    requires
        0 <= k < ts.len(),
        sorted_by_time(ts),
        thread_build(frames, stacks, ts, k) is Ok,
    ensures
        forest_settled(thread_build(frames, stacks, ts, k)->Ok_0, ts[k].timestamp_ns),
    decreases k,
{
    if k > 0 {
        lemma_thread_build_settled(frames, stacks, ts, k - 1);
        assert(ts[k - 1].timestamp_ns <= ts[k].timestamp_ns);
        lemma_with_sample_settled(
            thread_build(frames, stacks, ts, k - 1)->Ok_0,
            resolved_stack(frames, stacks[ts[k - 1].stack_id as int]),
            0,
            ts[k - 1].timestamp_ns,
            ts[k].timestamp_ns,
        );
    }
}

/// In the call trees of samples that are sorted by time, the run-length
/// merge is complete and siblings are in the order of time: in every list
/// of siblings, the roots of a thread or the children of any node, no two
/// neighbours have the same fingerprint with the first ending where the
/// second starts, and none starts before the one before it has ended.
pub proof fn lemma_call_trees_siblings_apart(
    frames: Seq<FrameView>,
    stacks: Seq<Seq<i32>>,
    samples: Seq<SampleView>,
    active: Option<Seq<char>>,
)
    requires
        sorted_by_time(samples),
        call_trees_of(frames, stacks, samples, active) is Ok,
    ensures
        siblings_apart_throughout(call_trees_of(frames, stacks, samples, active)->Ok_0),
{
    let threads = thread_order(samples);
    let out = call_trees_of(frames, stacks, samples, active)->Ok_0;
    lemma_trees_of_threads_entries(frames, stacks, samples, threads, active, threads.len() as int);
    assert forall|i: int| 0 <= i < out.len() implies forest_apart((#[trigger] out[i]).trees) by {
        let q = choose|q: int|
            0 <= q < threads.len() && entry_of_thread(
                out[i],
                frames,
                stacks,
                samples,
                active,
                #[trigger] threads[q],
            );
        let ts = samples.filter(of_thread(threads[q]));
        lemma_filter_sorted(samples, threads[q]);
        assert(ts.len() > 0);
        lemma_thread_build_settled(frames, stacks, ts, ts.len() - 1);
        lemma_settled_forest_is_apart(out[i].trees, ts[ts.len() - 1].timestamp_ns);
    }
}

} // verus!
