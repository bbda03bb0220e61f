//! What holds of the samples that a node and its children count.

use crate::frame::FrameView;
use crate::nodetree::{forest_bounded, lemma_forest_bounded_grows, tree_bounded, NodeView};
use crate::sample::laws::{lemma_filter_sorted, lemma_thread_build_bounded};
use crate::sample::model::{
    call_trees_of, continues, counts_add_up_throughout, entry_of_thread, fingerprint_at,
    forest_counted, lemma_trees_of_threads_entries, of_thread, resolved_stack, sorted_by_time,
    thread_build, thread_order, total_count, with_sample,
};
use crate::sample::v2::SampleView;
use vstd::prelude::*;

verus! {

/// One more node adds its count to the total.
pub proof fn lemma_total_count_push(list: Seq<NodeView>, node: NodeView)
    ensures
        total_count(list.push(node)) == total_count(list) + node.sample_count,
{
    assert(list.push(node).drop_last() =~= list);
}

/// A sample adds one to the total of a list that it reaches, and leaves
/// every node with a count that is no lower than that of its children
/// together.
pub proof fn lemma_with_sample_counted(
    list: Seq<NodeView>,
    path: Seq<FrameView>,
    depth: int,
    start: u64,
    end: u64,
    bound: nat,
)
    requires
        forest_counted(list),
        forest_bounded(list, bound),
        bound < u64::MAX,
    ensures
        forest_counted(with_sample(list, path, depth, start, end)),
        total_count(with_sample(list, path, depth, start, end)) == total_count(list) + if 0 <= depth
            < path.len() {
            1int
        } else {
            0int
        },
    decreases path.len() - depth,
{
    let out = with_sample(list, path, depth, start, end);
    if depth < 0 || depth >= path.len() {
    } else {
        let fingerprint = fingerprint_at(path, depth);
        if continues(list, fingerprint, start) {
            let last = list.last();
            assert(tree_bounded(last, bound));
            assert(forest_bounded(last.children, bound));
            assert(total_count(last.children) <= last.sample_count && forest_counted(last.children));
            let inner = with_sample(last.children, path, depth + 1, start, end);
            let node = NodeView { children: inner, ..last.updated(end) };
            assert(out == list.drop_last().push(node));
            lemma_with_sample_counted(last.children, path, depth + 1, start, end, bound);
            assert(node.sample_count == last.sample_count + 1);
            lemma_total_count_push(list.drop_last(), node);
            assert forall|i: int| 0 <= i < out.len() implies {
                &&& total_count((#[trigger] out[i]).children) <= out[i].sample_count
                &&& forest_counted(out[i].children)
            } by {
                if i < out.len() - 1 {
                    assert(out[i] == list[i]);
                }
            }
        } else {
            let inner = with_sample(Seq::<NodeView>::empty(), path, depth + 1, start, end);
            let node = NodeView {
                children: inner,
                ..NodeView::from_frame(path[depth], start, end, fingerprint)
            };
            assert(out == list.push(node));
            assert(forest_counted(Seq::<NodeView>::empty()));
            assert(forest_bounded(Seq::<NodeView>::empty(), bound));
            lemma_with_sample_counted(Seq::empty(), path, depth + 1, start, end, bound);
            lemma_total_count_push(list, node);
            assert forall|i: int| 0 <= i < out.len() implies {
                &&& total_count((#[trigger] out[i]).children) <= out[i].sample_count
                &&& forest_counted(out[i].children)
            } by {
                if i < out.len() - 1 {
                    assert(out[i] == list[i]);
                }
            }
        }
    }
}

/// In the forest built from the first `k` samples of a thread every node
/// counts at least as many samples as its children together, and the roots
/// together count no more than `k`.
pub proof fn lemma_thread_build_counted(
    frames: Seq<FrameView>,
    stacks: Seq<Seq<i32>>,
    ts: Seq<SampleView>,
    k: int,
)
    requires
        0 <= k < ts.len(),
        k < u64::MAX,
        sorted_by_time(ts),
        thread_build(frames, stacks, ts, k) is Ok,
    ensures
        forest_counted(thread_build(frames, stacks, ts, k)->Ok_0),
        total_count(thread_build(frames, stacks, ts, k)->Ok_0) <= k,
    decreases k,
{
    if k > 0 {
        lemma_thread_build_counted(frames, stacks, ts, k - 1);
        lemma_thread_build_bounded(frames, stacks, ts, k - 1);
        lemma_with_sample_counted(
            thread_build(frames, stacks, ts, k - 1)->Ok_0,
            resolved_stack(frames, stacks[ts[k - 1].stack_id as int]),
            0,
            ts[k - 1].timestamp_ns,
            ts[k].timestamp_ns,
            (k - 1) as nat,
        );
    }
}

/// In the call trees of samples that are sorted by time every node counts
/// at least as many samples as its children together.
pub proof fn lemma_call_trees_counts_add_up(
    frames: Seq<FrameView>,
    stacks: Seq<Seq<i32>>,
    samples: Seq<SampleView>,
    active: Option<Seq<char>>,
)
    requires
        sorted_by_time(samples),
        samples.len() <= usize::MAX,
        call_trees_of(frames, stacks, samples, active) is Ok,
    ensures
        counts_add_up_throughout(call_trees_of(frames, stacks, samples, active)->Ok_0),
{
    let threads = thread_order(samples);
    let out = call_trees_of(frames, stacks, samples, active)->Ok_0;
    lemma_trees_of_threads_entries(frames, stacks, samples, threads, active, threads.len() as int);
    assert forall|i: int| 0 <= i < out.len() implies forest_counted((#[trigger] out[i]).trees) by {
        let q = choose|q: int|
            0 <= q < threads.len() && entry_of_thread(
                out[i],
                frames,
                stacks,
                samples,
                active,
                #[trigger] threads[q],
            );
        let ts = samples.filter(of_thread(threads[q]));
        lemma_filter_sorted(samples, threads[q]);
        samples.lemma_filter_len(of_thread(threads[q]));
        assert(ts.len() > 0);
        lemma_thread_build_counted(frames, stacks, ts, ts.len() - 1);
    }
}

/// In the call trees of samples that are sorted by time every node, at
/// every depth, ends no earlier than it starts, lasts from its start to
/// its end, and counts no more samples than there are.
pub proof fn lemma_call_trees_well_formed(
    frames: Seq<FrameView>,
    stacks: Seq<Seq<i32>>,
    samples: Seq<SampleView>,
    active: Option<Seq<char>>,
)
    requires
        sorted_by_time(samples),
        samples.len() <= usize::MAX,
        call_trees_of(frames, stacks, samples, active) is Ok,
    ensures
        forall|i: int|
            0 <= i < call_trees_of(frames, stacks, samples, active)->Ok_0.len() ==> forest_bounded(
                (#[trigger] call_trees_of(frames, stacks, samples, active)->Ok_0[i]).trees,
                samples.len(),
            ),
{
    let threads = thread_order(samples);
    let out = call_trees_of(frames, stacks, samples, active)->Ok_0;
    lemma_trees_of_threads_entries(frames, stacks, samples, threads, active, threads.len() as int);
    assert forall|i: int| 0 <= i < out.len() implies forest_bounded(
        (#[trigger] out[i]).trees,
        samples.len(),
    ) by {
        let q = choose|q: int|
            0 <= q < threads.len() && entry_of_thread(
                out[i],
                frames,
                stacks,
                samples,
                active,
                #[trigger] threads[q],
            );
        let ts = samples.filter(of_thread(threads[q]));
        lemma_filter_sorted(samples, threads[q]);
        samples.lemma_filter_len(of_thread(threads[q]));
        assert(ts.len() > 0);
        lemma_thread_build_bounded(frames, stacks, ts, ts.len() - 1);
        lemma_forest_bounded_grows(out[i].trees, (ts.len() - 1) as nat, samples.len());
    }
}

} // verus!
