//! What holds of the time that a node and its children take.

use crate::frame::FrameView;
use crate::nodetree::NodeView;
use crate::sample::laws::lemma_filter_sorted;
use crate::sample::model::{
    call_trees_of, children_within_throughout, continues, entry_of_thread, fingerprint_at,
    forest_within, lemma_trees_of_threads_entries, of_thread, resolved_stack, sorted_by_time,
    thread_build, thread_order, with_sample,
};
use crate::sample::v2::SampleView;
use vstd::prelude::*;

verus! {

/// A list that lies within some time lies within any wider time.
pub proof fn lemma_forest_within_wider(
    list: Seq<NodeView>,
    from: u64,
    to: u64,
    earlier: u64,
    later: u64,
)
    requires
        forest_within(list, from, to),
        earlier <= from,
        to <= later,
    ensures
        forest_within(list, earlier, later),
{
    assert forall|i: int| 0 <= i < list.len() implies {
        &&& earlier <= (#[trigger] list[i]).start_ns
        &&& list[i].start_ns <= list[i].end_ns
        &&& list[i].end_ns <= later
        &&& forest_within(list[i].children, list[i].start_ns, list[i].end_ns)
    } by {
        assert(from <= list[i].start_ns);
    }
}

/// A list within some time stays so, up to the end of the new node, where
/// its last node gives way to one that starts with it and ends later.
pub proof fn lemma_within_replace_last(
    list: Seq<NodeView>,
    node: NodeView,
    from: u64,
    to: u64,
    end: u64,
)
    requires
        list.len() > 0,
        forest_within(list, from, to),
        to <= end,
        node.start_ns == list.last().start_ns,
        node.end_ns == end,
        forest_within(node.children, node.start_ns, end),
    ensures
        forest_within(list.drop_last().push(node), from, end),
{
    let out = list.drop_last().push(node);
    assert forall|i: int| 0 <= i < out.len() implies {
        &&& from <= (#[trigger] out[i]).start_ns
        &&& out[i].start_ns <= out[i].end_ns
        &&& out[i].end_ns <= end
        &&& forest_within(out[i].children, out[i].start_ns, out[i].end_ns)
    } by {
        if i < out.len() - 1 {
            assert(out[i] == list[i]);
            assert(from <= list[i].start_ns);
        } else {
            assert(from <= list.last().start_ns);
            assert(list.last().start_ns <= list.last().end_ns);
        }
    }
}

/// A list within some time stays so, up to the end of the new node, with
/// one more node that starts when the time ends.
pub proof fn lemma_within_push(list: Seq<NodeView>, node: NodeView, from: u64, to: u64, end: u64)
    requires
        forest_within(list, from, to),
        from <= to <= end,
        node.start_ns == to,
        node.end_ns == end,
        forest_within(node.children, to, end),
    ensures
        forest_within(list.push(node), from, end),
{
    let out = list.push(node);
    assert forall|i: int| 0 <= i < out.len() implies {
        &&& from <= (#[trigger] out[i]).start_ns
        &&& out[i].start_ns <= out[i].end_ns
        &&& out[i].end_ns <= end
        &&& forest_within(out[i].children, out[i].start_ns, out[i].end_ns)
    } by {
        if i < out.len() - 1 {
            assert(out[i] == list[i]);
            assert(from <= list[i].start_ns);
        }
    }
}

/// A sample that starts when the time of a list ends leaves every node
/// with its children within its own time.
pub proof fn lemma_with_sample_within(
    list: Seq<NodeView>,
    path: Seq<FrameView>,
    depth: int,
    start: u64,
    end: u64,
    from: u64,
)
    requires
        forest_within(list, from, start),
        from <= start <= end,
    ensures
        forest_within(with_sample(list, path, depth, start, end), from, end),
    decreases path.len() - depth,
{
    let out = with_sample(list, path, depth, start, end);
    if depth < 0 || depth >= path.len() {
        lemma_forest_within_wider(list, from, start, from, end);
    } else {
        let fingerprint = fingerprint_at(path, depth);
        if continues(list, fingerprint, start) {
            let last = list.last();
            assert(from <= last.start_ns && last.start_ns <= last.end_ns);
            assert(forest_within(last.children, last.start_ns, last.end_ns));
            let inner = with_sample(last.children, path, depth + 1, start, end);
            let node = NodeView { children: inner, ..last.updated(end) };
            assert(out == list.drop_last().push(node));
            lemma_with_sample_within(last.children, path, depth + 1, start, end, last.start_ns);
            lemma_within_replace_last(list, node, from, start, end);
        } else {
            let inner = with_sample(Seq::<NodeView>::empty(), path, depth + 1, start, end);
            let node = NodeView {
                children: inner,
                ..NodeView::from_frame(path[depth], start, end, fingerprint)
            };
            assert(out == list.push(node));
            assert(forest_within(Seq::<NodeView>::empty(), start, start));
            lemma_with_sample_within(Seq::empty(), path, depth + 1, start, end, start);
            lemma_within_push(list, node, from, start, end);
        }
    }
}

/// In the forest built from the first `k` samples of a thread, sorted by
/// time, every node holds its children within its own time, and all lie
/// between the first sample and the one after the last.
pub proof fn lemma_thread_build_within(
    frames: Seq<FrameView>,
    stacks: Seq<Seq<i32>>,
    ts: Seq<SampleView>,
    k: int,
)
    requires
        0 <= k < ts.len(),
        sorted_by_time(ts),
        thread_build(frames, stacks, ts, k) is Ok,
    ensures
        forest_within(
            thread_build(frames, stacks, ts, k)->Ok_0,
            ts[0].timestamp_ns,
            ts[k].timestamp_ns,
        ),
    decreases k,
{
    if k > 0 {
        lemma_thread_build_within(frames, stacks, ts, k - 1);
        assert(ts[0].timestamp_ns <= ts[k - 1].timestamp_ns <= ts[k].timestamp_ns);
        lemma_with_sample_within(
            thread_build(frames, stacks, ts, k - 1)->Ok_0,
            resolved_stack(frames, stacks[ts[k - 1].stack_id as int]),
            0,
            ts[k - 1].timestamp_ns,
            ts[k].timestamp_ns,
            ts[0].timestamp_ns,
        );
    }
}

/// In the call trees of samples that are sorted by time every node starts
/// no later than it ends, and its children start and end within its own
/// time.
pub proof fn lemma_call_trees_children_within(
    frames: Seq<FrameView>,
    stacks: Seq<Seq<i32>>,
    samples: Seq<SampleView>,
    active: Option<Seq<char>>,
)
    requires
        sorted_by_time(samples),
        call_trees_of(frames, stacks, samples, active) is Ok,
    ensures
        children_within_throughout(call_trees_of(frames, stacks, samples, active)->Ok_0),
{
    let threads = thread_order(samples);
    let out = call_trees_of(frames, stacks, samples, active)->Ok_0;
    lemma_trees_of_threads_entries(frames, stacks, samples, threads, active, threads.len() as int);
    assert forall|i: int| 0 <= i < out.len() implies forest_within(
        (#[trigger] out[i]).trees,
        0,
        u64::MAX,
    ) by {
        let q = choose|q: int|
            0 <= q < threads.len() && entry_of_thread(
                out[i],
                frames,
                stacks,
                samples,
                active,
                #[trigger] threads[q],
            );
        let ts = samples.filter(of_thread(threads[q]));
        lemma_filter_sorted(samples, threads[q]);
        assert(ts.len() > 0);
        lemma_thread_build_within(frames, stacks, ts, ts.len() - 1);
        lemma_forest_within_wider(
            out[i].trees,
            ts[0].timestamp_ns,
            ts[ts.len() - 1].timestamp_ns,
            0,
            u64::MAX,
        );
    }
}

} // verus!
