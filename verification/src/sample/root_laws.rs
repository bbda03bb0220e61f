//! What holds of the roots of a thread whose samples share their root
//! frame.

use crate::fingerprint::fnv1a;
use crate::frame::FrameView;
use crate::frame::rules::hash_bytes;
use crate::nodetree::NodeView;
use crate::sample::laws::{
    lemma_contiguous_sample_merges, lemma_filter_sorted, lemma_other_sample_starts_sibling,
};
use crate::sample::model::{
    call_trees_of, fingerprint_at, of_thread, path_bytes, resolved_stack, sorted_by_time,
    thread_build, thread_order, thread_trees, trees_of_threads, with_sample,
};
use crate::sample::v2::{SampleView, ThreadCallTreesView};
use super::SampleError;
use vstd::prelude::*;

verus! {

/// Each of the first `k` samples has a stack that is not empty and whose
/// root is the frame `root`.
pub open spec fn rooted_at(stacks: Seq<Seq<i32>>, ts: Seq<SampleView>, k: int, root: i32) -> bool {
    forall|i: int|
        0 <= i < k ==> stacks[(#[trigger] ts[i]).stack_id as int].len() > 0 && stacks[ts[i].stack_id as int].last()
            == root
}

/// The forest is one root, made from the frame `frame`, that lasts from
/// `from` to `to` and counts `count` samples.
pub open spec fn one_root(
    forest: Seq<NodeView>,
    frame: FrameView,
    from: u64,
    to: u64,
    count: int,
) -> bool {
    &&& forest.len() == 1
    &&& forest[0].frame == frame
    &&& forest[0].fingerprint == fnv1a(hash_bytes(frame))
    &&& forest[0].start_ns == from
    &&& forest[0].end_ns == to
    &&& forest[0].duration_ns == to - from
    &&& forest[0].sample_count == count
}

/// The fingerprint of a root is the hash of what its frame feeds to the
/// hasher.
pub proof fn lemma_root_fingerprint(path: Seq<FrameView>)
    requires
        path.len() > 0,
    ensures
        fingerprint_at(path, 0) == fnv1a(hash_bytes(path[0])),
{
    assert(path_bytes(path, 0) =~= Seq::<u8>::empty());
    assert(path_bytes(path, 1) =~= hash_bytes(path[0]));
}

/// Where the first `k` samples of a thread, sorted by time, all have the
/// same root frame, the forest built from them is one root, made from that
/// frame, that lasts from the first sample to the one after the last and
/// counts every one of them.
pub proof fn lemma_same_root_gives_one_root(
    frames: Seq<FrameView>,
    stacks: Seq<Seq<i32>>,
    ts: Seq<SampleView>,
    k: int,
    root: i32,
)
    requires
        0 < k < ts.len(),
        k <= u64::MAX,
        sorted_by_time(ts),
        thread_build(frames, stacks, ts, k) is Ok,
        rooted_at(stacks, ts, k, root),
    ensures
        one_root(
            thread_build(frames, stacks, ts, k)->Ok_0,
            frames[root as int],
            ts[0].timestamp_ns,
            ts[k].timestamp_ns,
            k,
        ),
    decreases k,
{
    let before = thread_build(frames, stacks, ts, k - 1)->Ok_0;
    let stack = stacks[ts[k - 1].stack_id as int];
    let path = resolved_stack(frames, stack);
    let start = ts[k - 1].timestamp_ns;
    let end = ts[k].timestamp_ns;
    let after = with_sample(before, path, 0, start, end);
    assert(thread_build(frames, stacks, ts, k) == Ok::<Seq<NodeView>, SampleError>(after));
    assert(stack.len() > 0 && stack.last() == root) by {
        assert(stacks[ts[k - 1].stack_id as int].len() > 0);
    }
    assert(path[0] == frames[root as int]);
    lemma_root_fingerprint(path);
    assert(start <= end);
    assert(ts[0].timestamp_ns <= start);
    if k > 1 {
        lemma_same_root_gives_one_root(frames, stacks, ts, k - 1, root);
        lemma_contiguous_sample_merges(before, path, 0, start, end);
        assert(after.last().frame == before.last().frame);
        assert(after.last().fingerprint == before.last().fingerprint);
    } else {
        assert(before.len() == 0);
        lemma_other_sample_starts_sibling(before, path, 0, start, end);
        assert(after.last().duration_ns == end - start);
    }
}

/// A thread that has a sample is named in the order of the threads.
pub proof fn lemma_thread_order_names_thread(samples: Seq<SampleView>, tid: Seq<char>)
    requires
        samples.filter(of_thread(tid)).len() > 0,
    ensures
        thread_order(samples).contains(tid),
    decreases samples.len(),
{
    reveal(Seq::filter);
    if samples.len() > 0 {
        let rest = samples.drop_last();
        let order = thread_order(rest);
        if samples.last().thread_id == tid {
            if order.contains(tid) {
            } else {
                assert(order.push(tid).last() == tid);
            }
        } else {
            assert(rest.filter(of_thread(tid)) == samples.filter(of_thread(tid)));
            lemma_thread_order_names_thread(rest, tid);
            let w = choose|w: int| 0 <= w < order.len() && order[w] == tid;
            if !order.contains(samples.last().thread_id) {
                assert(order.push(samples.last().thread_id)[w] == tid);
            }
        }
    }
}

/// Where the call trees of the first `n` threads are built, the thread at
/// `q` among them, unless another thread is the active one, has trees,
/// and where these are not empty they stand in an entry under its name.
pub proof fn lemma_trees_of_threads_has_entry(
    frames: Seq<FrameView>,
    stacks: Seq<Seq<i32>>,
    samples: Seq<SampleView>,
    threads: Seq<Seq<char>>,
    active: Option<Seq<char>>,
    n: int,
    q: int,
)
    requires
        0 <= q < n <= threads.len(),
        active is Some ==> active->0 == threads[q],
        trees_of_threads(frames, stacks, samples, threads, active, n) is Ok,
    ensures
        thread_trees(frames, stacks, samples.filter(of_thread(threads[q]))) is Ok,
        thread_trees(frames, stacks, samples.filter(of_thread(threads[q])))->Ok_0.len() > 0
            ==> exists|i: int|
            0 <= i < trees_of_threads(frames, stacks, samples, threads, active, n)->Ok_0.len()
                && #[trigger] trees_of_threads(frames, stacks, samples, threads, active, n)->Ok_0[i]
                == (ThreadCallTreesView {
                thread_id: threads[q],
                trees: thread_trees(frames, stacks, samples.filter(of_thread(threads[q])))->Ok_0,
            }),
    decreases n,
{
    let done = trees_of_threads(frames, stacks, samples, threads, active, n - 1)->Ok_0;
    let out = trees_of_threads(frames, stacks, samples, threads, active, n)->Ok_0;
    let forest = thread_trees(frames, stacks, samples.filter(of_thread(threads[q])))->Ok_0;
    if q < n - 1 {
        lemma_trees_of_threads_has_entry(frames, stacks, samples, threads, active, n - 1, q);
        if forest.len() > 0 {
            let i = choose|i: int|
                0 <= i < done.len() && #[trigger] done[i] == (ThreadCallTreesView {
                    thread_id: threads[q],
                    trees: forest,
                });
            assert(out[i] == done[i]);
        }
    } else {
        if forest.len() > 0 {
            assert(out == done.push(ThreadCallTreesView { thread_id: threads[q], trees: forest }));
            assert(out[out.len() - 1] == (ThreadCallTreesView {
                thread_id: threads[q],
                trees: forest,
            }));
        }
    }
}

/// Where a thread has two samples or more, and all of them but the latest
/// have the same root frame, the call trees hold for it one root, made
/// from that frame, that lasts from the earliest of its samples to the
/// latest and counts every sample but the latest.
pub proof fn lemma_call_trees_one_root(
    frames: Seq<FrameView>,
    stacks: Seq<Seq<i32>>,
    samples: Seq<SampleView>,
    active: Option<Seq<char>>,
    tid: Seq<char>,
    root: i32,
)
    requires
        sorted_by_time(samples),
        samples.len() <= usize::MAX,
        call_trees_of(frames, stacks, samples, active) is Ok,
        active is Some ==> active->0 == tid,
        samples.filter(of_thread(tid)).len() >= 2,
        rooted_at(
            stacks,
            samples.filter(of_thread(tid)),
            samples.filter(of_thread(tid)).len() - 1,
            root,
        ),
    ensures
        exists|i: int|
            0 <= i < call_trees_of(frames, stacks, samples, active)->Ok_0.len() && (
            #[trigger] call_trees_of(frames, stacks, samples, active)->Ok_0[i]).thread_id == tid
                && one_root(
                call_trees_of(frames, stacks, samples, active)->Ok_0[i].trees,
                frames[root as int],
                samples.filter(of_thread(tid)).first().timestamp_ns,
                samples.filter(of_thread(tid)).last().timestamp_ns,
                samples.filter(of_thread(tid)).len() - 1,
            ),
{
    let threads = thread_order(samples);
    let out = call_trees_of(frames, stacks, samples, active)->Ok_0;
    let ts = samples.filter(of_thread(tid));
    lemma_thread_order_names_thread(samples, tid);
    let q = choose|q: int| 0 <= q < threads.len() && threads[q] == tid;
    lemma_trees_of_threads_has_entry(
        frames,
        stacks,
        samples,
        threads,
        active,
        threads.len() as int,
        q,
    );
    lemma_filter_sorted(samples, tid);
    samples.lemma_filter_len(of_thread(tid));
    lemma_same_root_gives_one_root(frames, stacks, ts, ts.len() - 1, root);
    let forest = thread_trees(frames, stacks, ts)->Ok_0;
    let i = choose|i: int|
        0 <= i < out.len() && #[trigger] out[i] == (ThreadCallTreesView {
            thread_id: threads[q],
            trees: forest,
        });
    assert(out[i].thread_id == tid);
}

} // verus!
