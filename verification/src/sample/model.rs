//! What the call trees of samples are: the forest that each sample leaves,
//! the build of a thread, and the build of all threads.

use crate::fingerprint::fnv1a;
use crate::frame::FrameView;
use crate::frame::rules::hash_bytes;
use crate::nodetree::NodeView;
use crate::sample::v2::{SampleView, ThreadCallTreesView};
use super::SampleError;
use vstd::prelude::*;

verus! {

/// No sample is earlier than one before it.
pub open spec fn sorted_by_time(samples: Seq<SampleView>) -> bool {
    forall|i: int, j: int|
        0 <= i <= j < samples.len() ==> samples[i].timestamp_ns <= samples[j].timestamp_ns
}

/// What is wrong with a sample's stack, if anything: an index outside the
/// stack table, or else, in the stack, an index outside the frame table.
pub open spec fn stack_error(frame_count: nat, stacks: Seq<Seq<i32>>, stack_id: i32) -> Option<
    SampleError,
> {
    if stack_id < 0 || stack_id >= stacks.len() {
        Some(SampleError::InvalidStackId)
    } else if exists|k: int|
        0 <= k < stacks[stack_id as int].len() && !(0 <= #[trigger] stacks[stack_id as int][k]
            < frame_count) {
        Some(SampleError::InvalidFrameId)
    } else {
        None
    }
}

/// The frames of a stack from the root to the leaf.
pub open spec fn resolved_stack(frames: Seq<FrameView>, stack: Seq<i32>) -> Seq<FrameView> {
    Seq::new(stack.len(), |d: int| frames[stack[stack.len() - 1 - d] as int])
}

/// What the first `n` frames of a path feed to the hasher.
pub open spec fn path_bytes(path: Seq<FrameView>, n: int) -> Seq<u8>
    decreases n,
{
    if n <= 0 {
        Seq::empty()
    } else {
        path_bytes(path, n - 1) + hash_bytes(path[n - 1])
    }
}

/// The fingerprint of the frame at `depth` of a path: the hash of all the
/// frames from the root down to it.
pub open spec fn fingerprint_at(path: Seq<FrameView>, depth: int) -> u64 {
    fnv1a(path_bytes(path, depth + 1))
}

/// The forest after a sample with the frames `path`, taken from `depth` on,
/// has been added for the time from `start` to `end`. At each level the
/// last node takes the sample in where it has the same fingerprint and ends
/// at `start`; otherwise a new node is appended.
pub open spec fn with_sample(
    forest: Seq<NodeView>,
    path: Seq<FrameView>,
    depth: int,
    start: u64,
    end: u64,
) -> Seq<NodeView>
    decreases path.len() - depth,
{
    if depth < 0 || depth >= path.len() {
        forest
    } else {
        let fingerprint = fingerprint_at(path, depth);
        if forest.len() > 0 && forest.last().fingerprint == fingerprint && forest.last().end_ns
            == start {
            let last = forest.last();
            forest.drop_last().push(
                NodeView {
                    children: with_sample(last.children, path, depth + 1, start, end),
                    ..last.updated(end)
                },
            )
        } else {
            forest.push(
                NodeView {
                    children: with_sample(Seq::empty(), path, depth + 1, start, end),
                    ..NodeView::from_frame(path[depth], start, end, fingerprint)
                },
            )
        }
    }
}

/// The frame ids of a stack all lie in a frame table of `frame_count`
/// entries.
pub open spec fn stack_in_range(stack: Seq<i32>, frame_count: nat) -> bool {
    forall|k: int| 0 <= k < stack.len() ==> 0 <= #[trigger] stack[k] < frame_count
}

/// The largest count for which one more sample can still be counted.
pub open spec fn count_limit() -> nat {
    (u64::MAX - 1) as nat
}

/// The sample that starts at `start` continues the last node of `level`:
/// that node has the fingerprint `fingerprint` and ends at `start`.
pub open spec fn continues(level: Seq<NodeView>, fingerprint: u64, start: u64) -> bool {
    level.len() > 0 && level.last().fingerprint == fingerprint && level.last().end_ns == start
}

/// The samples of the thread `tid`.
pub open spec fn of_thread(tid: Seq<char>) -> spec_fn(SampleView) -> bool {
    |s: SampleView| s.thread_id == tid
}

/// The forest of one thread after `k` of its samples `ts`, each lasting
/// until the next one, or the error of the first among them whose stack is
/// not valid.
pub open spec fn thread_build(
    frames: Seq<FrameView>,
    stacks: Seq<Seq<i32>>,
    ts: Seq<SampleView>,
    k: int,
) -> Result<Seq<NodeView>, SampleError>
    decreases k,
{
    if k <= 0 {
        Ok(Seq::empty())
    } else {
        match thread_build(frames, stacks, ts, k - 1) {
            Err(e) => Err(e),
            Ok(forest) => match stack_error(frames.len(), stacks, ts[k - 1].stack_id) {
                Some(e) => Err(e),
                None => Ok(
                    with_sample(
                        forest,
                        resolved_stack(frames, stacks[ts[k - 1].stack_id as int]),
                        0,
                        ts[k - 1].timestamp_ns,
                        ts[k].timestamp_ns,
                    ),
                ),
            },
        }
    }
}

/// The forest of a thread with the samples `ts`: every sample but the
/// last, which only tells when the one before it ends.
pub open spec fn thread_trees(
    frames: Seq<FrameView>,
    stacks: Seq<Seq<i32>>,
    ts: Seq<SampleView>,
) -> Result<Seq<NodeView>, SampleError> {
    thread_build(frames, stacks, ts, ts.len() - 1)
}

/// The thread ids of the samples, each once, in the order in which they
/// first occur.
pub open spec fn thread_order(samples: Seq<SampleView>) -> Seq<Seq<char>>
    decreases samples.len(),
{
    if samples.len() == 0 {
        Seq::empty()
    } else {
        let rest = thread_order(samples.drop_last());
        if rest.contains(samples.last().thread_id) {
            rest
        } else {
            rest.push(samples.last().thread_id)
        }
    }
}

/// The call trees of the first `n` of `threads`, or the first error met.
/// With an active thread given, every other thread is passed over. A
/// thread without a tree has no entry.
pub open spec fn trees_of_threads(
    frames: Seq<FrameView>,
    stacks: Seq<Seq<i32>>,
    samples: Seq<SampleView>,
    threads: Seq<Seq<char>>,
    active: Option<Seq<char>>,
    n: int,
) -> Result<Seq<ThreadCallTreesView>, SampleError>
    decreases n,
{
    if n <= 0 {
        Ok(Seq::empty())
    } else {
        match trees_of_threads(frames, stacks, samples, threads, active, n - 1) {
            Err(e) => Err(e),
            Ok(done) => {
                let tid = threads[n - 1];
                if active is Some && active->0 != tid {
                    Ok(done)
                } else {
                    match thread_trees(frames, stacks, samples.filter(of_thread(tid))) {
                        Err(e) => Err(e),
                        Ok(forest) => if forest.len() == 0 {
                            Ok(done)
                        } else {
                            Ok(done.push(ThreadCallTreesView { thread_id: tid, trees: forest }))
                        },
                    }
                }
            },
        }
    }
}

/// The call trees of samples that are sorted by time, thread by thread in
/// the order in which the threads first occur.
pub open spec fn call_trees_of(
    frames: Seq<FrameView>,
    stacks: Seq<Seq<i32>>,
    samples: Seq<SampleView>,
    active: Option<Seq<char>>,
) -> Result<Seq<ThreadCallTreesView>, SampleError> {
    trees_of_threads(
        frames,
        stacks,
        samples,
        thread_order(samples),
        active,
        thread_order(samples).len() as int,
    )
}

/// The durations of the roots of a forest, added up.
pub open spec fn total_duration(forest: Seq<NodeView>) -> int
    decreases forest.len(),
{
    if forest.len() == 0 {
        0
    } else {
        total_duration(forest.drop_last()) + forest.last().duration_ns
    }
}

/// The roots lie end to end from `from` to `to`: the first starts at
/// `from`, each next one starts where the one before it ends, the last
/// ends at `to`, and each lasts from its start to its end.
pub open spec fn roots_tile(forest: Seq<NodeView>, from: u64, to: u64) -> bool {
    &&& forest.len() > 0
    &&& forest.first().start_ns == from
    &&& forest.last().end_ns == to
    &&& forall|i: int| 0 <= i < forest.len() ==> (#[trigger] forest[i]).well_formed()
    &&& forall|i: int| 0 <= i < forest.len() - 1 ==> (#[trigger] forest[i]).end_ns == forest[i
        + 1].start_ns
}

/// The node starts with one of the first `k` samples and ends with a later
/// one, no later than the sample after them, and lasts for the time between
/// the two.
pub open spec fn lasts_between_samples(n: NodeView, ts: Seq<SampleView>, k: int) -> bool {
    exists|i: int, j: int|
        0 <= i < j <= k && n.start_ns == (#[trigger] ts[i]).timestamp_ns && n.end_ns == (
        #[trigger] ts[j]).timestamp_ns && n.duration_ns == ts[j].timestamp_ns
            - ts[i].timestamp_ns
}

/// No thread id occurs twice.
pub open spec fn distinct_ids(ids: Seq<Seq<char>>) -> bool {
    forall|i: int, j: int| 0 <= i < j < ids.len() ==> ids[i] != ids[j]
}

/// No thread has two entries.
pub open spec fn distinct_threads(trees: Seq<ThreadCallTreesView>) -> bool {
    forall|i: int, j: int| 0 <= i < j < trees.len() ==> trees[i].thread_id != trees[j].thread_id
}

/// The entry `entry` holds the trees of the thread `tid`, which are not
/// empty, and the thread is the active one where one is given.
pub open spec fn entry_of_thread(
    entry: ThreadCallTreesView,
    frames: Seq<FrameView>,
    stacks: Seq<Seq<i32>>,
    samples: Seq<SampleView>,
    active: Option<Seq<char>>,
    tid: Seq<char>,
) -> bool {
    &&& entry.thread_id == tid
    &&& active is Some ==> active->0 == tid
    &&& entry.trees.len() > 0
    &&& thread_trees(frames, stacks, samples.filter(of_thread(tid))) == Ok::<
        Seq<NodeView>,
        SampleError,
    >(entry.trees)
}

/// The order of the threads names each thread once.
pub proof fn lemma_thread_order_distinct(samples: Seq<SampleView>)
    ensures
        distinct_ids(thread_order(samples)),
    decreases samples.len(),
{
    if samples.len() > 0 {
        lemma_thread_order_distinct(samples.drop_last());
    }
}

/// Every entry of the call trees of the first `n` threads holds the trees
/// of one of these threads, and the entries follow the order of the
/// threads.
pub proof fn lemma_trees_of_threads_entries(
    frames: Seq<FrameView>,
    stacks: Seq<Seq<i32>>,
    samples: Seq<SampleView>,
    threads: Seq<Seq<char>>,
    active: Option<Seq<char>>,
    n: int,
)
    requires
        0 <= n <= threads.len(),
        trees_of_threads(frames, stacks, samples, threads, active, n) is Ok,
    ensures
        forall|i: int|
            0 <= i < trees_of_threads(frames, stacks, samples, threads, active, n)->Ok_0.len()
                ==> exists|q: int|
                0 <= q < n && entry_of_thread(
                    #[trigger] trees_of_threads(
                        frames,
                        stacks,
                        samples,
                        threads,
                        active,
                        n,
                    )->Ok_0[i],
                    frames,
                    stacks,
                    samples,
                    active,
                    #[trigger] threads[q],
                ),
    decreases n,
{
    if n > 0 {
        lemma_trees_of_threads_entries(frames, stacks, samples, threads, active, n - 1);
        let done = trees_of_threads(frames, stacks, samples, threads, active, n - 1)->Ok_0;
        let out = trees_of_threads(frames, stacks, samples, threads, active, n)->Ok_0;
        assert forall|i: int| 0 <= i < out.len() implies exists|q: int|
            0 <= q < n && entry_of_thread(
                #[trigger] out[i],
                frames,
                stacks,
                samples,
                active,
                #[trigger] threads[q],
            ) by {
            if i < done.len() {
                assert(out[i] == done[i]);
                let q = choose|q: int|
                    0 <= q < n - 1 && entry_of_thread(
                        done[i],
                        frames,
                        stacks,
                        samples,
                        active,
                        #[trigger] threads[q],
                    );
                assert(entry_of_thread(out[i], frames, stacks, samples, active, threads[q]));
            } else {
                assert(entry_of_thread(out[i], frames, stacks, samples, active, threads[n - 1]));
            }
        }
    }
}

/// The call trees of the first `n` threads hold no thread twice, given
/// that the threads are named once each.
pub proof fn lemma_trees_of_threads_distinct(
    frames: Seq<FrameView>,
    stacks: Seq<Seq<i32>>,
    samples: Seq<SampleView>,
    threads: Seq<Seq<char>>,
    active: Option<Seq<char>>,
    n: int,
)
    requires
        0 <= n <= threads.len(),
        distinct_ids(threads),
        trees_of_threads(frames, stacks, samples, threads, active, n) is Ok,
    ensures
        distinct_threads(trees_of_threads(frames, stacks, samples, threads, active, n)->Ok_0),
    decreases n,
{
    if n > 0 {
        lemma_trees_of_threads_distinct(frames, stacks, samples, threads, active, n - 1);
        lemma_trees_of_threads_entries(frames, stacks, samples, threads, active, n - 1);
        let done = trees_of_threads(frames, stacks, samples, threads, active, n - 1)->Ok_0;
        let out = trees_of_threads(frames, stacks, samples, threads, active, n)->Ok_0;
        assert forall|i: int, j: int| 0 <= i < j < out.len() implies out[i].thread_id
            != out[j].thread_id by {
            if j < done.len() {
                assert(out[i] == done[i] && out[j] == done[j]);
            } else {
                assert(out[i] == done[i]);
                let q = choose|q: int|
                    0 <= q < n - 1 && entry_of_thread(
                        done[i],
                        frames,
                        stacks,
                        samples,
                        active,
                        #[trigger] threads[q],
                    );
                assert(threads[q] != threads[n - 1]);
            }
        }
    }
}

/// In the call trees of a chunk each thread id occurs once.
pub proof fn lemma_call_trees_threads_distinct(
    frames: Seq<FrameView>,
    stacks: Seq<Seq<i32>>,
    samples: Seq<SampleView>,
    active: Option<Seq<char>>,
)
    requires
        call_trees_of(frames, stacks, samples, active) is Ok,
    ensures
        distinct_threads(call_trees_of(frames, stacks, samples, active)->Ok_0),
{
    lemma_thread_order_distinct(samples);
    lemma_trees_of_threads_distinct(
        frames,
        stacks,
        samples,
        thread_order(samples),
        active,
        thread_order(samples).len() as int,
    );
}

/// No two neighbours in the list could have been one node, and each ends
/// before the next starts or when it starts: neighbours do not have the
/// same fingerprint with the one ending where the other starts.
pub open spec fn siblings_apart(list: Seq<NodeView>) -> bool {
    forall|i: int|
        0 <= i < list.len() - 1 ==> {
            &&& !((#[trigger] list[i]).fingerprint == list[i + 1].fingerprint && list[i].end_ns
                == list[i + 1].start_ns)
            &&& list[i].end_ns <= list[i + 1].start_ns
        }
}

/// The children of the node are apart, and so are those of every node
/// below it.
pub open spec fn tree_apart(n: NodeView) -> bool
    decreases n,
{
    &&& siblings_apart(n.children)
    &&& forall|i: int| 0 <= i < n.children.len() ==> tree_apart(#[trigger] n.children[i])
}

/// The roots are apart, and so are the children of every node.
pub open spec fn forest_apart(forest: Seq<NodeView>) -> bool {
    &&& siblings_apart(forest)
    &&& forall|i: int| 0 <= i < forest.len() ==> tree_apart(#[trigger] forest[i])
}

/// The children of every node of the tree are apart, and no node ends
/// after `t`.
pub open spec fn tree_settled(n: NodeView, t: u64) -> bool
    decreases n,
{
    &&& n.end_ns <= t
    &&& siblings_apart(n.children)
    &&& forall|i: int| 0 <= i < n.children.len() ==> tree_settled(#[trigger] n.children[i], t)
}

/// The roots are apart, the children of every node are apart, and no node
/// ends after `t`.
pub open spec fn forest_settled(forest: Seq<NodeView>, t: u64) -> bool {
    &&& siblings_apart(forest)
    &&& forall|i: int| 0 <= i < forest.len() ==> tree_settled(#[trigger] forest[i], t)
}

/// In the trees of every thread the siblings are apart at every level.
pub open spec fn siblings_apart_throughout(trees: Seq<ThreadCallTreesView>) -> bool {
    forall|i: int| 0 <= i < trees.len() ==> forest_apart((#[trigger] trees[i]).trees)
}

/// Every node of the list starts no earlier than `from`, ends no later
/// than `to`, and holds its own children, and they theirs, within the time
/// from its start to its end.
pub open spec fn forest_within(list: Seq<NodeView>, from: u64, to: u64) -> bool
    decreases list,
{
    forall|i: int|
        0 <= i < list.len() ==> {
            &&& from <= (#[trigger] list[i]).start_ns
            &&& list[i].start_ns <= list[i].end_ns
            &&& list[i].end_ns <= to
            &&& forest_within(list[i].children, list[i].start_ns, list[i].end_ns)
        }
}

/// In the trees of every thread each node holds its children within the
/// time from its start to its end.
pub open spec fn children_within_throughout(trees: Seq<ThreadCallTreesView>) -> bool {
    forall|i: int| 0 <= i < trees.len() ==> forest_within((#[trigger] trees[i]).trees, 0, u64::MAX)
}

/// The samples that the nodes of a list count, added up.
pub open spec fn total_count(list: Seq<NodeView>) -> int
    decreases list.len(),
{
    if list.len() == 0 {
        0
    } else {
        total_count(list.drop_last()) + list.last().sample_count
    }
}

/// Every node of the list counts at least as many samples as its children
/// together, and so does every node below it.
pub open spec fn forest_counted(list: Seq<NodeView>) -> bool
    decreases list,
{
    forall|i: int|
        0 <= i < list.len() ==> {
            &&& total_count((#[trigger] list[i]).children) <= list[i].sample_count
            &&& forest_counted(list[i].children)
        }
}

/// In the trees of every thread each node counts at least as many samples
/// as its children together.
pub open spec fn counts_add_up_throughout(trees: Seq<ThreadCallTreesView>) -> bool {
    forall|i: int| 0 <= i < trees.len() ==> forest_counted((#[trigger] trees[i]).trees)
}

} // verus!
