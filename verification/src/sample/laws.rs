//! What holds of the call trees of samples.

use crate::fingerprint::fnv1a;
use crate::frame::FrameView;
use crate::frame::laws::{lemma_hash_bytes_of_blank, lemma_hash_bytes_of_package_and_name};
use crate::frame::rules::{function_name, hash_bytes, module_or_package};
use crate::nodetree::{forest_bounded, lemma_tree_bounded_grows, tree_bounded, NodeView};
use crate::sample::model::{
    continues, fingerprint_at, lasts_between_samples, of_thread, path_bytes, resolved_stack,
    roots_tile, sorted_by_time, thread_build, total_duration, trees_of_threads, with_sample,
};
use crate::sample::v2::SampleView;
use super::SampleError;
use vstd::prelude::*;
use vstd::utf8::encode_utf8;

verus! {

/// Adding a sample keeps a forest well formed, and raises the count of a
/// node by one at most.
pub proof fn lemma_with_sample_bounded(
    forest: Seq<NodeView>,
    path: Seq<FrameView>,
    depth: int,
    start: u64,
    end: u64,
    bound: nat,
)
    requires
        forest_bounded(forest, bound),
        start <= end,
        bound < u64::MAX,
    ensures
        forest_bounded(with_sample(forest, path, depth, start, end), bound + 1),
    decreases path.len() - depth,
{
    let out = with_sample(forest, path, depth, start, end);
    assert forall|i: int| 0 <= i < forest.len() implies tree_bounded(
        #[trigger] forest[i],
        bound + 1,
    ) by {
        lemma_tree_bounded_grows(forest[i], bound, bound + 1);
    }
    if depth < 0 || depth >= path.len() {
    } else {
        let fingerprint = fingerprint_at(path, depth);
        if forest.len() > 0 && forest.last().fingerprint == fingerprint && forest.last().end_ns
            == start {
            let last = forest.last();
            assert(tree_bounded(last, bound));
            assert(forest_bounded(last.children, bound));
            lemma_with_sample_bounded(last.children, path, depth + 1, start, end, bound);
            assert(tree_bounded(out.last(), bound + 1));
            assert forall|i: int| 0 <= i < out.len() implies tree_bounded(
                #[trigger] out[i],
                bound + 1,
            ) by {
                if i < out.len() - 1 {
                    assert(out[i] == forest[i]);
                }
            }
        } else {
            lemma_with_sample_bounded(Seq::empty(), path, depth + 1, start, end, bound);
            assert(tree_bounded(out.last(), bound + 1));
            assert forall|i: int| 0 <= i < out.len() implies tree_bounded(
                #[trigger] out[i],
                bound + 1,
            ) by {
                if i < out.len() - 1 {
                    assert(out[i] == forest[i]);
                }
            }
        }
    }
}

/// What a thread's build is after `k` samples depends on its first `k + 1`
/// samples alone.
pub proof fn lemma_thread_build_prefix(
    frames: Seq<FrameView>,
    stacks: Seq<Seq<i32>>,
    ts: Seq<SampleView>,
    us: Seq<SampleView>,
    k: int,
)
    requires
        k < ts.len(),
        k < us.len(),
        forall|i: int| 0 <= i <= k ==> ts[i] == us[i],
    ensures
        thread_build(frames, stacks, ts, k) == thread_build(frames, stacks, us, k),
    decreases k,
{
    if k > 0 {
        lemma_thread_build_prefix(frames, stacks, ts, us, k - 1);
    }
}

/// An error, once met, stays.
pub proof fn lemma_thread_build_error_stays(
    frames: Seq<FrameView>,
    stacks: Seq<Seq<i32>>,
    ts: Seq<SampleView>,
    k: int,
    later: int,
)
    requires
        k <= later,
        thread_build(frames, stacks, ts, k) is Err,
    ensures
        thread_build(frames, stacks, ts, later) == thread_build(frames, stacks, ts, k),
    decreases later - k,
{
    if k < later {
        lemma_thread_build_error_stays(frames, stacks, ts, k, later - 1);
    }
}

/// A build without error leaves a forest in which every node, at every
/// depth, ends no earlier than it starts, lasts from its start to its end,
/// and counts no more samples than were added.
pub proof fn lemma_thread_build_bounded(
    frames: Seq<FrameView>,
    stacks: Seq<Seq<i32>>,
    ts: Seq<SampleView>,
    k: int,
)
    requires
        0 <= k < ts.len(),
        k < u64::MAX,
        sorted_by_time(ts),
        thread_build(frames, stacks, ts, k) is Ok,
    ensures
        forest_bounded(thread_build(frames, stacks, ts, k)->Ok_0, k as nat),
    decreases k,
{
    if k > 0 {
        lemma_thread_build_bounded(frames, stacks, ts, k - 1);
        lemma_with_sample_bounded(
            thread_build(frames, stacks, ts, k - 1)->Ok_0,
            resolved_stack(frames, stacks[ts[k - 1].stack_id as int]),
            0,
            ts[k - 1].timestamp_ns,
            ts[k].timestamp_ns,
            (k - 1) as nat,
        );
    }
}

/// The samples of a thread among the first `j` are the first of all its
/// samples.
pub proof fn lemma_filter_take_is_prefix(samples: Seq<SampleView>, tid: Seq<char>, j: int)
    requires
        0 <= j <= samples.len(),
    ensures
        samples.take(j).filter(of_thread(tid)).len() <= samples.filter(of_thread(tid)).len(),
        samples.take(j).filter(of_thread(tid)) == samples.filter(of_thread(tid)).take(
            samples.take(j).filter(of_thread(tid)).len() as int,
        ),
{
    let p = of_thread(tid);
    assert(samples =~= samples.take(j) + samples.skip(j));
    Seq::filter_distributes_over_add(samples.take(j), samples.skip(j), p);
    let a = samples.take(j).filter(p);
    let b = samples.skip(j).filter(p);
    assert((a + b).take(a.len() as int) =~= a);
}

/// A sorted sequence stays sorted where only the samples of one thread are
/// kept.
pub proof fn lemma_filter_sorted(samples: Seq<SampleView>, tid: Seq<char>)
    requires
        sorted_by_time(samples),
    ensures
        sorted_by_time(samples.filter(of_thread(tid))),
    decreases samples.len(),
{
    let p = of_thread(tid);
    reveal(Seq::filter);
    if samples.len() > 0 {
        let rest = samples.drop_last();
        lemma_filter_sorted(rest, tid);
        let fr = rest.filter(p);
        if p(samples.last()) {
            let out = fr.push(samples.last());
            assert forall|i: int, j: int| 0 <= i <= j < out.len() implies out[i].timestamp_ns
                <= out[j].timestamp_ns by {
                if j == out.len() - 1 && i < j {
                    rest.lemma_filter_contains_rev(p, fr[i]);
                    let w = choose|w: int| 0 <= w < rest.len() && rest[w] == fr[i];
                    assert(samples[w] == fr[i]);
                }
            }
        }
    }
}

/// An error, once met, stays.
pub proof fn lemma_trees_of_threads_error_stays(
    frames: Seq<FrameView>,
    stacks: Seq<Seq<i32>>,
    samples: Seq<SampleView>,
    threads: Seq<Seq<char>>,
    active: Option<Seq<char>>,
    n: int,
    later: int,
)
    requires
        n <= later,
        trees_of_threads(frames, stacks, samples, threads, active, n) is Err,
    ensures
        trees_of_threads(frames, stacks, samples, threads, active, later) == trees_of_threads(
            frames,
            stacks,
            samples,
            threads,
            active,
            n,
        ),
    decreases later - n,
{
    if n < later {
        lemma_trees_of_threads_error_stays(frames, stacks, samples, threads, active, n, later - 1);
    }
}

/// The fingerprint of a frame in a stack is a function of the packages and
/// function names of the frames from the root down to it: two paths that
/// agree on these down to `depth` give the same fingerprint there.
pub proof fn lemma_fingerprint_of_packages_and_names(
    path: Seq<FrameView>,
    other: Seq<FrameView>,
    depth: int,
)
    requires
        0 <= depth < path.len(),
        depth < other.len(),
        forall|d: int|
            0 <= d <= depth ==> module_or_package(#[trigger] path[d]) == module_or_package(other[d])
                && function_name(path[d]) == function_name(other[d]),
    ensures
        fingerprint_at(path, depth) == fingerprint_at(other, depth),
{
    lemma_path_bytes_agree(path, other, depth + 1);
}

/// Two paths that agree on packages and function names in their first `n`
/// frames feed the same bytes to the hasher there.
pub proof fn lemma_path_bytes_agree(path: Seq<FrameView>, other: Seq<FrameView>, n: int)
    requires
        0 <= n <= path.len(),
        n <= other.len(),
        forall|d: int|
            0 <= d < n ==> module_or_package(#[trigger] path[d]) == module_or_package(other[d])
                && function_name(path[d]) == function_name(other[d]),
    ensures
        path_bytes(path, n) == path_bytes(other, n),
    decreases n,
{
    if n > 0 {
        lemma_path_bytes_agree(path, other, n - 1);
        assert(module_or_package(path[n - 1]) == module_or_package(other[n - 1]));
        lemma_hash_bytes_of_package_and_name(path[n - 1], other[n - 1]);
    }
}

/// A root frame with neither package nor function name always has the same
/// fingerprint: the hash of two dashes.
pub proof fn lemma_blank_root_fingerprint(path: Seq<FrameView>)
    requires
        path.len() > 0,
        module_or_package(path[0]).len() == 0,
        function_name(path[0]).len() == 0,
    ensures
        fingerprint_at(path, 0) == fnv1a(encode_utf8("-"@) + encode_utf8("-"@)),
{
    lemma_hash_bytes_of_blank(path[0]);
    assert(path_bytes(path, 0) =~= Seq::<u8>::empty());
    assert(path_bytes(path, 1) =~= hash_bytes(path[0]));
}

/// A sample that continues the last node at `depth` is taken into it: no
/// node is added, and the last node counts one sample more and ends at `end`.
pub proof fn lemma_contiguous_sample_merges(
    forest: Seq<NodeView>,
    path: Seq<FrameView>,
    depth: int,
    start: u64,
    end: u64,
)
    requires
        0 <= depth < path.len(),
        forest.len() > 0,
        forest.last().fingerprint == fingerprint_at(path, depth),
        forest.last().end_ns == start,
    ensures
        with_sample(forest, path, depth, start, end).len() == forest.len(),
        with_sample(forest, path, depth, start, end).drop_last() == forest.drop_last(),
        with_sample(forest, path, depth, start, end).last().sample_count == (forest.last().sample_count
            + 1) as u64,
        with_sample(forest, path, depth, start, end).last().start_ns == forest.last().start_ns,
        with_sample(forest, path, depth, start, end).last().end_ns == end,
        with_sample(forest, path, depth, start, end).last().duration_ns == (end
            - forest.last().start_ns) as u64,
        with_sample(forest, path, depth, start, end).last().children == with_sample(
            forest.last().children,
            path,
            depth + 1,
            start,
            end,
        ),
{
    let out = with_sample(forest, path, depth, start, end);
    assert(out.drop_last() =~= forest.drop_last());
}

/// A sample that does not continue the last node at `depth`, because that
/// node is another frame or ended at another time, starts a new node after
/// all the others, with one sample from `start` to `end`.
pub proof fn lemma_other_sample_starts_sibling(
    forest: Seq<NodeView>,
    path: Seq<FrameView>,
    depth: int,
    start: u64,
    end: u64,
)
    requires
        0 <= depth < path.len(),
        forest.len() > 0 ==> forest.last().fingerprint != fingerprint_at(path, depth)
            || forest.last().end_ns != start,
    ensures
        with_sample(forest, path, depth, start, end).len() == forest.len() + 1,
        with_sample(forest, path, depth, start, end).drop_last() == forest,
        with_sample(forest, path, depth, start, end).last().sample_count == 1,
        with_sample(forest, path, depth, start, end).last().start_ns == start,
        with_sample(forest, path, depth, start, end).last().end_ns == end,
        with_sample(forest, path, depth, start, end).last().frame == path[depth],
        with_sample(forest, path, depth, start, end).last().fingerprint == fingerprint_at(path, depth),
{
    let out = with_sample(forest, path, depth, start, end);
    assert(out.drop_last() =~= forest);
}

/// Two samples with the same stack, the second starting when the first
/// ends, give one node at each depth: the second sample adds no node to
/// what the first has left, and the last node then counts one sample more
/// and ends with the second sample.
pub proof fn lemma_same_stack_twice_merges(
    forest: Seq<NodeView>,
    path: Seq<FrameView>,
    depth: int,
    t0: u64,
    t1: u64,
    t2: u64,
)
    requires
        0 <= depth < path.len(),
    ensures
        ({
            let once = with_sample(forest, path, depth, t0, t1);
            let twice = with_sample(once, path, depth, t1, t2);
            &&& twice.len() == once.len()
            &&& twice.drop_last() == once.drop_last()
            &&& twice.last().sample_count == (once.last().sample_count + 1) as u64
            &&& twice.last().start_ns == once.last().start_ns
            &&& twice.last().end_ns == t2
        }),
{
    let once = with_sample(forest, path, depth, t0, t1);
    assert(once.len() > 0);
    assert(once.last().fingerprint == fingerprint_at(path, depth));
    assert(once.last().end_ns == t1);
    lemma_contiguous_sample_merges(once, path, depth, t1, t2);
}

/// Two samples with the same stack with a gap between them give two
/// nodes side by side, in the order of the samples.
pub proof fn lemma_same_stack_after_gap_is_sibling(
    forest: Seq<NodeView>,
    path: Seq<FrameView>,
    depth: int,
    t0: u64,
    t1: u64,
    t2: u64,
    t3: u64,
)
    requires
        0 <= depth < path.len(),
        t1 != t2,
    ensures
        ({
            let once = with_sample(forest, path, depth, t0, t1);
            let twice = with_sample(once, path, depth, t2, t3);
            &&& twice.len() == once.len() + 1
            &&& twice.drop_last() == once
            &&& twice.last().sample_count == 1
            &&& twice.last().start_ns == t2
            &&& twice.last().end_ns == t3
            &&& twice.last().fingerprint == once.last().fingerprint
        }),
{
    let once = with_sample(forest, path, depth, t0, t1);
    assert(once.len() > 0);
    assert(once.last().end_ns == t1);
    assert(once.last().fingerprint == fingerprint_at(path, depth));
    lemma_other_sample_starts_sibling(once, path, depth, t2, t3);
}

/// Moving the end of the last root of a tiling moves the end of the
/// tiling, and adds to the total what the root gains.
pub proof fn lemma_tile_extend_last(
    before: Seq<NodeView>,
    last: NodeView,
    from: u64,
    mid: u64,
    to: u64,
)
    requires
        roots_tile(before, from, mid),
        mid <= to,
        last.start_ns == before.last().start_ns,
        last.end_ns == to,
        last.well_formed(),
    ensures
        roots_tile(before.drop_last().push(last), from, to),
        total_duration(before.drop_last().push(last)) == total_duration(before) + (to - mid),
{
    let after = before.drop_last().push(last);
    assert(after.drop_last() =~= before.drop_last());
    assert(before.last().well_formed());
    assert forall|i: int| 0 <= i < after.len() implies (#[trigger] after[i]).well_formed() by {
        if i < after.len() - 1 {
            assert(after[i] == before[i]);
        }
    }
    assert forall|i: int| 0 <= i < after.len() - 1 implies (#[trigger] after[i]).end_ns == after[i
        + 1].start_ns by {
        assert(after[i] == before[i]);
        if i + 1 < after.len() - 1 {
            assert(after[i + 1] == before[i + 1]);
        }
    }
}

/// A root that starts where a tiling ends, appended to it, moves the end
/// of the tiling to its own end and adds its duration to the total.
pub proof fn lemma_tile_append(before: Seq<NodeView>, node: NodeView, from: u64, mid: u64, to: u64)
    requires
        before.len() == 0 ==> from == mid,
        before.len() > 0 ==> roots_tile(before, from, mid),
        mid <= to,
        node.start_ns == mid,
        node.end_ns == to,
        node.well_formed(),
    ensures
        roots_tile(before.push(node), from, to),
        total_duration(before.push(node)) == total_duration(before) + (to - mid),
{
    let after = before.push(node);
    assert(after.drop_last() =~= before);
    assert forall|i: int| 0 <= i < after.len() implies (#[trigger] after[i]).well_formed() by {
        if i < after.len() - 1 {
            assert(after[i] == before[i]);
        }
    }
    assert forall|i: int| 0 <= i < after.len() - 1 implies (#[trigger] after[i]).end_ns == after[i
        + 1].start_ns by {
        assert(after[i] == before[i]);
        if i + 1 < after.len() - 1 {
            assert(after[i + 1] == before[i + 1]);
        }
    }
}

/// Where every sample of a thread but the last has a stack with a frame in
/// it, the roots built from the first `k` samples lie end to end from the
/// first sample to the one after the last that was added, and their
/// durations add up to the time between these two samples.
pub proof fn lemma_roots_span_the_samples(
    frames: Seq<FrameView>,
    stacks: Seq<Seq<i32>>,
    ts: Seq<SampleView>,
    k: int,
)
    requires
        0 < k < ts.len(),
        sorted_by_time(ts),
        thread_build(frames, stacks, ts, k) is Ok,
        forall|i: int| 0 <= i < k ==> stacks[(#[trigger] ts[i]).stack_id as int].len() > 0,
    ensures
        roots_tile(
            thread_build(frames, stacks, ts, k)->Ok_0,
            ts[0].timestamp_ns,
            ts[k].timestamp_ns,
        ),
        total_duration(thread_build(frames, stacks, ts, k)->Ok_0) == ts[k].timestamp_ns
            - ts[0].timestamp_ns,
    decreases k,
{
    let before = thread_build(frames, stacks, ts, k - 1)->Ok_0;
    let path = resolved_stack(frames, stacks[ts[k - 1].stack_id as int]);
    let from = ts[0].timestamp_ns;
    let start = ts[k - 1].timestamp_ns;
    let end = ts[k].timestamp_ns;
    let after = with_sample(before, path, 0, start, end);
    assert(thread_build(frames, stacks, ts, k) == Ok::<Seq<NodeView>, SampleError>(after));
    assert(path.len() > 0) by {
        assert(stacks[ts[k - 1].stack_id as int].len() > 0);
    }
    assert(start <= end);
    if k > 1 {
        lemma_roots_span_the_samples(frames, stacks, ts, k - 1);
    } else {
        assert(before.len() == 0);
        assert(total_duration(before) == 0);
    }
    if before.len() > 0 && before.last().fingerprint == fingerprint_at(path, 0)
        && before.last().end_ns == start {
        lemma_contiguous_sample_merges(before, path, 0, start, end);
        assert(before.last().well_formed());
        assert(after =~= before.drop_last().push(after.last()));
        lemma_tile_extend_last(before, after.last(), from, start, end);
    } else {
        lemma_other_sample_starts_sibling(before, path, 0, start, end);
        assert(after =~= before.push(after.last()));
        lemma_tile_append(before, after.last(), from, start, end);
    }
}

/// Every root that is built from the samples of a thread lasts from the
/// first of its samples to the sample that follows the last of them.
pub proof fn lemma_roots_last_between_samples(
    frames: Seq<FrameView>,
    stacks: Seq<Seq<i32>>,
    ts: Seq<SampleView>,
    k: int,
)
    requires
        0 <= k < ts.len(),
        sorted_by_time(ts),
        thread_build(frames, stacks, ts, k) is Ok,
    ensures
        forall|r: int|
            0 <= r < thread_build(frames, stacks, ts, k)->Ok_0.len() ==> lasts_between_samples(
                #[trigger] thread_build(frames, stacks, ts, k)->Ok_0[r],
                ts,
                k,
            ),
    decreases k,
{
    if k > 0 {
        lemma_roots_last_between_samples(frames, stacks, ts, k - 1);
        let before = thread_build(frames, stacks, ts, k - 1)->Ok_0;
        let path = resolved_stack(frames, stacks[ts[k - 1].stack_id as int]);
        let start = ts[k - 1].timestamp_ns;
        let end = ts[k].timestamp_ns;
        let after = with_sample(before, path, 0, start, end);
        assert(thread_build(frames, stacks, ts, k) == Ok::<Seq<NodeView>, SampleError>(after));
        assert(start <= end);
        assert forall|r: int| 0 <= r < before.len() implies lasts_between_samples(
            #[trigger] before[r],
            ts,
            k,
        ) by {
            assert(lasts_between_samples(before[r], ts, k - 1));
            let (i, j) = choose|i: int, j: int|
                0 <= i < j <= k - 1 && before[r].start_ns == (#[trigger] ts[i]).timestamp_ns
                    && before[r].end_ns == (#[trigger] ts[j]).timestamp_ns && before[r].duration_ns
                    == ts[j].timestamp_ns - ts[i].timestamp_ns;
            assert(0 <= i < j <= k && before[r].start_ns == ts[i].timestamp_ns);
        }
        if path.len() == 0 {
        } else if before.len() > 0 && before.last().fingerprint == fingerprint_at(path, 0)
            && before.last().end_ns == start {
            lemma_contiguous_sample_merges(before, path, 0, start, end);
            let last = before.last();
            assert(lasts_between_samples(last, ts, k - 1));
            let (i, j) = choose|i: int, j: int|
                0 <= i < j <= k - 1 && last.start_ns == (#[trigger] ts[i]).timestamp_ns
                    && last.end_ns == (#[trigger] ts[j]).timestamp_ns && last.duration_ns
                    == ts[j].timestamp_ns - ts[i].timestamp_ns;
            assert(ts[i].timestamp_ns <= ts[k].timestamp_ns);
            assert(0 <= i < k <= k && after.last().start_ns == ts[i].timestamp_ns
                && after.last().end_ns == ts[k].timestamp_ns);
            assert(lasts_between_samples(after.last(), ts, k));
            assert forall|r: int| 0 <= r < after.len() implies lasts_between_samples(
                #[trigger] after[r],
                ts,
                k,
            ) by {
                if r < after.len() - 1 {
                    assert(after[r] == after.drop_last()[r]);
                    assert(before[r] == before.drop_last()[r]);
                }
            }
        } else {
            lemma_other_sample_starts_sibling(before, path, 0, start, end);
            assert(0 <= k - 1 < k <= k && after.last().start_ns == ts[k - 1].timestamp_ns
                && after.last().end_ns == ts[k].timestamp_ns);
            assert(after.last().duration_ns == end - start);
            assert(lasts_between_samples(after.last(), ts, k));
            assert forall|r: int| 0 <= r < after.len() implies lasts_between_samples(
                #[trigger] after[r],
                ts,
                k,
            ) by {
                if r < after.len() - 1 {
                    assert(after[r] == after.drop_last()[r]);
                }
            }
        }
    }
}

} // verus!
