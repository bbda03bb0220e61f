//! Call trees from sample chunks.

use crate::fingerprint::{hashed_bytes, hasher_finish, hasher_new};
use crate::frame::{Frame, FrameView};
use crate::nodetree::{
    forest_bounded, forest_view, lemma_forest_bounded_grows, tree_bounded, Node, NodeView,
};
use crate::sample::laws::{
    lemma_filter_take_is_prefix, lemma_thread_build_error_stays, lemma_thread_build_prefix,
    lemma_trees_of_threads_error_stays, lemma_with_sample_bounded,
};
use crate::sample::merge_laws::lemma_call_trees_siblings_apart;
use crate::sample::model::{
    call_trees_of, continues, count_limit, distinct_threads, fingerprint_at,
    lemma_call_trees_threads_distinct, of_thread, path_bytes, resolved_stack,
    siblings_apart_throughout, sorted_by_time, stack_error, stack_in_range, thread_build,
    thread_order, thread_trees, trees_of_threads, with_sample,
};
use crate::text::str_equals;
use super::SampleError;
use vstd::prelude::*;
use vstd::seq_lib::{to_multiset_insert, to_multiset_remove};

verus! {

/// One observation of a thread: the stack it was found with, at a time
/// given in nanoseconds.
#[derive(Debug, PartialEq, Eq)]
pub struct Sample {
    pub stack_id: i32,
    pub thread_id: String,
    pub timestamp_ns: u64,
}

/// A sample with its thread id as a character sequence.
pub struct SampleView {
    pub stack_id: i32,
    pub thread_id: Seq<char>,
    pub timestamp_ns: u64,
}

impl View for Sample {
    type V = SampleView;

    open spec fn view(&self) -> SampleView {
        SampleView {
            stack_id: self.stack_id,
            thread_id: self.thread_id@,
            timestamp_ns: self.timestamp_ns,
        }
    }
}

/// The tables of a chunk. A stack lists its frames leaf first.
#[derive(Debug, PartialEq, Eq)]
pub struct SampleData {
    pub frames: Vec<Frame>,
    pub samples: Vec<Sample>,
    pub stacks: Vec<Vec<i32>>,
}

/// A chunk of samples, as far as the call trees depend on it.
#[derive(Debug, PartialEq, Eq)]
pub struct SampleChunk {
    pub profile: SampleData,
}

/// The call trees of one thread, roots in the order in which they were
/// first seen.
#[derive(Debug, PartialEq, Eq)]
pub struct ThreadCallTrees {
    pub thread_id: String,
    pub trees: Vec<Node>,
}

/// The call trees of a thread with strings as character sequences.
pub struct ThreadCallTreesView {
    pub thread_id: Seq<char>,
    pub trees: Seq<NodeView>,
}

impl View for ThreadCallTrees {
    type V = ThreadCallTreesView;

    open spec fn view(&self) -> ThreadCallTreesView {
        ThreadCallTreesView { thread_id: self.thread_id@, trees: forest_view(self.trees@) }
    }
}

/// The views of a frame table.
pub open spec fn frames_view(frames: Seq<Frame>) -> Seq<FrameView> {
    Seq::new(frames.len(), |i: int| frames[i]@)
}

/// The views of a stack table.
pub open spec fn stacks_view(stacks: Seq<Vec<i32>>) -> Seq<Seq<i32>> {
    Seq::new(stacks.len(), |i: int| stacks[i]@)
}

/// The views of a list of samples.
pub open spec fn samples_view(samples: Seq<Sample>) -> Seq<SampleView> {
    Seq::new(samples.len(), |i: int| samples[i]@)
}

/// The views of the call trees of several threads.
pub open spec fn results_view(results: Seq<ThreadCallTrees>) -> Seq<ThreadCallTreesView> {
    Seq::new(results.len(), |i: int| results[i]@)
}

/// The tree that a chain of nodes stands for, each node but the first
/// taken out of the children of the one before it: every node goes back
/// behind the children that its parent has kept, and the last node gets
/// `inner` as its children.
pub open spec fn collapsed(chain: Seq<NodeView>, inner: Seq<NodeView>) -> NodeView
    decreases chain.len(),
{
    if chain.len() <= 1 {
        NodeView { children: inner, ..chain[0] }
    } else {
        collapsed(
            chain.drop_last(),
            chain[chain.len() - 2].children.push(NodeView { children: inner, ..chain.last() }),
        )
    }
}

/// What a chain collapses to does not depend on the children of its last
/// node.
proof fn lemma_collapsed_ignores_last_children(
    chain: Seq<NodeView>,
    other: Seq<NodeView>,
    inner: Seq<NodeView>,
)
    requires
        chain.len() > 0,
        other.len() == chain.len(),
        other.drop_last() == chain.drop_last(),
        other.last() == (NodeView { children: other.last().children, ..chain.last() }),
    ensures
        collapsed(chain, inner) == collapsed(other, inner),
{
    if chain.len() > 1 {
        assert(chain[chain.len() - 2] == chain.drop_last()[chain.len() - 2]);
        assert(other[other.len() - 2] == other.drop_last()[other.len() - 2]);
    }
}

/// Takes the node for one frame of a sample out of `level`, or makes it:
/// the last node of `level`, with the sample counted in, where the sample
/// continues it; a new node otherwise.
fn node_for_frame(
    level: &mut Vec<Node>,
    frame: &Frame,
    fingerprint: u64,
    start: u64,
    end: u64,
) -> (node: Node)
    requires
        start <= end,
        forest_bounded(forest_view(old(level)@), count_limit()),
    ensures
        continues(forest_view(old(level)@), fingerprint, start) ==> forest_view(final(level)@)
            == forest_view(old(level)@).drop_last() && node@ == forest_view(
            old(level)@,
        ).last().updated(end),
        !continues(forest_view(old(level)@), fingerprint, start) ==> forest_view(final(level)@)
            == forest_view(old(level)@) && node@ == NodeView::from_frame(
            frame@,
            start,
            end,
            fingerprint,
        ),
        forest_bounded(forest_view(final(level)@), count_limit()),
        forest_bounded(node@.children, count_limit()),
{
    let ghost before = forest_view(level@);
    let n = level.len();
    if n > 0 && level[n - 1].fingerprint == fingerprint && level[n - 1].end_ns == start {
        assert(before.last() == level@[n - 1]@);
        assert(tree_bounded(before[n - 1], count_limit()));
        let mut last = level.pop().unwrap();
        last.update(end);
        assert(forest_view(level@) =~= before.drop_last());
        assert forall|i: int| 0 <= i < forest_view(level@).len() implies tree_bounded(
            #[trigger] forest_view(level@)[i],
            count_limit(),
        ) by {
            assert(forest_view(level@)[i] == before[i]);
        }
        last
    } else {
        assert(before.len() > 0 ==> before.last() == level@[n - 1]@);
        Node::from_frame(frame, start, end, fingerprint)
    }
}

/// Puts the last node of a chain back behind the children of the node
/// before it.
fn fold_last(chain: &mut Vec<Node>)
    requires
        old(chain)@.len() > 1,
    ensures
        final(chain)@.len() == old(chain)@.len() - 1,
        collapsed(forest_view(final(chain)@), forest_view(final(chain)@).last().children)
            == collapsed(forest_view(old(chain)@), forest_view(old(chain)@).last().children),
{
    let ghost before = forest_view(chain@);
    let n = chain.len();
    assert(before.last() == chain@[n - 1]@);
    assert(before[n - 2] == chain@[n - 2]@);
    let node = chain.pop().unwrap();
    let mut parent = chain.pop().unwrap();
    let ghost kept = parent@.children;
    assert(forest_view(parent.children@) =~= kept);
    parent.children.push(node);
    assert(parent@.children =~= kept.push(node@));
    chain.push(parent);
    proof {
        let after = forest_view(chain@);
        assert(after.len() == n - 1);
        assert(after.drop_last() =~= before.drop_last().drop_last());
        assert(node@ == (NodeView { children: node@.children, ..node@ }));
        assert(collapsed(before, before.last().children) == collapsed(
            before.drop_last(),
            kept.push(node@),
        ));
        assert(before.drop_last().drop_last() =~= after.drop_last());
        assert(before.drop_last().last() == before[n - 2]);
        lemma_collapsed_ignores_last_children(before.drop_last(), after, kept.push(node@));
    }
}

/// Adds to `forest` one sample with the stack `stack`, seen from `start`
/// to `end`. A node that is extended must have room for one more sample in
/// its count.
pub fn add_sample(
    forest: &mut Vec<Node>,
    frames: &Vec<Frame>,
    stack: &Vec<i32>,
    start: u64,
    end: u64,
)
    requires
        stack_in_range(stack@, frames@.len()),
        start <= end,
        forest_bounded(forest_view(old(forest)@), count_limit()),
    ensures
        forest_view(final(forest)@) == with_sample(
            forest_view(old(forest)@),
            resolved_stack(frames_view(frames@), stack@),
            0,
            start,
            end,
        ),
{
    if stack.len() == 0 {
        return;
    }
    let ghost path = resolved_stack(frames_view(frames@), stack@);
    let ghost want = with_sample(forest_view(forest@), path, 0, start, end);
    let mut hasher = hasher_new();
    // the nodes of this sample from the root down, each one taken out of
    // the children of the one before it
    let mut chain: Vec<Node> = Vec::new();

    let frame = &frames[stack[stack.len() - 1] as usize];
    assert(frame@ == path[0]);
    frame.write_to_hash(&mut hasher);
    let fingerprint = hasher_finish(&hasher);
    assert(path_bytes(path, 0) =~= Seq::<u8>::empty());
    assert(fingerprint == fingerprint_at(path, 0));
    let root = node_for_frame(forest, frame, fingerprint, start, end);
    chain.push(root);
    assert(forest_view(chain@) =~= seq![root@]);
    assert(want == forest_view(forest@).push(
        collapsed(forest_view(chain@), with_sample(root@.children, path, 1, start, end)),
    ));

    let mut depth: usize = 1;
    while depth < stack.len()
        invariant
            1 <= depth <= stack.len(),
            stack_in_range(stack@, frames@.len()),
            start <= end,
            path == resolved_stack(frames_view(frames@), stack@),
            chain@.len() == depth,
            hashed_bytes(hasher) == path_bytes(path, depth as int),
            forest_bounded(forest_view(chain@).last().children, count_limit()),
            want == forest_view(forest@).push(
                collapsed(
                    forest_view(chain@),
                    with_sample(
                        forest_view(chain@).last().children,
                        path,
                        depth as int,
                        start,
                        end,
                    ),
                ),
            ),
        decreases stack.len() - depth,
    {
        let ghost before = forest_view(chain@);
        let frame = &frames[stack[stack.len() - 1 - depth] as usize];
        assert(frame@ == path[depth as int]);
        frame.write_to_hash(&mut hasher);
        let fingerprint = hasher_finish(&hasher);
        assert(fingerprint == fingerprint_at(path, depth as int));

        assert(before.last() == chain@[depth - 1]@);
        let mut parent = chain.pop().unwrap();
        let ghost level = parent@.children;
        assert(forest_view(parent.children@) =~= level);
        let node = node_for_frame(&mut parent.children, frame, fingerprint, start, end);
        let ghost kept = forest_view(parent.children@);
        assert(parent@.children =~= kept);
        chain.push(parent);
        chain.push(node);
        proof {
            let after = forest_view(chain@);
            let inner = with_sample(node@.children, path, depth + 1, start, end);
            assert(with_sample(level, path, depth as int, start, end) == kept.push(
                NodeView { children: inner, ..node@ },
            ));
            assert(after.last() == node@);
            assert(after[depth as int - 1] == parent@);
            assert(after.drop_last().drop_last() =~= before.drop_last());
            assert(after.drop_last().last() == parent@);
            assert(collapsed(after, inner) == collapsed(
                after.drop_last(),
                kept.push(NodeView { children: inner, ..node@ }),
            ));
            lemma_collapsed_ignores_last_children(
                before,
                after.drop_last(),
                kept.push(NodeView { children: inner, ..node@ }),
            );
        }
        depth += 1;
    }
    assert(chain@.len() == stack.len());
    while chain.len() > 1
        invariant
            chain@.len() >= 1,
            want == forest_view(forest@).push(
                collapsed(forest_view(chain@), forest_view(chain@).last().children),
            ),
        decreases chain.len(),
    {
        fold_last(&mut chain);
    }
    let ghost rest = forest_view(forest@);
    let root = chain.pop().unwrap();
    assert(collapsed(seq![root@], root@.children) == root@);
    forest.push(root);
    assert(forest_view(forest@) =~= rest.push(root@));
}

/// Checks the stack that a sample refers to.
pub fn check_stack(frames: &Vec<Frame>, stacks: &Vec<Vec<i32>>, stack_id: i32) -> (r: Result<
    (),
    SampleError,
>)
    ensures
        match r {
            Ok(_) => stack_error(frames@.len(), stacks_view(stacks@), stack_id) is None,
            Err(e) => stack_error(frames@.len(), stacks_view(stacks@), stack_id) == Some(e),
        },
        r is Ok ==> 0 <= stack_id < stacks@.len() && stack_in_range(
            stacks@[stack_id as int]@,
            frames@.len(),
        ),
{
    if stack_id < 0 || stack_id as usize >= stacks.len() {
        return Err(SampleError::InvalidStackId);
    }
    let stack = &stacks[stack_id as usize];
    let ghost sv = stacks_view(stacks@)[stack_id as int];
    assert(sv == stack@);
    let mut k: usize = 0;
    while k < stack.len()
        invariant
            k <= stack.len(),
            sv == stack@,
            0 <= stack_id < stacks@.len(),
            sv == stacks_view(stacks@)[stack_id as int],
            forall|j: int| 0 <= j < k ==> 0 <= #[trigger] stack@[j] < frames@.len(),
        decreases stack.len() - k,
    {
        let frame_id = stack[k];
        if frame_id < 0 || frame_id as usize >= frames.len() {
            assert(!(0 <= sv[k as int] < frames@.len()));
            return Err(SampleError::InvalidFrameId);
        }
        k += 1;
    }
    Ok(())
}

/// Sorts the samples by time.
pub fn sort_samples(samples: &mut Vec<Sample>)
    ensures
        sorted_by_time(samples_view(final(samples)@)),
        final(samples)@.to_multiset() == old(samples)@.to_multiset(),
{
    broadcast use {to_multiset_insert, to_multiset_remove};

    let n = samples.len();
    let mut i: usize = 0;
    while i < n
        invariant
            i <= n,
            samples@.len() == n,
            sorted_by_time(samples_view(samples@.take(i as int))),
            samples@.to_multiset() == old(samples)@.to_multiset(),
        decreases n - i,
    {
        let t = samples[i].timestamp_ns;
        let mut p: usize = i;
        while p > 0 && samples[p - 1].timestamp_ns > t
            invariant
                p <= i < n,
                samples@.len() == n,
                t == samples@[i as int].timestamp_ns,
                forall|k: int| p <= k < i ==> samples@[k].timestamp_ns > t,
            decreases p,
        {
            p -= 1;
        }
        let ghost before = samples@;
        if p < i {
            let s = samples.remove(i);
            let ghost middle = samples@;
            samples.insert(p, s);
            proof {
                to_multiset_remove(before, i as int);
                to_multiset_insert(middle, p as int, s);
                assert(before.to_multiset().contains(s)) by {
                    vstd::seq_lib::to_multiset_contains(before, s);
                    assert(before[i as int] == s);
                }
                assert(samples@.to_multiset() =~= before.to_multiset());
            }
        }
        proof {
            let prior = samples_view(before.take(i as int));
            let now = samples_view(samples@.take(i + 1));
            assert forall|a: int, b: int| 0 <= a <= b < now.len() implies now[a].timestamp_ns
                <= now[b].timestamp_ns by {
                let ta = if a < p { prior[a] } else if a == p { before[i as int]@ } else { prior[a - 1] };
                let tb = if b < p { prior[b] } else if b == p { before[i as int]@ } else { prior[b - 1] };
                assert(now[a] == ta);
                assert(now[b] == tb);
                if a < p && b > p {
                    assert(prior[a].timestamp_ns <= prior[b - 1].timestamp_ns);
                }
                if a > p && b > p {
                    assert(prior[a - 1].timestamp_ns <= prior[b - 1].timestamp_ns);
                }
                if a < p && b == p {
                    assert(prior[a].timestamp_ns <= prior[p - 1].timestamp_ns);
                }
            }
        }
        i += 1;
    }
    assert(samples@.take(n as int) =~= samples@);
}

/// Builds the call trees of the thread `tid` from samples sorted by time.
/// Each of its samples but the last is added for the time until the next
/// one; the first whose stack is not valid ends the build.
pub fn thread_call_trees(
    frames: &Vec<Frame>,
    stacks: &Vec<Vec<i32>>,
    samples: &Vec<Sample>,
    tid: &String,
) -> (r: Result<Vec<Node>, SampleError>)
    requires
        sorted_by_time(samples_view(samples@)),
    ensures
        match r {
            Ok(forest) => thread_trees(
                frames_view(frames@),
                stacks_view(stacks@),
                samples_view(samples@).filter(of_thread(tid@)),
            ) == Ok::<Seq<NodeView>, SampleError>(forest_view(forest@)),
            Err(e) => thread_trees(
                frames_view(frames@),
                stacks_view(stacks@),
                samples_view(samples@).filter(of_thread(tid@)),
            ) == Err::<Seq<NodeView>, SampleError>(e),
        },
{
    let ghost fv = frames_view(frames@);
    let ghost sv = stacks_view(stacks@);
    let ghost all = samples_view(samples@);
    let ghost p = of_thread(tid@);
    let mut forest: Vec<Node> = Vec::new();
    let mut prev: Option<usize> = None;
    let ghost mut added: nat = 0;
    let mut j: usize = 0;
    proof {
        reveal(Seq::filter);
        assert(all.take(0).filter(p) =~= Seq::<SampleView>::empty());
        assert(forest_view(forest@) =~= Seq::<NodeView>::empty());
    }
    while j < samples.len()
        invariant
            j <= samples.len(),
            fv == frames_view(frames@),
            sv == stacks_view(stacks@),
            all == samples_view(samples@),
            p == of_thread(tid@),
            sorted_by_time(all),
            prev matches Some(i) ==> i < j && all.take(j as int).filter(p).len() > 0 && all.take(
                j as int,
            ).filter(p).last() == all[i as int],
            prev is None ==> all.take(j as int).filter(p).len() == 0,
            thread_build(fv, sv, all.take(j as int).filter(p), all.take(j as int).filter(p).len() - 1)
                == Ok::<Seq<NodeView>, SampleError>(forest_view(forest@)),
            added <= j,
            forest_bounded(forest_view(forest@), added),
        decreases samples.len() - j,
    {
        let ghost seen = all.take(j as int).filter(p);
        let ghost next = all.take(j + 1).filter(p);
        proof {
            assert(all.take(j + 1) =~= all.take(j as int).push(all[j as int]));
            Seq::lemma_filter_push(all.take(j as int), all[j as int], p);
        }
        if samples[j].thread_id == *tid {
            assert(p(all[j as int]));
            assert(next == seen.push(all[j as int]));
            match prev {
                Some(i) => {
                    let ghost k = seen.len() as int;
                    proof {
                        assert forall|m: int| 0 <= m <= k - 1 implies seen[m] == next[m] by {}
                        lemma_thread_build_prefix(fv, sv, seen, next, k - 1);
                        assert(next[k - 1] == all[i as int]);
                        assert(next[k] == all[j as int]);
                    }
                    match check_stack(frames, stacks, samples[i].stack_id) {
                        Err(e) => {
                            proof {
                                let full = all.filter(p);
                                assert(thread_build(fv, sv, next, k) == Err::<
                                    Seq<NodeView>,
                                    SampleError,
                                >(e));
                                lemma_filter_take_is_prefix(all, tid@, j + 1);
                                assert forall|m: int| 0 <= m <= k implies next[m] == full[m] by {
                                    assert(full.take(next.len() as int)[m] == full[m]);
                                }
                                lemma_thread_build_prefix(fv, sv, next, full, k);
                                lemma_thread_build_error_stays(fv, sv, full, k, full.len() - 1);
                            }
                            return Err(e);
                        },
                        Ok(_) => {},
                    }
                    let stack = &stacks[samples[i].stack_id as usize];
                    let start = samples[i].timestamp_ns;
                    let end = samples[j].timestamp_ns;
                    assert(start <= end) by {
                        assert(all[i as int].timestamp_ns <= all[j as int].timestamp_ns);
                    }
                    proof {
                        lemma_forest_bounded_grows(forest_view(forest@), added, count_limit());
                        lemma_with_sample_bounded(
                            forest_view(forest@),
                            resolved_stack(fv, stack@),
                            0,
                            start,
                            end,
                            added,
                        );
                        assert(sv[samples[i as int].stack_id as int] == stack@);
                    }
                    add_sample(&mut forest, frames, stack, start, end);
                    proof {
                        added = added + 1;
                    }
                },
                None => {
                    assert(next.len() == 1);
                },
            }
            prev = Some(j);
        }
        j += 1;
    }
    assert(all.take(j as int) =~= all);
    Ok(forest)
}

/// For each thread, the index of its first sample, in the order in which
/// the threads first occur.
pub fn first_samples(samples: &Vec<Sample>) -> (firsts: Vec<usize>)
    ensures
        firsts@.len() == thread_order(samples_view(samples@)).len(),
        forall|k: int|
            0 <= k < firsts@.len() ==> (#[trigger] firsts@[k]) < samples@.len() && samples@[firsts@[k] as int].thread_id@ == thread_order(
                samples_view(samples@),
            )[k],
{
    let ghost all = samples_view(samples@);
    let mut firsts: Vec<usize> = Vec::new();
    let mut j: usize = 0;
    assert(all.take(0) =~= Seq::<SampleView>::empty());
    while j < samples.len()
        invariant
            j <= samples.len(),
            all == samples_view(samples@),
            firsts@.len() == thread_order(all.take(j as int)).len(),
            forall|k: int|
                0 <= k < firsts@.len() ==> (#[trigger] firsts@[k]) < j && samples@[firsts@[k] as int].thread_id@ == thread_order(
                    all.take(j as int),
                )[k],
        decreases samples.len() - j,
    {
        let ghost order = thread_order(all.take(j as int));
        let ghost tid = all[j as int].thread_id;
        proof {
            assert(all.take(j + 1).drop_last() =~= all.take(j as int));
            assert(all.take(j + 1).last() == all[j as int]);
        }
        let mut known = false;
        let mut k: usize = 0;
        while k < firsts.len() && !known
            invariant
                k <= firsts.len(),
                j < samples.len(),
                all == samples_view(samples@),
                tid == all[j as int].thread_id,
                order == thread_order(all.take(j as int)),
                firsts@.len() == order.len(),
                forall|m: int|
                    0 <= m < firsts@.len() ==> (#[trigger] firsts@[m]) < j && samples@[firsts@[m] as int].thread_id@ == order[m],
                known ==> order.contains(tid),
                !known ==> forall|m: int| 0 <= m < k ==> order[m] != tid,
            decreases firsts.len() - k + if known { 0int } else { 1int },
        {
            if samples[firsts[k]].thread_id == samples[j].thread_id {
                assert(order[k as int] == tid);
                known = true;
            } else {
                k += 1;
            }
        }
        if !known {
            firsts.push(j);
            assert(!order.contains(tid));
        }
        j += 1;
    }
    assert(all.take(j as int) =~= all);
    firsts
}

impl SampleChunk {
    /// Sorts the samples by time and builds the call trees of each thread,
    /// or of the active thread alone where one is given. The threads come
    /// in the order in which they first occur in the sorted samples. A
    /// stack or frame index out of range ends the whole build.
    pub fn call_trees(&mut self, active_thread_id: Option<&str>) -> (r: Result<
        Vec<ThreadCallTrees>,
        SampleError,
    >)
        ensures
            final(self).profile.frames == old(self).profile.frames,
            final(self).profile.stacks == old(self).profile.stacks,
            sorted_by_time(samples_view(final(self).profile.samples@)),
            final(self).profile.samples@.to_multiset() == old(self).profile.samples@.to_multiset(),
            match r {
                Ok(trees) => call_trees_of(
                    frames_view(final(self).profile.frames@),
                    stacks_view(final(self).profile.stacks@),
                    samples_view(final(self).profile.samples@),
                    active_view(active_thread_id),
                ) == Ok::<Seq<ThreadCallTreesView>, SampleError>(results_view(trees@)),
                Err(e) => call_trees_of(
                    frames_view(final(self).profile.frames@),
                    stacks_view(final(self).profile.stacks@),
                    samples_view(final(self).profile.samples@),
                    active_view(active_thread_id),
                ) == Err::<Seq<ThreadCallTreesView>, SampleError>(e),
            },
            r matches Ok(trees) ==> distinct_threads(results_view(trees@)),
            r matches Ok(trees) ==> siblings_apart_throughout(results_view(trees@)),
    {
        sort_samples(&mut self.profile.samples);
        build_call_trees(
            &self.profile.frames,
            &self.profile.stacks,
            &self.profile.samples,
            active_thread_id,
        )
    }
}

/// The characters of the active thread's id, where one is given.
pub open spec fn active_view(active: Option<&str>) -> Option<Seq<char>> {
    match active {
        Some(a) => Some(a@),
        None => None,
    }
}

/// Builds the call trees of samples that are sorted by time.
pub fn build_call_trees(
    frames: &Vec<Frame>,
    stacks: &Vec<Vec<i32>>,
    samples: &Vec<Sample>,
    active_thread_id: Option<&str>,
) -> (r: Result<Vec<ThreadCallTrees>, SampleError>)
    requires
        sorted_by_time(samples_view(samples@)),
    ensures
        match r {
            Ok(trees) => call_trees_of(
                frames_view(frames@),
                stacks_view(stacks@),
                samples_view(samples@),
                active_view(active_thread_id),
            ) == Ok::<Seq<ThreadCallTreesView>, SampleError>(results_view(trees@)),
            Err(e) => call_trees_of(
                frames_view(frames@),
                stacks_view(stacks@),
                samples_view(samples@),
                active_view(active_thread_id),
            ) == Err::<Seq<ThreadCallTreesView>, SampleError>(e),
        },
        r matches Ok(trees) ==> distinct_threads(results_view(trees@)),
        r matches Ok(trees) ==> siblings_apart_throughout(results_view(trees@)),
{
    let ghost fv = frames_view(frames@);
    let ghost sv = stacks_view(stacks@);
    let ghost all = samples_view(samples@);
    let ghost active = active_view(active_thread_id);
    proof {
        if call_trees_of(fv, sv, all, active) is Ok {
            lemma_call_trees_threads_distinct(fv, sv, all, active);
            lemma_call_trees_siblings_apart(fv, sv, all, active);
        }
    }
    let ghost order = thread_order(all);
    let firsts = first_samples(samples);
    let mut out: Vec<ThreadCallTrees> = Vec::new();
    let mut k: usize = 0;
    assert(results_view(out@) =~= Seq::<ThreadCallTreesView>::empty());
    while k < firsts.len()
        invariant
            k <= firsts.len(),
            fv == frames_view(frames@),
            sv == stacks_view(stacks@),
            all == samples_view(samples@),
            active == active_view(active_thread_id),
            order == thread_order(all),
            sorted_by_time(all),
            firsts@.len() == order.len(),
            forall|m: int|
                0 <= m < firsts@.len() ==> (#[trigger] firsts@[m]) < samples@.len() && samples@[firsts@[m] as int].thread_id@ == order[m],
            trees_of_threads(fv, sv, all, order, active, k as int) == Ok::<
                Seq<ThreadCallTreesView>,
                SampleError,
            >(results_view(out@)),
        decreases firsts.len() - k,
    {
        let tid = &samples[firsts[k]].thread_id;
        assert(tid@ == order[k as int]);
        let wanted = match active_thread_id {
            Some(a) => str_equals(tid.as_str(), a),
            None => true,
        };
        if wanted {
            match thread_call_trees(frames, stacks, samples, tid) {
                Err(e) => {
                    proof {
                        lemma_trees_of_threads_error_stays(
                            fv,
                            sv,
                            all,
                            order,
                            active,
                            k + 1,
                            order.len() as int,
                        );
                    }
                    return Err(e);
                },
                Ok(forest) => {
                    if forest.len() > 0 {
                        let ghost before = results_view(out@);
                        let entry = ThreadCallTrees { thread_id: tid.clone(), trees: forest };
                        out.push(entry);
                        assert(results_view(out@) =~= before.push(entry@));
                    }
                },
            }
        }
        k += 1;
    }
    Ok(out)
}

} // verus!
