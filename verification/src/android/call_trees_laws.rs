//! What holds of the call trees of events.

use crate::android::call_trees::{
    action_of, after_event, attached, call_trees_of, closed, distinct_ids, distinct_threads,
    entered, event_time, left, method_frame, method_index, thread_calls, thread_ids, thread_trees,
    trees_of_threads, Calls,
};
use crate::frame::{text_view, FrameView};
use crate::frame::rules::{function_name, module_or_package};
use crate::nodetree::{forest_bounded, tree_bounded, NodeView};
use super::{Action, Android, AndroidEvent, AndroidMethod};
use vstd::prelude::*;

verus! {

/// An index that is found lies among the first `n` methods, at a method
/// with the id that was looked for.
pub proof fn lemma_method_index_in_range(methods: Seq<AndroidMethod>, id: u64, n: int)
    requires
        n <= methods.len(),
    ensures
        method_index(methods, id, n) matches Some(i) ==> 0 <= i < n && methods[i].id == id,
    decreases n,
{
    if n > 0 && methods[n - 1].id != id {
        lemma_method_index_in_range(methods, id, n - 1);
    }
}

/// Malformed events, once met, leave a thread without calls.
pub proof fn lemma_thread_calls_stay_malformed(trace: Android, thread_id: u64, n: int, later: int)
    requires
        n <= later,
        thread_calls(trace, thread_id, n) is None,
    ensures
        thread_calls(trace, thread_id, later) is None,
    decreases later - n,
{
    if n < later {
        lemma_thread_calls_stay_malformed(trace, thread_id, n, later - 1);
    }
}

/// A thread without trees leaves the whole trace without trees.
pub proof fn lemma_trees_of_threads_stay_malformed(
    trace: Android,
    threads: Seq<u64>,
    n: int,
    later: int,
)
    requires
        n <= later,
        trees_of_threads(trace, threads, n) is None,
    ensures
        trees_of_threads(trace, threads, later) is None,
    decreases later - n,
{
    if n < later {
        lemma_trees_of_threads_stay_malformed(trace, threads, n, later - 1);
    }
}

/// Every call, open or left, ends no earlier than it starts, lasts from
/// its start to its end and counts once, and so does every call below it.
pub open spec fn calls_well_formed(calls: Calls) -> bool {
    forest_bounded(calls.open, 1) && forest_bounded(calls.roots, 1)
}

/// Putting a call in its place keeps the calls well formed.
pub proof fn lemma_attached_well_formed(calls: Calls, node: NodeView)
    requires
        calls_well_formed(calls),
        tree_bounded(node, 1),
    ensures
        calls_well_formed(attached(calls, node)),
{
    let after = attached(calls, node);
    if calls.open.len() == 0 {
        assert forall|i: int| 0 <= i < after.roots.len() implies tree_bounded(
            #[trigger] after.roots[i],
            1,
        ) by {
            if i < calls.roots.len() {
                assert(after.roots[i] == calls.roots[i]);
            }
        }
    } else {
        let parent = calls.open.last();
        let grown = after.open.last();
        assert(tree_bounded(parent, 1));
        assert forall|i: int| 0 <= i < grown.children.len() implies tree_bounded(
            #[trigger] grown.children[i],
            1,
        ) by {
            if i < parent.children.len() {
                assert(grown.children[i] == parent.children[i]);
            }
        }
        assert(tree_bounded(grown, 1));
        assert forall|i: int| 0 <= i < after.open.len() implies tree_bounded(
            #[trigger] after.open[i],
            1,
        ) by {
            if i < after.open.len() - 1 {
                assert(after.open[i] == calls.open[i]);
            }
        }
    }
}

/// An event keeps the calls well formed.
pub proof fn lemma_after_event_well_formed(calls: Calls, frame: FrameView, action: Action, t: u64)
    requires
        calls_well_formed(calls),
        after_event(calls, frame, action, t) is Some,
    ensures
        calls_well_formed(after_event(calls, frame, action, t)->0),
{
    let after = after_event(calls, frame, action, t)->0;
    if action is Enter {
        let node = entered(frame, t);
        assert(tree_bounded(node, 1));
        assert forall|i: int| 0 <= i < after.open.len() implies tree_bounded(
            #[trigger] after.open[i],
            1,
        ) by {
            if i < calls.open.len() {
                assert(after.open[i] == calls.open[i]);
            }
        }
    } else {
        let last = calls.open.last();
        assert(tree_bounded(last, 1));
        let left = left(last, t);
        assert(tree_bounded(left, 1));
        let rest = Calls { open: calls.open.drop_last(), roots: calls.roots };
        assert forall|i: int| 0 <= i < rest.open.len() implies tree_bounded(
            #[trigger] rest.open[i],
            1,
        ) by {
            assert(rest.open[i] == calls.open[i]);
        }
        lemma_attached_well_formed(rest, left);
    }
}

/// Closing the open calls leaves well-formed trees.
pub proof fn lemma_closed_well_formed(calls: Calls)
    requires
        calls_well_formed(calls),
    ensures
        forest_bounded(closed(calls), 1),
    decreases calls.open.len(),
{
    if calls.open.len() > 0 {
        let rest = Calls { open: calls.open.drop_last(), roots: calls.roots };
        assert(tree_bounded(calls.open.last(), 1));
        assert forall|i: int| 0 <= i < rest.open.len() implies tree_bounded(
            #[trigger] rest.open[i],
            1,
        ) by {
            assert(rest.open[i] == calls.open[i]);
        }
        lemma_attached_well_formed(rest, calls.open.last());
        lemma_closed_well_formed(attached(rest, calls.open.last()));
    }
}

/// The calls of a thread are well formed after any number of its events.
pub proof fn lemma_thread_calls_well_formed(trace: Android, thread_id: u64, n: int)
    requires
        thread_calls(trace, thread_id, n) is Some,
    ensures
        calls_well_formed(thread_calls(trace, thread_id, n)->0),
    decreases n,
{
    if n > 0 {
        lemma_thread_calls_well_formed(trace, thread_id, n - 1);
        let e = trace.events@[n - 1];
        if e.thread_id == thread_id && action_of(text_view(e.action)) is Some && event_time(
            trace.clock,
            trace.start_time,
            e,
        ) is Some {
            let before = thread_calls(trace, thread_id, n - 1)->0;
            lemma_after_event_well_formed(
                before,
                method_frame(trace.methods@, e.method_id),
                action_of(text_view(e.action))->0,
                event_time(trace.clock, trace.start_time, e)->0,
            );
        }
    }
}

/// In the call trees of a thread every node, at every depth, ends no
/// earlier than it starts, lasts from its start to its end, and counts
/// once.
pub proof fn lemma_thread_trees_well_formed(trace: Android, thread_id: u64)
    requires
        thread_trees(trace, thread_id) is Some,
    ensures
        forest_bounded(thread_trees(trace, thread_id)->0, 1),
{
    lemma_thread_calls_well_formed(trace, thread_id, trace.events@.len() as int);
    lemma_closed_well_formed(thread_calls(trace, thread_id, trace.events@.len() as int)->0);
}

/// The fingerprint of a call depends on the package and the function name
/// of its frame alone.
pub proof fn lemma_entered_fingerprint_of_package_and_name(
    frame: FrameView,
    other: FrameView,
    t: u64,
    u: u64,
)
    requires
        module_or_package(frame) == module_or_package(other),
        function_name(frame) == function_name(other),
    ensures
        entered(frame, t).fingerprint == entered(other, u).fingerprint,
{
}

/// The order of the threads names each thread once.
pub proof fn lemma_thread_ids_distinct(events: Seq<AndroidEvent>, n: int)
    ensures
        distinct_ids(thread_ids(events, n)),
    decreases n,
{
    if n > 0 {
        lemma_thread_ids_distinct(events, n - 1);
    }
}

/// Every entry of the call trees of the first `n` threads is that of one
/// of these threads, and no thread has two, given that the threads are
/// named once each.
pub proof fn lemma_trees_of_threads_distinct(trace: Android, threads: Seq<u64>, n: int)
    requires
        0 <= n <= threads.len(),
        distinct_ids(threads),
        trees_of_threads(trace, threads, n) is Some,
    ensures
        distinct_threads(trees_of_threads(trace, threads, n)->0),
        forall|i: int|
            0 <= i < trees_of_threads(trace, threads, n)->0.len() ==> exists|q: int|
                0 <= q < n && (#[trigger] trees_of_threads(trace, threads, n)->0[i]).thread_id
                    == #[trigger] threads[q],
    decreases n,
{
    if n > 0 {
        lemma_trees_of_threads_distinct(trace, threads, n - 1);
        let done = trees_of_threads(trace, threads, n - 1)->0;
        let out = trees_of_threads(trace, threads, n)->0;
        assert forall|i: int| 0 <= i < out.len() implies exists|q: int|
            0 <= q < n && (#[trigger] out[i]).thread_id == #[trigger] threads[q] by {
            if i < done.len() {
                assert(out[i] == done[i]);
                let q = choose|q: int| 0 <= q < n - 1 && done[i].thread_id == #[trigger] threads[q];
                assert(out[i].thread_id == threads[q]);
            } else {
                assert(out[i].thread_id == threads[n - 1]);
            }
        }
        assert forall|i: int, j: int| 0 <= i < j < out.len() implies out[i].thread_id
            != out[j].thread_id by {
            if j < done.len() {
                assert(out[i] == done[i] && out[j] == done[j]);
            } else {
                assert(out[i] == done[i]);
                let q = choose|q: int| 0 <= q < n - 1 && done[i].thread_id == #[trigger] threads[q];
                assert(threads[q] != threads[n - 1]);
            }
        }
    }
}

/// In the call trees of a trace each thread id occurs once.
pub proof fn lemma_call_trees_threads_distinct(trace: Android)
    requires
        call_trees_of(trace) is Some,
    ensures
        distinct_threads(call_trees_of(trace)->0),
{
    let threads = thread_ids(trace.events@, trace.events@.len() as int);
    lemma_thread_ids_distinct(trace.events@, trace.events@.len() as int);
    lemma_trees_of_threads_distinct(trace, threads, threads.len() as int);
}

} // verus!
