//! Call trees from enter and exit events.

use crate::android::call_trees_laws::{
    lemma_call_trees_threads_distinct, lemma_method_index_in_range,
    lemma_thread_calls_stay_malformed, lemma_trees_of_threads_stay_malformed,
};
use crate::fingerprint::{fnv1a, hashed_bytes, hasher_finish, hasher_new};
use crate::frame::{text_view, Frame, FrameView};
use crate::nodetree::{forest_view, Node, NodeView};
use crate::text::str_equals;
use crate::types::CallTreeError;
use std::collections::HashMap;
use super::{Action, Android, AndroidEvent, AndroidMethod, Clock, Duration, NANOS_PER_SECOND};
use super::repair::{monotonic_clock, repair_fits, repaired_events, wall_time};
use vstd::prelude::*;
use vstd::std_specs::hash::group_hash_axioms;

verus! {

/// The call trees of one thread, roots in the order in which they were
/// entered.
#[derive(Debug, PartialEq, Eq)]
pub struct ThreadCalls {
    pub thread_id: u64,
    pub trees: Vec<Node>,
}

/// The call trees of a thread with strings as character sequences.
pub struct ThreadCallsView {
    pub thread_id: u64,
    pub trees: Seq<NodeView>,
}

impl View for ThreadCalls {
    type V = ThreadCallsView;

    open spec fn view(&self) -> ThreadCallsView {
        ThreadCallsView { thread_id: self.thread_id, trees: forest_view(self.trees@) }
    }
}

/// The views of the call trees of several threads.
pub open spec fn calls_view(calls: Seq<ThreadCalls>) -> Seq<ThreadCallsView> {
    Seq::new(calls.len(), |i: int| calls[i]@)
}

/// The calls of a thread while its events are read: those that have been
/// entered and not left, outermost first, each with the calls below it
/// that have been left; and the outermost calls that have been left.
pub struct Calls {
    pub open: Seq<NodeView>,
    pub roots: Seq<NodeView>,
}

/// What an action says, where it is one of the three that are known.
pub open spec fn action_of(text: Option<Seq<char>>) -> Option<Action> {
    if text == Some("Enter"@) {
        Some(Action::Enter)
    } else if text == Some("Exit"@) {
        Some(Action::Exit)
    } else if text == Some("Unwind"@) {
        Some(Action::Unwind)
    } else {
        None
    }
}

/// A duration in nanoseconds, where it has both of its parts.
pub open spec fn duration_ns(d: Option<Duration>) -> Option<int> {
    match d {
        Some(d) => match (d.secs, d.nanos) {
            (Some(secs), Some(nanos)) => Some(secs * NANOS_PER_SECOND + nanos),
            _ => None,
        },
        None => None,
    }
}

/// The time of an event since the start of the trace, by the clock of the
/// trace: the global time less the start time, the CPU time, or else the
/// wall-clock time. An event without that time, or with one that lies
/// before the start or beyond 64 bits, has none that can be read.
pub open spec fn event_time(clock: Clock, start_time: u64, e: AndroidEvent) -> Option<u64> {
    let t = match clock {
        Clock::Global => match duration_ns(e.time.global) {
            Some(t) => Some(t - start_time),
            None => None,
        },
        Clock::Cpu => match e.time.monotonic {
            Some(m) => duration_ns(m.cpu),
            None => None,
        },
        _ => wall_time(e),
    };
    match t {
        Some(t) => if 0 <= t <= u64::MAX {
            Some(t as u64)
        } else {
            None
        },
        None => None,
    }
}

/// The index of the last of the first `n` methods that has the id `id`.
pub open spec fn method_index(methods: Seq<AndroidMethod>, id: u64, n: int) -> Option<int>
    decreases n,
{
    if n <= 0 {
        None
    } else if methods[n - 1].id == id {
        Some(n - 1)
    } else {
        method_index(methods, id, n - 1)
    }
}

/// The frame that stands for a method: its name as the function, its class
/// as the module, its source file and line.
pub open spec fn frame_of(m: AndroidMethod) -> FrameView {
    FrameView {
        file: Some(m.source_file@),
        function: Some(m.name@),
        in_app: m.in_app,
        line: m.source_line,
        module: Some(m.class_name@),
        platform: m.platform,
        ..crate::frame::blank_frame()
    }
}

/// The frame of the method with the id `id`; a blank frame where the table
/// holds no such method.
pub open spec fn method_frame(methods: Seq<AndroidMethod>, id: u64) -> FrameView {
    match method_index(methods, id, methods.len() as int) {
        Some(i) => frame_of(methods[i]),
        None => crate::frame::blank_frame(),
    }
}

/// The node of a call that is entered at `t`. It ends when it starts until
/// it is left. Its fingerprint is the hash of its package and name, or of a
/// single dash where both are empty.
pub open spec fn entered(frame: FrameView, t: u64) -> NodeView {
    let node = NodeView::from_frame(frame, t, t, 0);
    NodeView { fingerprint: fnv1a(node.hash_bytes()), ..node }
}

/// The calls after `node` has been left: it is the last child of the
/// innermost call that is still open, or the last root where none is.
pub open spec fn attached(calls: Calls, node: NodeView) -> Calls {
    if calls.open.len() == 0 {
        Calls { open: calls.open, roots: calls.roots.push(node) }
    } else {
        let parent = calls.open.last();
        Calls {
            open: calls.open.drop_last().push(
                NodeView { children: parent.children.push(node), ..parent },
            ),
            roots: calls.roots,
        }
    }
}

/// The node of a call that is left at `t`: it ends at `t`, or where it
/// starts if `t` lies before that, since no call ends before it starts.
pub open spec fn left(node: NodeView, t: u64) -> NodeView {
    node.ending_at(
        if t < node.start_ns {
            node.start_ns
        } else {
            t
        },
    )
}

/// The calls after one more event at the time `t`. Entering opens a call
/// below the innermost open one. Exiting and unwinding leave the innermost
/// open call; with no call open, the events are malformed.
pub open spec fn after_event(calls: Calls, frame: FrameView, action: Action, t: u64) -> Option<
    Calls,
> {
    match action {
        Action::Enter => Some(
            Calls { open: calls.open.push(entered(frame, t)), roots: calls.roots },
        ),
        _ => if calls.open.len() == 0 {
            None
        } else {
            Some(
                attached(
                    Calls { open: calls.open.drop_last(), roots: calls.roots },
                    left(calls.open.last(), t),
                ),
            )
        },
    }
}

/// The trees once every call that is still open has been put in its place
/// as it is.
pub open spec fn closed(calls: Calls) -> Seq<NodeView>
    decreases calls.open.len(),
{
    if calls.open.len() == 0 {
        calls.roots
    } else {
        closed(
            attached(
                Calls { open: calls.open.drop_last(), roots: calls.roots },
                calls.open.last(),
            ),
        )
    }
}

/// The calls of the thread `thread_id` after the first `n` events, or
/// nothing where one of its events among them is malformed: it leaves a
/// call that is not open. An event without a known action, or without a
/// time that can be read, is passed over.
pub open spec fn thread_calls(trace: Android, thread_id: u64, n: int) -> Option<Calls>
    decreases n,
{
    if n <= 0 {
        Some(Calls { open: Seq::empty(), roots: Seq::empty() })
    } else {
        let e = trace.events@[n - 1];
        match thread_calls(trace, thread_id, n - 1) {
            None => None,
            Some(calls) => if e.thread_id != thread_id {
                Some(calls)
            } else {
                match (
                    action_of(text_view(e.action)),
                    event_time(trace.clock, trace.start_time, e),
                ) {
                    (Some(action), Some(t)) => after_event(
                        calls,
                        method_frame(trace.methods@, e.method_id),
                        action,
                        t,
                    ),
                    _ => Some(calls),
                }
            },
        }
    }
}

/// The call trees of a thread.
pub open spec fn thread_trees(trace: Android, thread_id: u64) -> Option<Seq<NodeView>> {
    match thread_calls(trace, thread_id, trace.events@.len() as int) {
        Some(calls) => Some(closed(calls)),
        None => None,
    }
}

/// The thread ids of the first `n` events, each once, in the order in
/// which they first occur.
pub open spec fn thread_ids(events: Seq<AndroidEvent>, n: int) -> Seq<u64>
    decreases n,
{
    if n <= 0 {
        Seq::empty()
    } else {
        let rest = thread_ids(events, n - 1);
        if rest.contains(events[n - 1].thread_id) {
            rest
        } else {
            rest.push(events[n - 1].thread_id)
        }
    }
}

/// The call trees of the first `n` of `threads`, or nothing where the
/// events of one of them are malformed. A thread without a tree has no
/// entry.
pub open spec fn trees_of_threads(trace: Android, threads: Seq<u64>, n: int) -> Option<
    Seq<ThreadCallsView>,
>
    decreases n,
{
    if n <= 0 {
        Some(Seq::empty())
    } else {
        match (trees_of_threads(trace, threads, n - 1), thread_trees(trace, threads[n - 1])) {
            (Some(done), Some(trees)) => if trees.len() == 0 {
                Some(done)
            } else {
                Some(done.push(ThreadCallsView { thread_id: threads[n - 1], trees }))
            },
            _ => None,
        }
    }
}

/// No thread id occurs twice.
pub open spec fn distinct_ids(ids: Seq<u64>) -> bool {
    forall|i: int, j: int| 0 <= i < j < ids.len() ==> ids[i] != ids[j]
}

/// No thread has two entries.
pub open spec fn distinct_threads(trees: Seq<ThreadCallsView>) -> bool {
    forall|i: int, j: int| 0 <= i < j < trees.len() ==> trees[i].thread_id != trees[j].thread_id
}

/// The call trees of a trace, thread by thread in the order in which the
/// threads first occur.
pub open spec fn call_trees_of(trace: Android) -> Option<Seq<ThreadCallsView>> {
    let threads = thread_ids(trace.events@, trace.events@.len() as int);
    trees_of_threads(trace, threads, threads.len() as int)
}

fn read_action(text: &Option<String>) -> (r: Option<Action>)
    ensures
        r == action_of(text_view(*text)),
{
    match text {
        Some(t) => {
            if str_equals(t.as_str(), "Enter") {
                Some(Action::Enter)
            } else if str_equals(t.as_str(), "Exit") {
                Some(Action::Exit)
            } else if str_equals(t.as_str(), "Unwind") {
                Some(Action::Unwind)
            } else {
                None
            }
        },
        None => None,
    }
}

fn read_duration(d: &Option<Duration>) -> (r: Option<u128>)
    ensures
        match r {
            Some(t) => duration_ns(*d) == Some(t as int),
            None => duration_ns(*d) is None,
        },
{
    match d {
        Some(d) => match (d.secs, d.nanos) {
            (Some(secs), Some(nanos)) => {
                assert(secs * NANOS_PER_SECOND + nanos <= u128::MAX) by (nonlinear_arith)
                    requires
                        0 <= secs <= u64::MAX,
                        0 <= nanos <= u64::MAX,
                        NANOS_PER_SECOND == 1_000_000_000,
                ;
                assert(secs * NANOS_PER_SECOND <= u128::MAX) by (nonlinear_arith)
                    requires
                        0 <= secs <= u64::MAX,
                        NANOS_PER_SECOND == 1_000_000_000,
                ;
                Some((secs as u128) * (NANOS_PER_SECOND as u128) + (nanos as u128))
            },
            _ => None,
        },
        None => None,
    }
}

/// The time of an event since the start of the trace, by the clock of the
/// trace.
pub fn read_event_time(clock: Clock, start_time: u64, e: &AndroidEvent) -> (r: Option<u64>)
    ensures
        r == event_time(clock, start_time, *e),
{
    let t = match clock {
        Clock::Global => match read_duration(&e.time.global) {
            Some(t) => {
                if t < start_time as u128 {
                    return None;
                }
                Some(t - start_time as u128)
            },
            None => None,
        },
        Clock::Cpu => match e.time.monotonic {
            Some(m) => read_duration(&m.cpu),
            None => None,
        },
        _ => match e.time.monotonic {
            Some(m) => read_duration(&m.wall),
            None => None,
        },
    };
    match t {
        Some(t) => if t <= u64::MAX as u128 {
            Some(t as u64)
        } else {
            None
        },
        None => None,
    }
}

/// `index` gives, for each id among the first `n` methods, the last of
/// them that has it.
pub open spec fn indexes(index: Map<u64, usize>, methods: Seq<AndroidMethod>, n: int) -> bool {
    forall|id: u64|
        match method_index(methods, id, n) {
            Some(i) => #[trigger] index.contains_key(id) && index[id] == i,
            None => !index.contains_key(id),
        }
}

fn index_methods(methods: &Vec<AndroidMethod>) -> (index: HashMap<u64, usize>)
    ensures
        indexes(index@, methods@, methods@.len() as int),
{
    broadcast use group_hash_axioms;

    let mut index: HashMap<u64, usize> = HashMap::new();
    let mut i: usize = 0;
    while i < methods.len()
        invariant
            i <= methods.len(),
            indexes(index@, methods@, i as int),
        decreases methods.len() - i,
    {
        let ghost before = index@;
        index.insert(methods[i].id, i);
        assert forall|id: u64|
            match method_index(methods@, id, i + 1) {
                Some(k) => #[trigger] index@.contains_key(id) && index@[id] == k,
                None => !index@.contains_key(id),
            } by {
            if id != methods@[i as int].id {
                assert(before.contains_key(id) == index@.contains_key(id));
            }
        }
        i += 1;
    }
    index
}

fn method_to_frame(m: &AndroidMethod) -> (r: Frame)
    ensures
        r@ == frame_of(*m),
{
    Frame {
        column: None,
        data: None,
        file: Some(m.source_file.clone()),
        function: Some(m.name.clone()),
        in_app: m.in_app,
        instruction_addr: None,
        lang: None,
        line: m.source_line,
        module: Some(m.class_name.clone()),
        package: None,
        path: None,
        status: None,
        sym_addr: None,
        symbol: None,
        platform: m.platform,
    }
}

fn frame_of_method(methods: &Vec<AndroidMethod>, index: &HashMap<u64, usize>, id: u64) -> (r: Frame)
    requires
        indexes(index@, methods@, methods@.len() as int),
    ensures
        r@ == method_frame(methods@, id),
{
    broadcast use group_hash_axioms;

    proof {
        lemma_method_index_in_range(methods@, id, methods@.len() as int);
    }
    match index.get(&id) {
        Some(i) => {
            assert(index@.contains_key(id));
            method_to_frame(&methods[*i])
        },
        None => {
            assert(!index@.contains_key(id));
            Frame::default()
        },
    }
}

/// The calls that the two lists of nodes stand for.
pub open spec fn calls_of(open: Seq<Node>, roots: Seq<Node>) -> Calls {
    Calls { open: forest_view(open), roots: forest_view(roots) }
}

/// Opens a call of the frame `frame` at the time `t`.
fn enter(open: &mut Vec<Node>, frame: &Frame, t: u64)
    ensures
        forest_view(final(open)@) == forest_view(old(open)@).push(entered(frame@, t)),
{
    let ghost above = forest_view(open@);
    let mut node = Node::from_frame(frame, t, t, 0);
    let mut hasher = hasher_new();
    node.write_to_hash(&mut hasher);
    node.fingerprint = hasher_finish(&hasher);
    assert(hashed_bytes(hasher) =~= node@.hash_bytes());
    assert(node@.children =~= NodeView::from_frame(frame@, t, t, 0).children);
    open.push(node);
    assert(forest_view(open@) =~= above.push(entered(frame@, t)));
}

/// Puts a call that has been left in its place: below the innermost open
/// call, or among the roots.
fn attach(open: &mut Vec<Node>, roots: &mut Vec<Node>, node: Node)
    ensures
        calls_of(final(open)@, final(roots)@) == attached(calls_of(old(open)@, old(roots)@), node@),
{
    let ghost before = calls_of(open@, roots@);
    match open.pop() {
        Some(parent) => {
            let mut parent = parent;
            let ghost parent_before = parent@;
            assert(forest_view(parent.children@) =~= parent_before.children);
            parent.children.push(node);
            assert(parent@.children =~= parent_before.children.push(node@));
            open.push(parent);
            assert(forest_view(open@) =~= attached(before, node@).open);
            assert(forest_view(roots@) =~= attached(before, node@).roots);
        },
        None => {
            roots.push(node);
            assert(forest_view(open@) =~= attached(before, node@).open);
            assert(forest_view(roots@) =~= attached(before, node@).roots);
        },
    }
}

/// Takes one event of a thread into its calls. Says whether the event was
/// well formed; where it was not, the calls are of no further use.
fn take_event(
    open: &mut Vec<Node>,
    roots: &mut Vec<Node>,
    frame: &Frame,
    action: Action,
    t: u64,
) -> (ok: bool)
    ensures
        match after_event(calls_of(old(open)@, old(roots)@), frame@, action, t) {
            Some(calls) => ok && calls_of(final(open)@, final(roots)@) == calls,
            None => !ok,
        },
{
    let ghost before = calls_of(open@, roots@);
    match action {
        Action::Enter => {
            enter(open, frame, t);
            true
        },
        _ => {
            let n = open.len();
            if n == 0 {
                return false;
            }
            assert(before.open.last() == open@[n - 1]@);
            let mut node = open.pop().unwrap();
            assert(forest_view(open@) =~= before.open.drop_last());
            let end = if t < node.start_ns {
                node.start_ns
            } else {
                t
            };
            node.set_duration(end);
            attach(open, roots, node);
            true
        },
    }
}

/// Puts every call that is still open in its place.
fn close(open: Vec<Node>, roots: Vec<Node>) -> (trees: Vec<Node>)
    ensures
        forest_view(trees@) == closed(calls_of(open@, roots@)),
{
    let ghost want = closed(calls_of(open@, roots@));
    let mut open = open;
    let mut roots = roots;
    while open.len() > 0
        invariant
            closed(calls_of(open@, roots@)) == want,
        decreases open.len(),
    {
        let ghost before = calls_of(open@, roots@);
        let n = open.len();
        assert(before.open.last() == open@[n - 1]@);
        let node = open.pop().unwrap();
        assert(forest_view(open@) =~= before.open.drop_last());
        attach(&mut open, &mut roots, node);
    }
    roots
}

/// Builds the call trees of one thread.
fn thread_call_trees(trace: &Android, index: &HashMap<u64, usize>, thread_id: u64) -> (r: Option<
    Vec<Node>,
>)
    requires
        indexes(index@, trace.methods@, trace.methods@.len() as int),
    ensures
        match r {
            Some(trees) => thread_trees(*trace, thread_id) == Some(forest_view(trees@)),
            None => thread_trees(*trace, thread_id) is None,
        },
{
    let mut open: Vec<Node> = Vec::new();
    let mut roots: Vec<Node> = Vec::new();
    let mut i: usize = 0;
    assert(forest_view(open@) =~= Seq::<NodeView>::empty());
    assert(forest_view(roots@) =~= Seq::<NodeView>::empty());
    while i < trace.events.len()
        invariant
            i <= trace.events.len(),
            indexes(index@, trace.methods@, trace.methods@.len() as int),
            thread_calls(*trace, thread_id, i as int) == Some(calls_of(open@, roots@)),
        decreases trace.events.len() - i,
    {
        let e = &trace.events[i];
        if e.thread_id == thread_id {
            let well_formed = match (
                read_action(&e.action),
                read_event_time(trace.clock, trace.start_time, e),
            ) {
                (Some(action), Some(t)) => {
                    let frame = frame_of_method(&trace.methods, index, e.method_id);
                    take_event(&mut open, &mut roots, &frame, action, t)
                },
                // an event that says too little to be placed is passed over
                _ => true,
            };
            if !well_formed {
                proof {
                    assert(thread_calls(*trace, thread_id, i + 1) is None);
                    lemma_thread_calls_stay_malformed(
                        *trace,
                        thread_id,
                        i + 1,
                        trace.events@.len() as int,
                    );
                }
                return None;
            }
        }
        i += 1;
    }
    Some(close(open, roots))
}

/// For each thread, the index of its first event, in the order in which
/// the threads first occur.
fn first_events(events: &Vec<AndroidEvent>) -> (firsts: Vec<usize>)
    ensures
        firsts@.len() == thread_ids(events@, events@.len() as int).len(),
        forall|k: int|
            0 <= k < firsts@.len() ==> (#[trigger] firsts@[k]) < events@.len()
                && events@[firsts@[k] as int].thread_id == thread_ids(
                events@,
                events@.len() as int,
            )[k],
{
    let mut firsts: Vec<usize> = Vec::new();
    let mut j: usize = 0;
    while j < events.len()
        invariant
            j <= events.len(),
            firsts@.len() == thread_ids(events@, j as int).len(),
            forall|k: int|
                0 <= k < firsts@.len() ==> (#[trigger] firsts@[k]) < j
                    && events@[firsts@[k] as int].thread_id == thread_ids(events@, j as int)[k],
        decreases events.len() - j,
    {
        let ghost order = thread_ids(events@, j as int);
        let ghost tid = events@[j as int].thread_id;
        let mut known = false;
        let mut k: usize = 0;
        while k < firsts.len() && !known
            invariant
                k <= firsts.len(),
                j < events.len(),
                tid == events@[j as int].thread_id,
                order == thread_ids(events@, j as int),
                firsts@.len() == order.len(),
                forall|m: int|
                    0 <= m < firsts@.len() ==> (#[trigger] firsts@[m]) < j
                        && events@[firsts@[m] as int].thread_id == order[m],
                known ==> order.contains(tid),
                !known ==> forall|m: int| 0 <= m < k ==> order[m] != tid,
            decreases firsts.len() - k + if known { 0int } else { 1int },
        {
            if events[firsts[k]].thread_id == events[j].thread_id {
                assert(order[k as int] == tid);
                known = true;
            } else {
                k += 1;
            }
        }
        if !known {
            firsts.push(j);
            assert(!order.contains(tid));
        }
        j += 1;
    }
    firsts
}

/// Builds the call trees of a trace as it is, thread by thread.
pub fn build_call_trees(trace: &Android) -> (r: Option<Vec<ThreadCalls>>)
    ensures
        match r {
            Some(trees) => call_trees_of(*trace) == Some(calls_view(trees@)),
            None => call_trees_of(*trace) is None,
        },
        r matches Some(trees) ==> distinct_threads(calls_view(trees@)),
{
    proof {
        if call_trees_of(*trace) is Some {
            lemma_call_trees_threads_distinct(*trace);
        }
    }
    let index = index_methods(&trace.methods);
    let firsts = first_events(&trace.events);
    let ghost threads = thread_ids(trace.events@, trace.events@.len() as int);
    let mut out: Vec<ThreadCalls> = Vec::new();
    let mut k: usize = 0;
    assert(calls_view(out@) =~= Seq::<ThreadCallsView>::empty());
    while k < firsts.len()
        invariant
            k <= firsts.len(),
            indexes(index@, trace.methods@, trace.methods@.len() as int),
            threads == thread_ids(trace.events@, trace.events@.len() as int),
            firsts@.len() == threads.len(),
            forall|m: int|
                0 <= m < firsts@.len() ==> (#[trigger] firsts@[m]) < trace.events@.len()
                    && trace.events@[firsts@[m] as int].thread_id == threads[m],
            trees_of_threads(*trace, threads, k as int) == Some(calls_view(out@)),
        decreases firsts.len() - k,
    {
        let thread_id = trace.events[firsts[k]].thread_id;
        assert(thread_id == threads[k as int]);
        match thread_call_trees(trace, &index, thread_id) {
            Some(trees) => {
                if trees.len() > 0 {
                    let ghost before = calls_view(out@);
                    let entry = ThreadCalls { thread_id, trees };
                    out.push(entry);
                    assert(calls_view(out@) =~= before.push(entry@));
                }
            },
            None => {
                proof {
                    lemma_trees_of_threads_stay_malformed(
                        *trace,
                        threads,
                        k + 1,
                        threads.len() as int,
                    );
                }
                return None;
            },
        }
        k += 1;
    }
    Some(out)
}

impl Android {
    /// Repairs the wall-clock times, then builds the call trees of every
    /// thread, in the order in which the threads first occur. A call is
    /// entered below the innermost call that is open on its thread, and
    /// lasts until the event that leaves it; a call that is never left
    /// ends when it starts. An exit without an open call fails the whole
    /// build, and nothing else does.
    pub fn call_trees(&mut self) -> (r: Result<Vec<ThreadCalls>, CallTreeError>)
        requires
            monotonic_clock(old(self).clock) || repair_fits(old(self).events@),
        ensures
            final(self).clock == old(self).clock,
            final(self).methods == old(self).methods,
            final(self).start_time == old(self).start_time,
            final(self).threads == old(self).threads,
            final(self).events@ == if monotonic_clock(old(self).clock) {
                old(self).events@
            } else {
                repaired_events(old(self).events@)
            },
            match r {
                Ok(trees) => call_trees_of(*final(self)) == Some(calls_view(trees@)),
                Err(e) => e == CallTreeError::Android && call_trees_of(*final(self)) is None,
            },
            r matches Ok(trees) ==> distinct_threads(calls_view(trees@)),
    {
        self.fix_samples_time();
        match build_call_trees(self) {
            Some(trees) => Ok(trees),
            None => Err(CallTreeError::Android),
        }
    }
}

} // verus!
