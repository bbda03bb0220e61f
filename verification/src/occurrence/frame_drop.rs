//! The search for the call that made a frame freeze.

use crate::frame::Frame;
use crate::nodetree::{forest_view, Node, NodeView};
use crate::occurrence::frame_drop_laws::lemma_first_cause_stays;
use super::{occurrences_view, Occurrence, OccurrenceView};
use vstd::prelude::*;

verus! {

/// The category of the occurrences that this search reports.
pub const FRAME_DROP: &'static str = "frame_drop";

/// The name of the measurement series that holds the frozen frames.
pub const FROZEN_FRAME_RENDERS: &'static str = "frozen_frame_renders";

/// No node at this depth or below is searched, and no stack trace is
/// longer.
pub const MAX_STACK_DEPTH: i32 = 128;

/// The least margin around a frozen frame: ten milliseconds.
pub const MIN_MARGIN_NS: u64 = 10_000_000;

/// One frozen frame: when it ended, counted from the start of the profile,
/// and how long the rendering stalled.
#[derive(Debug, Clone, Copy, PartialEq, Eq)]
pub struct FrozenFrame {
    pub elapsed_since_start_ns: u64,
    pub duration_ns: u64,
}

/// A node of a call tree with its depth and the nodes from the root down to
/// it, itself included.
#[derive(Debug, Clone, PartialEq, Eq)]
pub struct NodeStack {
    pub depth: i32,
    pub n: Node,
    pub st: Vec<Node>,
}

/// A node stack with its strings as character sequences.
pub struct NodeStackView {
    pub depth: i32,
    pub n: NodeView,
    pub st: Seq<NodeView>,
}

impl View for NodeStack {
    type V = NodeStackView;

    open spec fn view(&self) -> NodeStackView {
        NodeStackView { depth: self.depth, n: self.n@, st: forest_view(self.st@) }
    }
}

/// The window in which the cause of a frozen frame is looked for.
#[derive(Debug, Clone, Copy, Default, PartialEq, Eq)]
pub struct FrozenFrameStats {
    pub duration_ns: u64,
    pub end_ns: u64,
    pub min_duration_ns: u64,
    pub start_limit_ns: u64,
    pub start_ns: u64,
}

/// The margin around a frozen frame: 5% of the stall, ten milliseconds at
/// least.
pub open spec fn margin_of(duration_ns: u64) -> u64 {
    if duration_ns / 20 > MIN_MARGIN_NS {
        duration_ns / 20
    } else {
        MIN_MARGIN_NS
    }
}

/// The window of a frozen frame that ended at `end_ns` after a stall of
/// `duration_ns`. It ends one margin after the frame. It starts one stall
/// and one margin before the frame's end, or at 0 where that would lie
/// before the start of the profile. A cause starts in the first 20% of the
/// stall after the window's start and lasts for half the stall at least.
pub open spec fn window_of(end_ns: u64, duration_ns: u64) -> FrozenFrameStats {
    let margin = margin_of(duration_ns);
    let start: int = if end_ns >= duration_ns + margin {
        end_ns - duration_ns - margin
    } else {
        0
    };
    FrozenFrameStats {
        duration_ns,
        end_ns: (end_ns + margin) as u64,
        min_duration_ns: duration_ns / 2,
        start_limit_ns: (start + duration_ns / 5) as u64,
        start_ns: start as u64,
    }
}

/// The node names its function.
pub open spec fn has_function(n: NodeView) -> bool {
    n.frame.function is Some && n.frame.function->0.len() > 0
}

/// Whether `c` displaces `l` as the longest cause found so far: it lasts
/// longer, or as long and lies deeper.
pub open spec fn displaces(c: NodeStackView, l: NodeStackView) -> bool {
    c.n.duration_ns > l.n.duration_ns || (c.n.duration_ns == l.n.duration_ns && c.depth
        > l.depth)
}

impl FrozenFrameStats {
    /// The node can be the cause: application code with a named function
    /// that starts within the first part of the window, ends within the
    /// window and lasts long enough.
    pub open spec fn admits(self, n: NodeView) -> bool {
        &&& has_function(n)
        &&& n.is_application
        &&& n.start_ns >= self.start_ns
        &&& n.end_ns <= self.end_ns
        &&& n.duration_ns >= self.min_duration_ns
        &&& n.start_ns <= self.start_limit_ns
    }

    /// The cause found at or below `n`, which lies at `depth` below the
    /// nodes `above`. The longest cause among the children, the first of
    /// them where several are as long and as deep, stands unless `n` itself
    /// can be the cause and lasts longer. Children are searched only above
    /// `MAX_STACK_DEPTH`.
    pub open spec fn cause_below(self, n: NodeView, above: Seq<NodeView>, depth: i32) -> Option<
        NodeStackView,
    >
        decreases n, n.children.len() + 1,
    {
        let longest = if depth < MAX_STACK_DEPTH - 1 {
            self.longest_below(n, above.push(n), (depth + 1) as i32, n.children.len() as int)
        } else {
            None
        };
        let current = NodeStackView { depth, n, st: above.push(n) };
        match longest {
            None => if self.admits(n) {
                Some(current)
            } else {
                None
            },
            Some(l) => if self.admits(n) && l.n.duration_ns < n.duration_ns {
                Some(current)
            } else {
                Some(l)
            },
        }
    }

    /// The longest cause found below the first `k` children of `n`.
    pub open spec fn longest_below(
        self,
        n: NodeView,
        st: Seq<NodeView>,
        depth: i32,
        k: int,
    ) -> Option<NodeStackView>
        decreases n, k,
    {
        if k <= 0 || k > n.children.len() {
            None
        } else {
            let longest = self.longest_below(n, st, depth, k - 1);
            match self.cause_below(n.children[k - 1], st, depth) {
                None => longest,
                Some(c) => match longest {
                    None => Some(c),
                    Some(l) => if displaces(c, l) {
                        Some(c)
                    } else {
                        Some(l)
                    },
                },
            }
        }
    }

    /// The window of a frozen frame that ended at `end_ns` after a stall of
    /// `duration_ns`.
    pub fn new(end_ns: u64, duration_ns: u64) -> (stats: Self)
        requires
            end_ns + margin_of(duration_ns) <= u64::MAX,
        ensures
            stats == window_of(end_ns, duration_ns),
    {
        let margin = if duration_ns / 20 > MIN_MARGIN_NS {
            duration_ns / 20
        } else {
            MIN_MARGIN_NS
        };
        let start_ns = if end_ns >= duration_ns && end_ns - duration_ns >= margin {
            end_ns - duration_ns - margin
        } else {
            0
        };
        FrozenFrameStats {
            end_ns: end_ns + margin,
            duration_ns,
            min_duration_ns: duration_ns / 2,
            start_limit_ns: start_ns + duration_ns / 5,
            start_ns,
        }
    }

    fn admits_node(&self, n: &Node) -> (r: bool)
        ensures
            r == self.admits(n@),
    {
        let has_function = match &n.frame.function {
            Some(f) => !f.as_str().is_empty(),
            None => false,
        };
        has_function && n.is_application && n.start_ns >= self.start_ns && n.end_ns <= self.end_ns
            && n.duration_ns >= self.min_duration_ns && n.start_ns <= self.start_limit_ns
    }

    /// Determines if a node stack is valid for frozen frame detection.
    pub fn is_node_stack_valid(&self, ns: &NodeStack) -> (r: bool)
        ensures
            r == self.admits(ns@.n),
    {
        self.admits_node(&ns.n)
    }

    fn locate<'a>(&self, n: &'a Node, st: &mut Vec<&'a Node>, depth: i32) -> (r: Option<Found<'a>>)
        ensures
            final(st)@ == old(st)@,
            found_view(r) == self.cause_below(n@, refs_view(old(st)@), depth),
        decreases n,
    {
        let ghost above = refs_view(st@);
        st.push(n);
        assert(refs_view(st@) =~= above.push(n@));
        let mut longest: Option<Found<'a>> = None;
        if depth < MAX_STACK_DEPTH - 1 {
            let mut i: usize = 0;
            while i < n.children.len()
                invariant
                    i <= n.children.len(),
                    depth < MAX_STACK_DEPTH - 1,
                    st@ == old(st)@.push(n),
                    refs_view(st@) == above.push(n@),
                    found_view(longest) == self.longest_below(
                        n@,
                        above.push(n@),
                        (depth + 1) as i32,
                        i as int,
                    ),
                decreases n.children.len() - i,
            {
                assert(n@.children[i as int] == n.children@[i as int]@);
                match self.locate(&n.children[i], st, depth + 1) {
                    Some(c) => {
                        let replace = match &longest {
                            Some(l) => c.node.duration_ns > l.node.duration_ns || (
                            c.node.duration_ns == l.node.duration_ns && c.depth > l.depth),
                            None => true,
                        };
                        if replace {
                            longest = Some(c);
                        }
                    },
                    None => {},
                }
                i += 1;
            }
        }
        let valid = self.admits_node(n);
        let result = match longest {
            None => if valid {
                Some(Found { depth, node: n, trace: copy_refs(st) })
            } else {
                None
            },
            Some(l) => if valid && l.node.duration_ns < n.duration_ns {
                Some(Found { depth, node: n, trace: copy_refs(st) })
            } else {
                Some(l)
            },
        };
        st.pop();
        assert(st@ =~= old(st)@);
        result
    }

    /// Finds the frame drop cause frame by traversing the node tree.
    ///
    /// The tree below `n` is explored depth first, down to
    /// `MAX_STACK_DEPTH`: the recursion goes no deeper. Among the nodes
    /// that can be the cause, a longer one is preferred, and of two as long
    /// the deeper one. `st` holds the nodes above `n`, and is handed back
    /// as it was.
    pub fn find_frame_drop_cause_frame<'a>(
        &self,
        n: &'a Node,
        st: &mut Vec<&'a Node>,
        depth: i32,
    ) -> (r: Option<NodeStack>)
        ensures
            final(st)@ == old(st)@,
            match r {
                Some(ns) => self.cause_below(n@, refs_view(old(st)@), depth) == Some(ns@),
                None => self.cause_below(n@, refs_view(old(st)@), depth) is None,
            },
    {
        match self.locate(n, st, depth) {
            Some(found) => {
                let mut trace: Vec<Node> = Vec::new();
                let mut i: usize = 0;
                while i < found.trace.len()
                    invariant
                        i <= found.trace.len(),
                        trace@.len() == i,
                        forall|k: int| 0 <= k < i ==> trace@[k]@ == found.trace@[k]@,
                    decreases found.trace.len() - i,
                {
                    trace.push(found.trace[i].clone());
                    i += 1;
                }
                let ns = NodeStack { depth: found.depth, n: found.node.clone(), st: trace };
                assert(forest_view(ns.st@) =~= refs_view(found.trace@));
                Some(ns)
            },
            None => None,
        }
    }
}

/// A cause that has been located in a tree, not yet copied out of it.
struct Found<'a> {
    depth: i32,
    node: &'a Node,
    trace: Vec<&'a Node>,
}

/// The views of the nodes that a list refers to.
pub open spec fn refs_view(nodes: Seq<&Node>) -> Seq<NodeView> {
    Seq::new(nodes.len(), |i: int| nodes[i]@)
}

spec fn found_view(found: Option<Found>) -> Option<NodeStackView> {
    match found {
        Some(f) => Some(NodeStackView { depth: f.depth, n: f.node@, st: refs_view(f.trace@) }),
        None => None,
    }
}

fn copy_refs<'a>(st: &Vec<&'a Node>) -> (r: Vec<&'a Node>)
    ensures
        r@ == st@,
{
    let mut r: Vec<&'a Node> = Vec::new();
    let mut i: usize = 0;
    while i < st.len()
        invariant
            i <= st.len(),
            r@ == st@.take(i as int),
        decreases st.len() - i,
    {
        r.push(st[i]);
        assert(st@.take(i + 1) =~= st@.take(i as int).push(st@[i as int]));
        i += 1;
    }
    assert(st@.take(st@.len() as int) =~= st@);
    r
}

/// The nodes that name no function.
pub open spec fn nameless() -> spec_fn(NodeView) -> bool {
    |n: NodeView| !has_function(n)
}

/// Four in five, or more, of the nodes of a stack trace name no function:
/// such a trace is not reported.
pub open spec fn unreliable(st: Seq<NodeView>) -> bool {
    st.filter(nameless()).len() * 5 >= st.len() * 4
}

/// The cause found below the first of the first `k` roots that has one.
pub open spec fn first_cause(stats: FrozenFrameStats, roots: Seq<NodeView>, k: int) -> Option<
    NodeStackView,
>
    decreases k,
{
    if k <= 0 {
        None
    } else {
        match first_cause(stats, roots, k - 1) {
            Some(c) => Some(c),
            None => stats.cause_below(roots[k - 1], Seq::empty(), 0),
        }
    }
}

/// The occurrence that reports a cause.
pub open spec fn occurrence_of(cause: NodeStackView) -> OccurrenceView {
    OccurrenceView {
        category: FRAME_DROP@,
        node: cause.n,
        stack_trace: Seq::new(cause.st.len(), |i: int| cause.st[i].to_frame()),
    }
}

/// What is reported for one frozen frame: the cause below the first root
/// that has one, unless its stack trace is unreliable.
pub open spec fn reported(frame: FrozenFrame, roots: Seq<NodeView>) -> Option<OccurrenceView> {
    match first_cause(
        window_of(frame.elapsed_since_start_ns, frame.duration_ns),
        roots,
        roots.len() as int,
    ) {
        Some(cause) => if unreliable(cause.st) {
            None
        } else {
            Some(occurrence_of(cause))
        },
        None => None,
    }
}

/// What is reported for the first `k` frozen frames, in their order.
pub open spec fn reported_all(frames: Seq<FrozenFrame>, roots: Seq<NodeView>, k: int) -> Seq<
    OccurrenceView,
>
    decreases k,
{
    if k <= 0 {
        Seq::empty()
    } else {
        match reported(frames[k - 1], roots) {
            Some(o) => reported_all(frames, roots, k - 1).push(o),
            None => reported_all(frames, roots, k - 1),
        }
    }
}

/// The window of every frozen frame ends within 64 bits.
pub open spec fn windows_fit(frames: Seq<FrozenFrame>) -> bool {
    forall|i: int|
        0 <= i < frames.len() ==> (#[trigger] frames[i]).elapsed_since_start_ns + margin_of(
            frames[i].duration_ns,
        ) <= u64::MAX
}

/// Tests whether the window of every frozen frame ends within 64 bits.
pub fn check_windows(frames: &Vec<FrozenFrame>) -> (r: bool)
    ensures
        r == windows_fit(frames@),
{
    let mut i: usize = 0;
    while i < frames.len()
        invariant
            i <= frames.len(),
            forall|k: int|
                0 <= k < i ==> (#[trigger] frames@[k]).elapsed_since_start_ns + margin_of(
                    frames@[k].duration_ns,
                ) <= u64::MAX,
        decreases frames.len() - i,
    {
        let d = frames[i].duration_ns;
        let margin = if d / 20 > MIN_MARGIN_NS {
            d / 20
        } else {
            MIN_MARGIN_NS
        };
        if frames[i].elapsed_since_start_ns > u64::MAX - margin {
            return false;
        }
        i += 1;
    }
    true
}

/// The cause of one frozen frame in the first tree that has one.
fn find_first_cause(stats: &FrozenFrameStats, call_trees: &Vec<Node>) -> (r: Option<NodeStack>)
    ensures
        match r {
            Some(ns) => first_cause(*stats, forest_view(call_trees@), call_trees@.len() as int)
                == Some(ns@),
            None => first_cause(*stats, forest_view(call_trees@), call_trees@.len() as int)
                is None,
        },
{
    let ghost roots = forest_view(call_trees@);
    let mut k: usize = 0;
    while k < call_trees.len()
        invariant
            k <= call_trees.len(),
            roots == forest_view(call_trees@),
            first_cause(*stats, roots, k as int) is None,
        decreases call_trees.len() - k,
    {
        let mut st: Vec<&Node> = Vec::new();
        assert(refs_view(st@) =~= Seq::<NodeView>::empty());
        match stats.find_frame_drop_cause_frame(&call_trees[k], &mut st, 0) {
            Some(ns) => {
                proof {
                    lemma_first_cause_stays(*stats, roots, k + 1, call_trees@.len() as int);
                }
                return Some(ns);
            },
            None => {},
        }
        k += 1;
    }
    None
}

/// Turns a cause into the occurrence that reports it, unless its stack
/// trace is unreliable.
pub fn report(cause: NodeStack) -> (r: Option<Occurrence>)
    ensures
        match r {
            Some(o) => !unreliable(cause@.st) && o@ == occurrence_of(cause@),
            None => unreliable(cause@.st),
        },
{
    let ghost st = forest_view(cause.st@);
    let mut stack_trace: Vec<Frame> = Vec::new();
    let mut unknown: usize = 0;
    let mut i: usize = 0;
    proof {
        reveal(Seq::filter);
        assert(st.take(0).filter(nameless()) =~= Seq::<NodeView>::empty());
    }
    while i < cause.st.len()
        invariant
            i <= cause.st.len(),
            st == forest_view(cause.st@),
            unknown == st.take(i as int).filter(nameless()).len(),
            unknown <= i,
            stack_trace@.len() == i,
            forall|k: int| 0 <= k < i ==> stack_trace@[k]@ == st[k].to_frame(),
        decreases cause.st.len() - i,
    {
        proof {
            assert(st.take(i + 1) =~= st.take(i as int).push(st[i as int]));
            Seq::lemma_filter_push(st.take(i as int), st[i as int], nameless());
        }
        let node = &cause.st[i];
        let named = match &node.frame.function {
            Some(f) => !f.as_str().is_empty(),
            None => false,
        };
        if !named {
            unknown += 1;
        }
        stack_trace.push(node.to_frame());
        i += 1;
    }
    assert(st.take(i as int) =~= st);
    // with too many unknown frames in the stack, no occurrence is created
    if (unknown as u128) * 5 >= (stack_trace.len() as u128) * 4 {
        return None;
    }
    let o = Occurrence { category: FRAME_DROP.to_owned(), node: cause.n, stack_trace };
    assert(o@.stack_trace =~= occurrence_of(cause@).stack_trace);
    Some(o)
}

/// Finds frame drop causes in the call trees of the active thread, one for
/// each frozen frame at most, and appends them to `occurrences`.
///
/// For each frozen frame the trees are searched in their order, and the
/// first tree with a cause ends the search for that frame.
pub fn find_frame_drop_cause(
    frame_drops: &Vec<FrozenFrame>,
    call_trees: &Vec<Node>,
    occurrences: &mut Vec<Occurrence>,
)
    requires
        windows_fit(frame_drops@),
    ensures
        occurrences_view(final(occurrences)@) == occurrences_view(old(occurrences)@)
            + reported_all(frame_drops@, forest_view(call_trees@), frame_drops@.len() as int),
{
    let ghost roots = forest_view(call_trees@);
    let ghost before = occurrences_view(occurrences@);
    let mut i: usize = 0;
    assert(before + Seq::<OccurrenceView>::empty() =~= before);
    while i < frame_drops.len()
        invariant
            i <= frame_drops.len(),
            windows_fit(frame_drops@),
            roots == forest_view(call_trees@),
            occurrences_view(occurrences@) == before + reported_all(frame_drops@, roots, i as int),
        decreases frame_drops.len() - i,
    {
        let mv = frame_drops[i];
        let stats = FrozenFrameStats::new(mv.elapsed_since_start_ns, mv.duration_ns);
        let ghost so_far = occurrences_view(occurrences@);
        match find_first_cause(&stats, call_trees) {
            Some(cause) => match report(cause) {
                Some(occurrence) => {
                    occurrences.push(occurrence);
                    assert(occurrences_view(occurrences@) =~= so_far.push(occurrence@));
                    assert(so_far.push(occurrence@) =~= before + reported_all(
                        frame_drops@,
                        roots,
                        i + 1,
                    ));
                },
                None => {},
            },
            None => {},
        }
        i += 1;
    }
}

} // verus!
