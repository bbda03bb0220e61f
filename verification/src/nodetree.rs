//! Call-tree nodes. A node stands for a run of samples in which the same
//! frame was seen at the same place of the stack.

use crate::fingerprint::{hashed_bytes, hasher_write};
use crate::frame::{blank_frame, clone_text, text_view, Data, DataView, Frame, FrameView};
use crate::frame::rules::{function_name, module_or_package};
use fnv_rs::Fnv64;
use vstd::prelude::*;
use vstd::string::StringSliceAdditionalSpecFns;
use vstd::utf8::encode_utf8;

verus! {

/// One node of a call tree: a frame, the time from its first sample to the
/// end of its last, the number of its samples, and the calls below it in
/// the order in which they were first seen.
#[derive(Debug, PartialEq, Eq)]
pub struct Node {
    pub children: Vec<Node>,
    pub duration_ns: u64,
    pub fingerprint: u64,
    pub is_application: bool,
    pub line: Option<u32>,
    pub name: String,
    pub package: String,
    pub path: Option<String>,
    pub end_ns: u64,
    pub frame: Frame,
    pub sample_count: u64,
    pub start_ns: u64,
}

/// A node with its strings as character sequences and its children as a
/// sequence of the same.
pub struct NodeView {
    pub children: Seq<NodeView>,
    pub duration_ns: u64,
    pub fingerprint: u64,
    pub is_application: bool,
    pub line: Option<u32>,
    pub name: Seq<char>,
    pub package: Seq<char>,
    pub path: Option<Seq<char>>,
    pub end_ns: u64,
    pub frame: FrameView,
    pub sample_count: u64,
    pub start_ns: u64,
}

/// The tree below and including `n`, with strings as character sequences.
pub open spec fn node_view(n: Node) -> NodeView
    decreases n,
{
    NodeView {
        children: Seq::new(
            n.children@.len(),
            |i: int|
                if 0 <= i < n.children@.len() {
                    node_view(n.children@[i])
                } else {
                    arbitrary()
                },
        ),
        duration_ns: n.duration_ns,
        fingerprint: n.fingerprint,
        is_application: n.is_application,
        line: n.line,
        name: n.name@,
        package: n.package@,
        path: text_view(n.path),
        end_ns: n.end_ns,
        frame: n.frame@,
        sample_count: n.sample_count,
        start_ns: n.start_ns,
    }
}

impl View for Node {
    type V = NodeView;

    open spec fn view(&self) -> NodeView {
        node_view(*self)
    }
}

/// The views of a list of trees.
pub open spec fn forest_view(nodes: Seq<Node>) -> Seq<NodeView> {
    Seq::new(nodes.len(), |i: int| nodes[i]@)
}

impl NodeView {
    /// The node ends no earlier than it starts, and its duration is the
    /// time between the two.
    pub open spec fn well_formed(self) -> bool {
        self.start_ns <= self.end_ns && self.duration_ns == self.end_ns - self.start_ns
    }

    /// The node made for the first sample that shows the frame `f` at some
    /// place: one sample, no children, `start` to `end`.
    pub open spec fn from_frame(f: FrameView, start: u64, end: u64, fingerprint: u64) -> NodeView {
        NodeView {
            children: Seq::empty(),
            duration_ns: (end - start) as u64,
            fingerprint,
            is_application: match f.in_app {
                Some(v) => v,
                None => true,
            },
            line: f.line,
            name: function_name(f),
            package: module_or_package(f),
            path: f.path,
            end_ns: end,
            frame: f,
            sample_count: 1,
            start_ns: start,
        }
    }

    /// The node after one more sample that lasts until `timestamp`.
    pub open spec fn updated(self, timestamp: u64) -> NodeView {
        NodeView { sample_count: (self.sample_count + 1) as u64, ..self.ending_at(timestamp) }
    }

    /// The node with its end moved to `t`.
    pub open spec fn ending_at(self, t: u64) -> NodeView {
        NodeView { end_ns: t, duration_ns: (t - self.start_ns) as u64, ..self }
    }

    /// The frame that the node was made from, carrying its status also as
    /// the symbolicator's status where it has data.
    pub open spec fn to_frame(self) -> FrameView {
        match self.frame.data {
            Some(data) => FrameView {
                data: Some(DataView { symbolicator_status: self.frame.status, ..data }),
                ..self.frame
            },
            None => self.frame,
        }
    }

    /// What the node contributes to a hash: its package and name, or a
    /// single dash where both are empty.
    pub open spec fn hash_bytes(self) -> Seq<u8> {
        if self.package.len() == 0 && self.name.len() == 0 {
            encode_utf8("-"@)
        } else {
            encode_utf8(self.package) + encode_utf8(self.name)
        }
    }
}

impl Clone for Node {
    fn clone(&self) -> (r: Self)
        ensures
            r@ == self@,
        decreases self,
    {
        let mut children: Vec<Node> = Vec::new();
        let mut i: usize = 0;
        while i < self.children.len()
            invariant
                i <= self.children.len(),
                children@.len() == i,
                forall|j: int| 0 <= j < i ==> children@[j]@ == self.children@[j]@,
            decreases self.children.len() - i,
        {
            let child = self.children[i].clone();
            children.push(child);
            i += 1;
        }
        let r = Node {
            children,
            duration_ns: self.duration_ns,
            fingerprint: self.fingerprint,
            is_application: self.is_application,
            line: self.line,
            name: self.name.clone(),
            package: self.package.clone(),
            path: clone_text(&self.path),
            end_ns: self.end_ns,
            frame: self.frame.clone(),
            sample_count: self.sample_count,
            start_ns: self.start_ns,
        };
        assert(r@.children =~= self@.children);
        r
    }
}

/// A node with no children, no samples and a blank frame, at time 0.
pub open spec fn blank_node() -> NodeView {
    NodeView {
        children: Seq::empty(),
        duration_ns: 0,
        fingerprint: 0,
        is_application: false,
        line: None,
        name: Seq::empty(),
        package: Seq::empty(),
        path: None,
        end_ns: 0,
        frame: blank_frame(),
        sample_count: 0,
        start_ns: 0,
    }
}

impl Default for Node {
    fn default() -> (r: Self)
        ensures
            r@ == blank_node(),
    {
        let r = Node {
            children: Vec::new(),
            duration_ns: 0,
            fingerprint: 0,
            is_application: false,
            line: None,
            name: String::new(),
            package: String::new(),
            path: None,
            end_ns: 0,
            frame: Frame::default(),
            sample_count: 0,
            start_ns: 0,
        };
        assert(r@.children =~= Seq::<NodeView>::empty());
        r
    }
}

impl Node {
    /// Makes the node for the first sample that shows the frame `f`, seen
    /// from `start` to `end`.
    pub fn from_frame(f: &Frame, start: u64, end: u64, fingerprint: u64) -> (r: Node)
        requires
            start <= end,
        ensures
            r@ == NodeView::from_frame(f@, start, end, fingerprint),
            r@.well_formed(),
    {
        let is_application = match f.in_app {
            Some(v) => v,
            None => true,
        };
        let name = match &f.function {
            Some(function) => function.clone(),
            None => String::new(),
        };
        let r = Node {
            children: Vec::new(),
            duration_ns: end - start,
            end_ns: end,
            fingerprint,
            frame: f.clone(),
            is_application,
            line: f.line,
            name,
            package: f.module_or_package(),
            path: clone_text(&f.path),
            sample_count: 1,
            start_ns: start,
        };
        assert(r@.children =~= Seq::<NodeView>::empty());
        r
    }

    /// Counts one more sample and moves the end of the node to `timestamp`.
    pub fn update(&mut self, timestamp: u64)
        requires
            old(self).start_ns <= timestamp,
            old(self).sample_count < u64::MAX,
        ensures
            final(self)@ == old(self)@.updated(timestamp),
    {
        self.sample_count += 1;
        self.set_duration(timestamp);
    }

    /// The frame that the node was made from. Where the frame has data, its
    /// status is carried there too, as the symbolicator's status.
    pub fn to_frame(&self) -> (r: Frame)
        ensures
            r@ == self@.to_frame(),
    {
        let mut frame = self.frame.clone();
        let status = clone_text(&frame.status);
        match frame.data {
            Some(data) => {
                frame.data = Some(
                    Data {
                        deobfuscation_status: data.deobfuscation_status,
                        symbolicator_status: status,
                        js_symbolicated: data.js_symbolicated,
                    },
                );
            },
            None => {},
        }
        frame
    }

    /// Moves the end of the node to `t`.
    pub fn set_duration(&mut self, t: u64)
        requires
            old(self).start_ns <= t,
        ensures
            final(self)@ == old(self)@.ending_at(t),
    {
        self.end_ns = t;
        self.duration_ns = self.end_ns - self.start_ns;
    }

    /// Feeds the node's package and name to the hasher, or a single dash
    /// where both are empty.
    pub fn write_to_hash(&self, h: &mut Fnv64)
        ensures
            hashed_bytes(*final(h)) == hashed_bytes(*old(h)) + self@.hash_bytes(),
    {
        if self.package.as_str().is_empty() && self.name.as_str().is_empty() {
            hasher_write(h, "-".as_bytes());
        } else {
            hasher_write(h, self.package.as_str().as_bytes());
            hasher_write(h, self.name.as_str().as_bytes());
        }
        assert(hashed_bytes(*h) =~= hashed_bytes(*old(h)) + self@.hash_bytes());
    }
}

/// Every node of the tree is well formed and counts at most `bound`
/// samples.
pub open spec fn tree_bounded(n: NodeView, bound: nat) -> bool
    decreases n,
{
    &&& n.well_formed()
    &&& n.sample_count <= bound
    &&& forall|i: int| 0 <= i < n.children.len() ==> tree_bounded(#[trigger] n.children[i], bound)
}

/// Every node of every tree is well formed and counts at most `bound`
/// samples.
pub open spec fn forest_bounded(forest: Seq<NodeView>, bound: nat) -> bool {
    forall|i: int| 0 <= i < forest.len() ==> tree_bounded(#[trigger] forest[i], bound)
}

/// A tree that keeps to a bound keeps to any higher one.
pub proof fn lemma_tree_bounded_grows(n: NodeView, bound: nat, more: nat)
    requires
        tree_bounded(n, bound),
        bound <= more,
    ensures
        tree_bounded(n, more),
    decreases n,
{
    assert forall|i: int| 0 <= i < n.children.len() implies tree_bounded(
        #[trigger] n.children[i],
        more,
    ) by {
        lemma_tree_bounded_grows(n.children[i], bound, more);
    }
}

/// A forest that keeps to a bound keeps to any higher one.
pub proof fn lemma_forest_bounded_grows(forest: Seq<NodeView>, bound: nat, more: nat)
    requires
        forest_bounded(forest, bound),
        bound <= more,
    ensures
        forest_bounded(forest, more),
{
    assert forall|i: int| 0 <= i < forest.len() implies tree_bounded(#[trigger] forest[i], more) by {
        lemma_tree_bounded_grows(forest[i], bound, more);
    }
}

} // verus!
