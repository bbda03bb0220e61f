//! Anomalies found in a profile.

pub mod frame_drop;
pub mod frame_drop_laws;

use crate::frame::{Frame, FrameView};
use crate::nodetree::{Node, NodeView};
use vstd::prelude::*;

verus! {

/// One detected anomaly: its category, the node held to be the cause, and
/// the frames from the root of the call tree down to that node.
#[derive(Debug, PartialEq, Eq)]
pub struct Occurrence {
    pub category: String,
    pub node: Node,
    pub stack_trace: Vec<Frame>,
}

/// An occurrence with its strings as character sequences.
pub struct OccurrenceView {
    pub category: Seq<char>,
    pub node: NodeView,
    pub stack_trace: Seq<FrameView>,
}

impl View for Occurrence {
    type V = OccurrenceView;

    open spec fn view(&self) -> OccurrenceView {
        OccurrenceView {
            category: self.category@,
            node: self.node@,
            stack_trace: Seq::new(self.stack_trace@.len(), |i: int| self.stack_trace@[i]@),
        }
    }
}

/// The views of a list of occurrences.
pub open spec fn occurrences_view(occurrences: Seq<Occurrence>) -> Seq<OccurrenceView> {
    Seq::new(occurrences.len(), |i: int| occurrences[i]@)
}

} // verus!
