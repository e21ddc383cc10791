//! The tri-state outcome of evaluating a node.

use vstd::prelude::*;

verus! {

/// What evaluating a node yields.
#[derive(Clone, Copy, Debug, PartialEq, Eq, Structural)]
pub enum NodeStatus {
    Success,
    Failure,
    Running,
}

impl NodeStatus {
    /// The small integer by which a host reads a status:
    /// 0 for `Failure`, 1 for `Success`, 2 for `Running`.
    pub open spec fn spec_code(self) -> int {
        match self {
            NodeStatus::Failure => 0,
            NodeStatus::Success => 1,
            NodeStatus::Running => 2,
        }
    }

    /// The status as the integer code handed to a host.
    pub fn code(self) -> (c: i32)
        ensures
            c == self.spec_code(),
    {
        match self {
            NodeStatus::Failure => 0,
            NodeStatus::Success => 1,
            NodeStatus::Running => 2,
        }
    }
}

} // verus!
