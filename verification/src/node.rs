//! The nodes of a tree: their kinds and what each is configured with.

use vstd::prelude::*;

verus! {

/// The kind of a node: three composites, three decorators, two leaves.
#[derive(Clone, Copy, Debug, PartialEq, Eq, Structural)]
pub enum NodeType {
    Sequence,
    Selector,
    Inverter,
    Succeeder,
    Repeater,
    Action,
    Condition,
    Parallel,
}

/// A node as a mathematical value.
pub struct NodeView {
    pub kind: NodeType,
    /// The identifiers of the children, in the order of their evaluation.
    pub children: Seq<usize>,
    /// Which test a condition makes.
    pub condition_type: u32,
    /// Which effect an action has.
    pub action_type: u32,
    /// The one argument of a condition or an action.
    pub parameter: i64,
    /// How many children of a parallel node have to succeed.
    pub success_threshold: usize,
    /// How many successes of its child a repeater waits for.
    pub repeat_times: usize,
}

impl NodeView {
    /// A node of the given kind with no children and every setting at zero.
    pub open spec fn fresh(kind: NodeType) -> NodeView {
        NodeView {
            kind,
            children: Seq::empty(),
            condition_type: 0,
            action_type: 0,
            parameter: 0,
            success_threshold: 0,
            repeat_times: 0,
        }
    }

    /// A node of the given kind with the given children.
    pub open spec fn composite(kind: NodeType, children: Seq<usize>) -> NodeView {
        NodeView { children, ..NodeView::fresh(kind) }
    }

    /// A condition that makes the test `condition_type` with `parameter`.
    pub open spec fn condition(condition_type: u32, parameter: i64) -> NodeView {
        NodeView { condition_type, parameter, ..NodeView::fresh(NodeType::Condition) }
    }

    /// An action that has the effect `action_type` with `parameter`.
    pub open spec fn action(action_type: u32, parameter: i64) -> NodeView {
        NodeView { action_type, parameter, ..NodeView::fresh(NodeType::Action) }
    }

    /// This node with `child` as its new last child.
    pub open spec fn with_child(self, child: usize) -> NodeView {
        NodeView { children: self.children.push(child), ..self }
    }
}

/// One entry of a tree's arena.
pub(crate) struct Node {
    pub node_type: NodeType,
    pub children: Vec<usize>,
    pub condition_type: u32,
    pub action_type: u32,
    pub parameter: i64,
    pub success_threshold: usize,
    pub repeat_times: usize,
}

impl View for Node {
    type V = NodeView;

    open(crate) spec fn view(&self) -> NodeView {
        NodeView {
            kind: self.node_type,
            children: self.children@,
            condition_type: self.condition_type,
            action_type: self.action_type,
            parameter: self.parameter,
            success_threshold: self.success_threshold,
            repeat_times: self.repeat_times,
        }
    }
}

impl Node {
    /// A node of the given kind with no children and every setting at zero.
    pub(crate) fn new(node_type: NodeType) -> (node: Node)
        ensures
            node@ == NodeView::fresh(node_type),
    {
        Node {
            node_type,
            children: Vec::new(),
            condition_type: 0,
            action_type: 0,
            parameter: 0,
            success_threshold: 0,
            repeat_times: 0,
        }
    }
}

} // verus!
