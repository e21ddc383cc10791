//! The tree: an arena of nodes, each known by its place in it, and a root.

use vstd::prelude::*;
use crate::node::{Node, NodeType, NodeView};

verus! {

/// A tree as a mathematical value. The node with identifier `i` is
/// `nodes[i]`; an identifier beyond the arena names no node.
pub struct TreeView {
    pub root: usize,
    pub nodes: Seq<NodeView>,
}

impl TreeView {
    /// The tree without nodes, rooted at the identifier zero.
    pub open spec fn empty() -> TreeView {
        TreeView { root: 0, nodes: Seq::empty() }
    }

    /// Whether `id` names a node.
    pub open spec fn has_node(self, id: usize) -> bool {
        id < self.nodes.len()
    }

    /// This tree with `node` added under the next free identifier.
    pub open spec fn with_node(self, node: NodeView) -> TreeView {
        TreeView { nodes: self.nodes.push(node), ..self }
    }

    /// This tree with `child` as the new last child of `parent`; this tree
    /// itself where `parent` names no node.
    pub open spec fn with_child(self, parent: usize, child: usize) -> TreeView {
        if self.has_node(parent) {
            TreeView {
                nodes: self.nodes.update(parent as int, self.nodes[parent as int].with_child(child)),
                ..self
            }
        } else {
            self
        }
    }

    /// This tree rooted at `root`.
    pub open spec fn with_root(self, root: usize) -> TreeView {
        TreeView { root, ..self }
    }
}

/// A behavior tree. One tree can serve many entities: evaluation reads it
/// and writes only to the blackboard it is given.
pub struct BehaviorTree {
    root_id: usize,
    nodes: Vec<Node>,
}

impl View for BehaviorTree {
    type V = TreeView;

    closed spec fn view(&self) -> TreeView {
        TreeView { root: self.root_id, nodes: self.nodes@.map_values(|node: Node| node@) }
    }
}

impl BehaviorTree {
    /// The tree without nodes.
    pub fn new() -> (tree: BehaviorTree)
        ensures
            tree@ == TreeView::empty(),
    {
        let tree = BehaviorTree { root_id: 0, nodes: Vec::new() };
        assert(tree@.nodes =~= Seq::empty());
        tree
    }

    /// Adds `node` to the arena and returns its identifier.
    fn insert(&mut self, node: Node) -> (id: usize)
        ensures
            id == old(self)@.nodes.len(),
            final(self)@ == old(self)@.with_node(node@),
    {
        let id: usize = self.nodes.len();
        self.nodes.push(node);
        assert(self@.nodes =~= old(self)@.nodes.push(node@));
        id
    }

    /// Adds a sequence without children.
    pub fn create_sequence_node(&mut self) -> (id: usize)
        ensures
            id == old(self)@.nodes.len(),
            final(self)@ == old(self)@.with_node(NodeView::fresh(NodeType::Sequence)),
    {
        self.insert(Node::new(NodeType::Sequence))
    }

    /// Adds a selector without children.
    pub fn create_selector_node(&mut self) -> (id: usize)
        ensures
            id == old(self)@.nodes.len(),
            final(self)@ == old(self)@.with_node(NodeView::fresh(NodeType::Selector)),
    {
        self.insert(Node::new(NodeType::Selector))
    }

    /// Adds an inverter without a child.
    pub fn create_inverter_node(&mut self) -> (id: usize)
        ensures
            id == old(self)@.nodes.len(),
            final(self)@ == old(self)@.with_node(NodeView::fresh(NodeType::Inverter)),
    {
        self.insert(Node::new(NodeType::Inverter))
    }

    /// Adds a succeeder without a child.
    pub fn create_succeeder_node(&mut self) -> (id: usize)
        ensures
            id == old(self)@.nodes.len(),
            final(self)@ == old(self)@.with_node(NodeView::fresh(NodeType::Succeeder)),
    {
        self.insert(Node::new(NodeType::Succeeder))
    }

    /// Adds a repeater, without a child, that waits for `times` successes.
    pub fn create_repeater_node(&mut self, times: usize) -> (id: usize)
        ensures
            id == old(self)@.nodes.len(),
            final(self)@ == old(self)@.with_node(
                NodeView { repeat_times: times, ..NodeView::fresh(NodeType::Repeater) },
            ),
    {
        let mut node = Node::new(NodeType::Repeater);
        node.repeat_times = times;
        self.insert(node)
    }

    /// Adds a parallel node, without children, that succeeds once
    /// `success_threshold` of its children do.
    pub fn create_parallel_node(&mut self, success_threshold: usize) -> (id: usize)
        ensures
            id == old(self)@.nodes.len(),
            final(self)@ == old(self)@.with_node(
                NodeView { success_threshold, ..NodeView::fresh(NodeType::Parallel) },
            ),
    {
        let mut node = Node::new(NodeType::Parallel);
        node.success_threshold = success_threshold;
        self.insert(node)
    }

    /// Adds a condition that makes the test `condition_type` with `parameter`.
    pub fn create_condition_node(&mut self, condition_type: u32, parameter: i64) -> (id: usize)
        ensures
            id == old(self)@.nodes.len(),
            final(self)@ == old(self)@.with_node(NodeView::condition(condition_type, parameter)),
    {
        let mut node = Node::new(NodeType::Condition);
        node.condition_type = condition_type;
        node.parameter = parameter;
        self.insert(node)
    }

    /// Adds an action that has the effect `action_type` with `parameter`.
    pub fn create_action_node(&mut self, action_type: u32, parameter: i64) -> (id: usize)
        ensures
            id == old(self)@.nodes.len(),
            final(self)@ == old(self)@.with_node(NodeView::action(action_type, parameter)),
    {
        let mut node = Node::new(NodeType::Action);
        node.action_type = action_type;
        node.parameter = parameter;
        self.insert(node)
    }

    /// Makes `child_id` the new last child of `parent_id`. Nothing happens
    /// where `parent_id` names no node; `child_id` need not name one.
    pub fn add_child(&mut self, parent_id: usize, child_id: usize)
        ensures
            final(self)@ == old(self)@.with_child(parent_id, child_id),
    {
        if parent_id < self.nodes.len() {
            self.nodes[parent_id].children.push(child_id);
            assert(self@.nodes =~= old(self)@.nodes.update(
                parent_id as int,
                old(self)@.nodes[parent_id as int].with_child(child_id),
            ));
        }
    }

    /// Makes `node_id` the root, whether or not it names a node.
    pub fn set_root(&mut self, node_id: usize)
        ensures
            final(self)@ == old(self)@.with_root(node_id),
    {
        self.root_id = node_id;
    }

    /// The node that `id` names.
    pub(crate) fn node(&self, id: usize) -> (node: &Node)
        requires
            self@.has_node(id),
        ensures
            node@ == self@.nodes[id as int],
    {
        &self.nodes[id]
    }

    /// The identifier of the root.
    pub fn root(&self) -> (id: usize)
        ensures
            id == self@.root,
    {
        self.root_id
    }

    /// How many nodes the arena holds; also the next identifier to be given.
    pub fn node_count(&self) -> (count: usize)
        ensures
            count == self@.nodes.len(),
    {
        self.nodes.len()
    }
}

} // verus!
