//! What an evaluation leaves alone.
//!
//! An evaluation reads the whole blackboard and writes to its store only,
//! and there only under keys of its own: the records of nodes, the counts
//! of repeaters, cooldown timers, and the request to the host. Positions,
//! health and classification stay as the host set them, and so does every
//! other key.

use vstd::prelude::*;
use crate::context::ContextView;
use crate::keys::{action_key, action_parameter_key, cooldown_key, node_key, repeater_key};
use crate::node::NodeType;
use crate::status::NodeStatus;
use crate::tree::TreeView;

verus! {

/// Whether `key` is one that an evaluation may write under.
pub open spec fn evaluator_key(key: Seq<char>) -> bool {
    ||| exists|id: nat| key == #[trigger] node_key(id)
    ||| exists|id: nat| key == #[trigger] repeater_key(id)
    ||| exists|number: nat| key == #[trigger] cooldown_key(number)
    ||| key == action_key()
    ||| key == action_parameter_key()
}

/// Whether `after` is `before` but for what the store holds under keys that
/// an evaluation may write under.
pub open spec fn differs_in_evaluator_keys_only(before: ContextView, after: ContextView) -> bool {
    &&& after == (ContextView { values: after.values, ..before })
    &&& forall|key: Seq<char>|
        !evaluator_key(key) ==> (#[trigger] after.values.contains_key(key)
            <==> before.values.contains_key(key)) && after.values[key] == before.values[key]
}

impl TreeView {
    /// The evaluation of a node stays within the keys of the evaluator.
    pub proof fn lemma_node_stays_within(self, id: usize, context: ContextView)
        requires
            self.fit(id),
        ensures
            differs_in_evaluator_keys_only(context, self.eval_node(id, context).1),
        decreases self.span(id), 1nat, 0nat,
    {
        if self.has_node(id) {
            self.lemma_unrecorded_stays_within(id, context);
            let outcome = self.eval_unrecorded(id, context);
            assert(evaluator_key(node_key(id as nat)));
        }
    }

    /// The evaluation of a node stays within the keys of the evaluator
    /// before it records its status, too.
    proof fn lemma_unrecorded_stays_within(self, id: usize, context: ContextView)
        requires
            self.fit(id),
            self.has_node(id),
        ensures
            differs_in_evaluator_keys_only(context, self.eval_unrecorded(id, context).1),
        decreases self.span(id), 0nat, self.children(id).len() + 1,
    {
        let node = self.nodes[id as int];
        if node.children.len() > 0 {
            self.lemma_child_fit(id, 0);
        }
        match node.kind {
            NodeType::Sequence => {
                self.lemma_sequence_stays_within(id, 0, context, context);
            },
            NodeType::Selector => {
                self.lemma_selector_stays_within(id, 0, context, context);
            },
            NodeType::Inverter => {
                if node.children.len() > 0 {
                    self.lemma_node_stays_within(node.children[0], context);
                }
            },
            NodeType::Succeeder => {
                if node.children.len() > 0 {
                    self.lemma_node_stays_within(node.children[0], context);
                }
            },
            NodeType::Repeater => {
                assert(evaluator_key(repeater_key(id as nat)));
                if node.children.len() > 0 {
                    self.lemma_node_stays_within(node.children[0], context);
                }
            },
            NodeType::Parallel => {
                self.lemma_children_stay_within(id, node.children.len(), context);
            },
            NodeType::Condition => {},
            NodeType::Action => {
                assert(evaluator_key(
                    cooldown_key(crate::semantics::parameter_index(node.parameter)),
                ));
            },
        }
    }

    /// The rest of a sequence stays within the keys of the evaluator.
    proof fn lemma_sequence_stays_within(
        self,
        id: usize,
        from: nat,
        before: ContextView,
        context: ContextView,
    )
        requires
            self.fit(id),
            self.has_node(id),
            differs_in_evaluator_keys_only(before, context),
        ensures
            differs_in_evaluator_keys_only(before, self.eval_sequence(id, from, context).1),
        decreases self.span(id), 0nat, self.children(id).len() - from,
    {
        if from < self.children(id).len() {
            self.lemma_child_fit(id, from as int);
            let child = self.eval_node(self.children(id)[from as int], context);
            self.lemma_node_stays_within(self.children(id)[from as int], context);
            if child.0 == NodeStatus::Success {
                self.lemma_sequence_stays_within(id, from + 1, before, child.1);
            }
        }
    }

    /// The rest of a selector stays within the keys of the evaluator.
    proof fn lemma_selector_stays_within(
        self,
        id: usize,
        from: nat,
        before: ContextView,
        context: ContextView,
    )
        requires
            self.fit(id),
            self.has_node(id),
            differs_in_evaluator_keys_only(before, context),
        ensures
            differs_in_evaluator_keys_only(before, self.eval_selector(id, from, context).1),
        decreases self.span(id), 0nat, self.children(id).len() - from,
    {
        if from < self.children(id).len() {
            self.lemma_child_fit(id, from as int);
            let child = self.eval_node(self.children(id)[from as int], context);
            self.lemma_node_stays_within(self.children(id)[from as int], context);
            if child.0 == NodeStatus::Failure {
                self.lemma_selector_stays_within(id, from + 1, before, child.1);
            }
        }
    }

    /// The evaluation of children one after the other stays within the keys
    /// of the evaluator.
    proof fn lemma_children_stay_within(self, id: usize, upto: nat, context: ContextView)
        requires
            self.fit(id),
            self.has_node(id),
            upto <= self.children(id).len(),
        ensures
            differs_in_evaluator_keys_only(context, self.after_children(id, upto, context)),
        decreases self.span(id), 0nat, upto,
    {
        if upto > 0 {
            self.lemma_child_fit(id, upto - 1);
            self.lemma_children_stay_within(id, (upto - 1) as nat, context);
            let before = self.after_children(id, (upto - 1) as nat, context);
            self.lemma_node_stays_within(self.children(id)[upto - 1], before);
        }
    }
}

/// One tick changes nothing on a blackboard but what its store holds under
/// the keys of the evaluator: positions, health and classification stay,
/// and every other key reads as before.
pub proof fn evaluation_stays_within_its_keys(tree: TreeView, context: ContextView, key: Seq<char>)
    requires
        tree.fit(tree.root),
    ensures
        tree.evaluate(context).1 == (ContextView {
            values: tree.evaluate(context).1.values,
            ..context
        }),
        !evaluator_key(key) ==> tree.evaluate(context).1.value(key) == context.value(key),
{
    tree.lemma_node_stays_within(tree.root, context);
    let after = tree.evaluate(context).1;
    if !evaluator_key(key) {
        assert(after.values.contains_key(key) <==> context.values.contains_key(key));
    }
}

/// No evaluation writes under `target_visible`: the flag is the host's.
pub proof fn target_visible_is_not_an_evaluator_key()
    ensures
        !evaluator_key(crate::keys::target_visible_key()),
{
    assert forall|id: nat| crate::keys::target_visible_key() != #[trigger] node_key(id) by {
        crate::keys::key_families_are_disjoint(id, 0, 0);
    }
    assert forall|id: nat| crate::keys::target_visible_key() != #[trigger] repeater_key(id) by {
        crate::keys::key_families_are_disjoint(0, id, 0);
    }
    assert forall|number: nat|
        crate::keys::target_visible_key() != #[trigger] cooldown_key(number) by {
        crate::keys::key_families_are_disjoint(0, 0, number);
    }
    crate::keys::key_families_are_disjoint(0, 0, 0);
}

} // verus!
