//! What evaluation means: the outcome of every node on every blackboard, as
//! a function of the tree and the blackboard alone.
//!
//! Evaluating a node yields a status and leaves the blackboard changed: by
//! what its children and leaves wrote, and by the record of its own status
//! under its node key. The outcome of a node is defined wherever the tree is
//! fit for evaluation from it.

use vstd::prelude::*;
use crate::context::ContextView;
use crate::keys::{
    action_key,
    action_parameter_key,
    cooldown_key,
    node_key,
    repeater_key,
    target_visible_key,
};
use crate::node::{NodeType, NodeView};
use crate::scalar::{scaled, whole_units, HALF};
use crate::status::NodeStatus;
use crate::tree::TreeView;

verus! {

/// The condition that the target is within `parameter` of the entity.
pub const CONDITION_IN_RANGE: u32 = 0;

/// The condition that health is at most the fraction `parameter` of full
/// health.
pub const CONDITION_HEALTH_BELOW: u32 = 1;

/// The condition that the entity's classification is the whole part of
/// `parameter`.
pub const CONDITION_ENTITY_TYPE: u32 = 2;

/// The condition that the host has raised the flag `target_visible`.
pub const CONDITION_TARGET_VISIBLE: u32 = 3;

/// The condition that the cooldown timer numbered by the whole part of
/// `parameter` has run down.
pub const CONDITION_COOLDOWN_EXPIRED: u32 = 4;

/// The action of moving toward the target.
pub const ACTION_MOVE: u32 = 0;

/// The action of attacking the target, which needs it within `parameter`.
pub const ACTION_ATTACK: u32 = 1;

/// The action of fleeing from the target.
pub const ACTION_FLEE: u32 = 2;

/// The action of waiting.
pub const ACTION_WAIT: u32 = 3;

/// The action of using a special ability.
pub const ACTION_SPECIAL: u32 = 4;

/// The action of starting the cooldown timer numbered by the whole part of
/// `parameter`, at `parameter`. Like every action that succeeds it leaves
/// its code and parameter for the host as well.
pub const ACTION_SET_COOLDOWN: u32 = 5;

/// `Success` where `holds`, else `Failure`.
pub open spec fn verdict(holds: bool) -> NodeStatus {
    if holds {
        NodeStatus::Success
    } else {
        NodeStatus::Failure
    }
}

/// The quantity that records a status on a blackboard: zero for `Failure`,
/// one for `Success`, two for `Running`.
pub open spec fn status_quantity(status: NodeStatus) -> i64 {
    scaled(status.spec_code())
}

/// What an inverter makes of its child's status.
pub open spec fn inverted(status: NodeStatus) -> NodeStatus {
    match status {
        NodeStatus::Success => NodeStatus::Failure,
        NodeStatus::Failure => NodeStatus::Success,
        NodeStatus::Running => NodeStatus::Running,
    }
}

/// What a succeeder makes of its child's status.
pub open spec fn coerced(status: NodeStatus) -> NodeStatus {
    match status {
        NodeStatus::Running => NodeStatus::Running,
        _ => NodeStatus::Success,
    }
}

/// The index that a parameter selects: its whole part as a 32-bit number.
pub open spec fn parameter_index(parameter: i64) -> nat {
    whole_units(parameter, u32::MAX as int) as nat
}

/// Whether the condition `node` holds on `context`. A condition of an
/// unknown type holds nowhere.
pub open spec fn condition_holds(node: NodeView, context: ContextView) -> bool {
    if node.condition_type == CONDITION_IN_RANGE {
        context.target_within(node.parameter)
    } else if node.condition_type == CONDITION_HEALTH_BELOW {
        context.health_at_most(node.parameter)
    } else if node.condition_type == CONDITION_ENTITY_TYPE {
        context.entity_type == parameter_index(node.parameter)
    } else if node.condition_type == CONDITION_TARGET_VISIBLE {
        context.value(target_visible_key()) > HALF
    } else if node.condition_type == CONDITION_COOLDOWN_EXPIRED {
        context.value(cooldown_key(parameter_index(node.parameter))) <= 0
    } else {
        false
    }
}

/// `context` after an action has left its code and parameter for the host.
pub open spec fn with_request(context: ContextView, code: u32, parameter: i64) -> ContextView {
    context.with_value(action_key(), scaled(code as int)).with_value(
        action_parameter_key(),
        parameter,
    )
}

/// The status of the action `node` on `context`, and `context` after it.
/// Every action that succeeds leaves its code and parameter for the host;
/// starting a cooldown timer writes the timer first. An attack out of range
/// fails and writes nothing, as does an action of an unknown type.
pub open spec fn action_outcome(node: NodeView, context: ContextView) -> (
    NodeStatus,
    ContextView,
) {
    if node.action_type == ACTION_ATTACK {
        if context.target_within(node.parameter) {
            (NodeStatus::Success, with_request(context, ACTION_ATTACK, node.parameter))
        } else {
            (NodeStatus::Failure, context)
        }
    } else if node.action_type == ACTION_MOVE || node.action_type == ACTION_FLEE
        || node.action_type == ACTION_WAIT || node.action_type == ACTION_SPECIAL {
        (NodeStatus::Success, with_request(context, node.action_type, node.parameter))
    } else if node.action_type == ACTION_SET_COOLDOWN {
        (
            NodeStatus::Success,
            with_request(
                context.with_value(cooldown_key(parameter_index(node.parameter)), node.parameter),
                ACTION_SET_COOLDOWN,
                node.parameter,
            ),
        )
    } else {
        (NodeStatus::Failure, context)
    }
}

/// What a parallel node with `children` children makes of `successes`
/// successes and `failures` failures among them: success once the threshold
/// is met, failure once so many have failed that it no longer can be.
pub open spec fn parallel_verdict(
    successes: nat,
    failures: nat,
    children: nat,
    threshold: nat,
) -> NodeStatus
    recommends
        threshold <= children,
{
    if successes >= threshold {
        NodeStatus::Success
    } else if failures > children - threshold {
        NodeStatus::Failure
    } else {
        NodeStatus::Running
    }
}

/// How often a repeater has seen its child succeed, as `context` has it.
pub open spec fn repeat_count(id: usize, context: ContextView) -> nat {
    whole_units(context.value(repeater_key(id as nat)), usize::MAX as int) as nat
}

impl TreeView {
    /// The children of the node `id`.
    pub open spec fn children(self, id: usize) -> Seq<usize>
        recommends
            self.has_node(id),
    {
        self.nodes[id as int].children
    }

    /// The status of the node `id` on `context`, and `context` after its
    /// evaluation. An identifier that names no node fails and writes
    /// nothing; a node records its status under its node key, last of all.
    pub open spec fn eval_node(self, id: usize, context: ContextView) -> (NodeStatus, ContextView)
        decreases self.span(id), 1nat, 0nat,
        when self.fit(id)
    {
        if !self.has_node(id) {
            (NodeStatus::Failure, context)
        } else {
            let outcome = self.eval_unrecorded(id, context);
            (outcome.0, outcome.1.with_value(node_key(id as nat), status_quantity(outcome.0)))
        }
    }

    /// As `eval_node`, before the node's own status is recorded.
    pub open spec fn eval_unrecorded(self, id: usize, context: ContextView) -> (
        NodeStatus,
        ContextView,
    )
        decreases self.span(id), 0nat, self.children(id).len() + 1,
        when self.fit(id) && self.has_node(id)
        via Self::eval_unrecorded_descends
    {
        let node = self.nodes[id as int];
        match node.kind {
            NodeType::Sequence => self.eval_sequence(id, 0, context),
            NodeType::Selector => self.eval_selector(id, 0, context),
            NodeType::Inverter => {
                if node.children.len() == 0 {
                    (NodeStatus::Failure, context)
                } else {
                    let child = self.eval_node(node.children[0], context);
                    (inverted(child.0), child.1)
                }
            },
            NodeType::Succeeder => {
                if node.children.len() == 0 {
                    (NodeStatus::Success, context)
                } else {
                    let child = self.eval_node(node.children[0], context);
                    (coerced(child.0), child.1)
                }
            },
            NodeType::Repeater => {
                let key = repeater_key(id as nat);
                let count = repeat_count(id, context);
                if node.children.len() == 0 {
                    (NodeStatus::Failure, context)
                } else if count >= node.repeat_times {
                    (NodeStatus::Success, context.with_value(key, 0))
                } else {
                    let child = self.eval_node(node.children[0], context);
                    match child.0 {
                        NodeStatus::Failure => (NodeStatus::Failure, child.1.with_value(key, 0)),
                        NodeStatus::Running => (NodeStatus::Running, child.1),
                        NodeStatus::Success => {
                            if count + 1 >= node.repeat_times {
                                (NodeStatus::Success, child.1.with_value(key, 0))
                            } else {
                                (
                                    NodeStatus::Running,
                                    child.1.with_value(key, scaled((count + 1) as int)),
                                )
                            }
                        },
                    }
                }
            },
            NodeType::Parallel => {
                let all = node.children.len();
                (
                    parallel_verdict(
                        self.tally(id, all, context, NodeStatus::Success),
                        self.tally(id, all, context, NodeStatus::Failure),
                        all,
                        node.success_threshold as nat,
                    ),
                    self.after_children(id, all, context),
                )
            },
            NodeType::Condition => (verdict(condition_holds(node, context)), context),
            NodeType::Action => action_outcome(node, context),
        }
    }

    /// The outcome of a sequence from its child `from` on: the first child
    /// that does not succeed decides, and no child after it is evaluated;
    /// where none is left, the sequence succeeds.
    pub open spec fn eval_sequence(self, id: usize, from: nat, context: ContextView) -> (
        NodeStatus,
        ContextView,
    )
        decreases self.span(id), 0nat, self.children(id).len() - from,
        when self.fit(id) && self.has_node(id)
        via Self::eval_sequence_descends
    {
        if from >= self.children(id).len() {
            (NodeStatus::Success, context)
        } else {
            let child = self.eval_node(self.children(id)[from as int], context);
            if child.0 == NodeStatus::Success {
                self.eval_sequence(id, from + 1, child.1)
            } else {
                child
            }
        }
    }

    /// The outcome of a selector from its child `from` on: the first child
    /// that does not fail decides, and no child after it is evaluated; where
    /// none is left, the selector fails.
    pub open spec fn eval_selector(self, id: usize, from: nat, context: ContextView) -> (
        NodeStatus,
        ContextView,
    )
        decreases self.span(id), 0nat, self.children(id).len() - from,
        when self.fit(id) && self.has_node(id)
        via Self::eval_selector_descends
    {
        if from >= self.children(id).len() {
            (NodeStatus::Failure, context)
        } else {
            let child = self.eval_node(self.children(id)[from as int], context);
            if child.0 == NodeStatus::Failure {
                self.eval_selector(id, from + 1, child.1)
            } else {
                child
            }
        }
    }

    /// `context` after the first `upto` children of `id` were evaluated one
    /// after the other, whatever their statuses.
    pub open spec fn after_children(self, id: usize, upto: nat, context: ContextView) -> ContextView
        decreases self.span(id), 0nat, upto,
        when self.fit(id) && self.has_node(id) && upto <= self.children(id).len()
        via Self::after_children_descends
    {
        if upto == 0 {
            context
        } else {
            let before = self.after_children(id, (upto - 1) as nat, context);
            self.eval_node(self.children(id)[upto - 1], before).1
        }
    }

    /// How many of the first `upto` children of `id`, evaluated one after
    /// the other from `context` on, have the status `status`.
    pub open spec fn tally(self, id: usize, upto: nat, context: ContextView, status: NodeStatus) -> nat
        decreases self.span(id), 0nat, upto,
        when self.fit(id) && self.has_node(id) && upto <= self.children(id).len()
        via Self::tally_descends
    {
        if upto == 0 {
            0
        } else {
            let before = self.after_children(id, (upto - 1) as nat, context);
            let last = self.eval_node(self.children(id)[upto - 1], before).0;
            self.tally(id, (upto - 1) as nat, context, status) + if last == status {
                1nat
            } else {
                0nat
            }
        }
    }

    /// Why `eval_unrecorded` comes to an end: a decorator descends into a
    /// child, which reaches fewer nodes.
    #[via_fn]
    proof fn eval_unrecorded_descends(self, id: usize, context: ContextView) {
        if self.children(id).len() > 0 {
            self.lemma_child_fit(id, 0);
        }
    }

    /// Why `eval_sequence` comes to an end.
    #[via_fn]
    proof fn eval_sequence_descends(self, id: usize, from: nat, context: ContextView) {
        if from < self.children(id).len() {
            self.lemma_child_fit(id, from as int);
        }
    }

    /// Why `eval_selector` comes to an end.
    #[via_fn]
    proof fn eval_selector_descends(self, id: usize, from: nat, context: ContextView) {
        if from < self.children(id).len() {
            self.lemma_child_fit(id, from as int);
        }
    }

    /// Why `after_children` comes to an end.
    #[via_fn]
    proof fn after_children_descends(self, id: usize, upto: nat, context: ContextView) {
        if upto > 0 {
            self.lemma_child_fit(id, upto - 1);
        }
    }

    /// Why `tally` comes to an end.
    #[via_fn]
    proof fn tally_descends(self, id: usize, upto: nat, context: ContextView, status: NodeStatus) {
        if upto > 0 {
            self.lemma_child_fit(id, upto - 1);
        }
    }

    /// The status of the `index`-th child of `id` when the children are
    /// evaluated one after the other from `context` on.
    pub open spec fn child_status(self, id: usize, index: nat, context: ContextView) -> NodeStatus
        recommends
            self.fit(id),
            self.has_node(id),
            index < self.children(id).len(),
    {
        self.eval_node(self.children(id)[index as int], self.after_children(id, index, context)).0
    }

    /// What a host gets from one tick: the code of the root's status, and
    /// the blackboard after the evaluation.
    pub open spec fn evaluate(self, context: ContextView) -> (int, ContextView) {
        let outcome = self.eval_node(self.root, context);
        (outcome.0.spec_code(), outcome.1)
    }
}

} // verus!
