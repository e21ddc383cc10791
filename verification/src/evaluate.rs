//! The evaluator: one walk of the tree per tick, against one blackboard.

use vstd::prelude::*;
use vstd::string::*;
use crate::context::BehaviorContext;
use crate::keys::{cooldown_key_string, node_key_string, repeater_key_string};
use crate::node::{Node, NodeType};
use crate::scalar::{from_count, to_count, to_index, HALF, SCALE};
use crate::semantics::{
    action_outcome,
    coerced,
    condition_holds,
    inverted,
    status_quantity,
    verdict,
    with_request,
    ACTION_ATTACK,
    ACTION_FLEE,
    ACTION_MOVE,
    ACTION_SET_COOLDOWN,
    ACTION_SPECIAL,
    ACTION_WAIT,
    CONDITION_COOLDOWN_EXPIRED,
    CONDITION_ENTITY_TYPE,
    CONDITION_HEALTH_BELOW,
    CONDITION_IN_RANGE,
    CONDITION_TARGET_VISIBLE,
};
use crate::status::NodeStatus;
use crate::structure::TreeError;
use crate::tree::BehaviorTree;

verus! {

/// The quantity that records `status` on a blackboard.
fn status_value(status: NodeStatus) -> (value: i64)
    ensures
        value == status_quantity(status),
{
    match status {
        NodeStatus::Failure => 0,
        NodeStatus::Success => SCALE,
        NodeStatus::Running => 2 * SCALE,
    }
}

/// `Success` where `holds`, else `Failure`.
fn status_of(holds: bool) -> (status: NodeStatus)
    ensures
        status == verdict(holds),
{
    if holds {
        NodeStatus::Success
    } else {
        NodeStatus::Failure
    }
}

/// Leaves the code and the parameter of an action for the host.
fn request(context: &mut BehaviorContext, code: u32, parameter: i64)
    requires
        code <= 5,
    ensures
        final(context)@ == with_request(old(context)@, code, parameter),
{
    context.set_value("action", (code as i64) * SCALE);
    context.set_value("action_parameter", parameter);
}

impl BehaviorTree {
    /// Evaluates the tree from its root against `context` and returns the
    /// code of the root's status: 0 for failure, 1 for success, 2 for
    /// running.
    pub fn evaluate(&self, context: &mut BehaviorContext) -> (code: i32)
        requires
            self@.fit(self@.root),
        ensures
            (code as int, final(context)@) == self@.evaluate(old(context)@),
    {
        self.evaluate_node(self.root(), context).code()
    }

    /// Evaluates the tree as `evaluate` does where it is fit for that, and
    /// says why it is not, leaving `context` as it was, where it is not.
    /// Only what the root reaches counts; a root that names no node fails
    /// on every tree.
    pub fn try_evaluate(&self, context: &mut BehaviorContext) -> (result: Result<i32, TreeError>)
        ensures
            self@.fit(self@.root) ==> result is Ok && (result->Ok_0 as int, final(context)@)
                == self@.evaluate(old(context)@),
            !self@.thresholds_valid_from(self@.root) ==> result == Err::<i32, TreeError>(
                TreeError::ThresholdBeyondChildren,
            ) && final(context)@ == old(context)@,
            self@.thresholds_valid_from(self@.root) && !self@.cycle_free_from(self@.root)
                ==> result == Err::<i32, TreeError>(TreeError::Cycle) && final(context)@ == old(
                context,
            )@,
    {
        match self.validate_from(self.root()) {
            Ok(()) => Ok(self.evaluate(context)),
            Err(error) => Err(error),
        }
    }

    /// Evaluates the node `node_id` against `context`.
    pub fn evaluate_node(&self, node_id: usize, context: &mut BehaviorContext) -> (status:
        NodeStatus)
        requires
            self@.fit(node_id),
        ensures
            (status, final(context)@) == self@.eval_node(node_id, old(context)@),
        decreases self@.span(node_id), 1nat, 0nat,
    {
        if node_id >= self.node_count() {
            return NodeStatus::Failure;
        }
        let node = self.node(node_id);
        let status = match node.node_type {
            NodeType::Sequence => self.evaluate_sequence(node_id, context),
            NodeType::Selector => self.evaluate_selector(node_id, context),
            NodeType::Inverter => self.evaluate_inverter(node_id, context),
            NodeType::Succeeder => self.evaluate_succeeder(node_id, context),
            NodeType::Repeater => self.evaluate_repeater(node_id, context),
            NodeType::Parallel => self.evaluate_parallel(node_id, context),
            NodeType::Condition => self.evaluate_condition(node, context),
            NodeType::Action => self.evaluate_action(node, context),
        };
        let key = node_key_string(node_id);
        context.set_value(key.as_str(), status_value(status));
        status
    }

    /// Evaluates the children of a sequence in order, up to the first that
    /// does not succeed.
    fn evaluate_sequence(&self, node_id: usize, context: &mut BehaviorContext) -> (status:
        NodeStatus)
        requires
            self@.fit(node_id),
            self@.has_node(node_id),
        ensures
            (status, final(context)@) == self@.eval_sequence(node_id, 0, old(context)@),
        decreases self@.span(node_id), 0nat, self@.children(node_id).len(),
    {
        let node = self.node(node_id);
        let count: usize = node.children.len();
        let mut i: usize = 0;
        while i < count
            invariant
                self@.fit(node_id),
                self@.has_node(node_id),
                node@ == self@.nodes[node_id as int],
                count == node@.children.len(),
                i <= count,
                self@.eval_sequence(node_id, i as nat, context@) == self@.eval_sequence(
                    node_id,
                    0,
                    old(context)@,
                ),
            decreases count - i,
        {
            proof {
                self@.lemma_child_fit(node_id, i as int);
            }
            let status = self.evaluate_node(node.children[i], context);
            match status {
                NodeStatus::Success => {},
                NodeStatus::Failure => {
                    return NodeStatus::Failure;
                },
                NodeStatus::Running => {
                    return NodeStatus::Running;
                },
            }
            i += 1;
        }
        NodeStatus::Success
    }

    /// Evaluates the children of a selector in order, up to the first that
    /// does not fail.
    fn evaluate_selector(&self, node_id: usize, context: &mut BehaviorContext) -> (status:
        NodeStatus)
        requires
            self@.fit(node_id),
            self@.has_node(node_id),
        ensures
            (status, final(context)@) == self@.eval_selector(node_id, 0, old(context)@),
        decreases self@.span(node_id), 0nat, self@.children(node_id).len(),
    {
        let node = self.node(node_id);
        let count: usize = node.children.len();
        let mut i: usize = 0;
        while i < count
            invariant
                self@.fit(node_id),
                self@.has_node(node_id),
                node@ == self@.nodes[node_id as int],
                count == node@.children.len(),
                i <= count,
                self@.eval_selector(node_id, i as nat, context@) == self@.eval_selector(
                    node_id,
                    0,
                    old(context)@,
                ),
            decreases count - i,
        {
            proof {
                self@.lemma_child_fit(node_id, i as int);
            }
            let status = self.evaluate_node(node.children[i], context);
            match status {
                NodeStatus::Failure => {},
                NodeStatus::Success => {
                    return NodeStatus::Success;
                },
                NodeStatus::Running => {
                    return NodeStatus::Running;
                },
            }
            i += 1;
        }
        NodeStatus::Failure
    }

    /// Evaluates the first child of an inverter and swaps success and
    /// failure.
    fn evaluate_inverter(&self, node_id: usize, context: &mut BehaviorContext) -> (status:
        NodeStatus)
        requires
            self@.fit(node_id),
            self@.has_node(node_id),
            self@.nodes[node_id as int].kind == NodeType::Inverter,
        ensures
            (status, final(context)@) == self@.eval_unrecorded(node_id, old(context)@),
        decreases self@.span(node_id), 0nat, 0nat,
    {
        let node = self.node(node_id);
        if node.children.len() == 0 {
            return NodeStatus::Failure;
        }
        proof {
            self@.lemma_child_fit(node_id, 0);
        }
        let status = match self.evaluate_node(node.children[0], context) {
            NodeStatus::Success => NodeStatus::Failure,
            NodeStatus::Failure => NodeStatus::Success,
            NodeStatus::Running => NodeStatus::Running,
        };
        status
    }

    /// Evaluates the first child of a succeeder and turns failure into
    /// success.
    fn evaluate_succeeder(&self, node_id: usize, context: &mut BehaviorContext) -> (status:
        NodeStatus)
        requires
            self@.fit(node_id),
            self@.has_node(node_id),
            self@.nodes[node_id as int].kind == NodeType::Succeeder,
        ensures
            (status, final(context)@) == self@.eval_unrecorded(node_id, old(context)@),
        decreases self@.span(node_id), 0nat, 0nat,
    {
        let node = self.node(node_id);
        if node.children.len() == 0 {
            return NodeStatus::Success;
        }
        proof {
            self@.lemma_child_fit(node_id, 0);
        }
        let status = match self.evaluate_node(node.children[0], context) {
            NodeStatus::Running => NodeStatus::Running,
            _ => NodeStatus::Success,
        };
        status
    }

    /// Evaluates the first child of a repeater until it has succeeded as
    /// often as asked, over as many ticks; the count is kept on the
    /// blackboard.
    fn evaluate_repeater(&self, node_id: usize, context: &mut BehaviorContext) -> (status:
        NodeStatus)
        requires
            self@.fit(node_id),
            self@.has_node(node_id),
            self@.nodes[node_id as int].kind == NodeType::Repeater,
        ensures
            (status, final(context)@) == self@.eval_unrecorded(node_id, old(context)@),
        decreases self@.span(node_id), 0nat, 0nat,
    {
        let node = self.node(node_id);
        if node.children.len() == 0 {
            return NodeStatus::Failure;
        }
        let count_key = repeater_key_string(node_id);
        let mut count: usize = to_count(context.get_value(count_key.as_str()));
        if count >= node.repeat_times {
            context.set_value(count_key.as_str(), 0);
            return NodeStatus::Success;
        }
        proof {
            self@.lemma_child_fit(node_id, 0);
        }
        match self.evaluate_node(node.children[0], context) {
            NodeStatus::Failure => {
                context.set_value(count_key.as_str(), 0);
                NodeStatus::Failure
            },
            NodeStatus::Success => {
                count += 1;
                if count >= node.repeat_times {
                    context.set_value(count_key.as_str(), 0);
                    NodeStatus::Success
                } else {
                    context.set_value(count_key.as_str(), from_count(count));
                    NodeStatus::Running
                }
            },
            NodeStatus::Running => NodeStatus::Running,
        }
    }

    /// Evaluates every child of a parallel node and weighs successes and
    /// failures against the threshold.
    fn evaluate_parallel(&self, node_id: usize, context: &mut BehaviorContext) -> (status:
        NodeStatus)
        requires
            self@.fit(node_id),
            self@.has_node(node_id),
            self@.nodes[node_id as int].kind == NodeType::Parallel,
        ensures
            (status, final(context)@) == self@.eval_unrecorded(node_id, old(context)@),
        decreases self@.span(node_id), 0nat, self@.children(node_id).len(),
    {
        let node = self.node(node_id);
        let count: usize = node.children.len();
        proof {
            self@.lemma_reaches_itself(node_id);
        }
        let mut success_count: usize = 0;
        let mut failure_count: usize = 0;
        let mut i: usize = 0;
        while i < count
            invariant
                self@.fit(node_id),
                self@.has_node(node_id),
                node@ == self@.nodes[node_id as int],
                count == node@.children.len(),
                i <= count,
                success_count + failure_count <= i,
                success_count == self@.tally(node_id, i as nat, old(context)@, NodeStatus::Success),
                failure_count == self@.tally(node_id, i as nat, old(context)@, NodeStatus::Failure),
                context@ == self@.after_children(node_id, i as nat, old(context)@),
            decreases count - i,
        {
            proof {
                self@.lemma_child_fit(node_id, i as int);
            }
            match self.evaluate_node(node.children[i], context) {
                NodeStatus::Success => {
                    success_count += 1;
                },
                NodeStatus::Failure => {
                    failure_count += 1;
                },
                NodeStatus::Running => {},
            }
            i += 1;
        }
        if success_count >= node.success_threshold {
            NodeStatus::Success
        } else if failure_count > count - node.success_threshold {
            NodeStatus::Failure
        } else {
            NodeStatus::Running
        }
    }

    /// Makes the test of a condition. The blackboard is only read.
    fn evaluate_condition(&self, node: &Node, context: &BehaviorContext) -> (status: NodeStatus)
        ensures
            status == verdict(condition_holds(node@, context@)),
    {
        if node.condition_type == CONDITION_IN_RANGE {
            status_of(context.is_target_within(node.parameter))
        } else if node.condition_type == CONDITION_HEALTH_BELOW {
            status_of(context.is_health_at_most(node.parameter))
        } else if node.condition_type == CONDITION_ENTITY_TYPE {
            status_of(context.entity_type() == to_index(node.parameter))
        } else if node.condition_type == CONDITION_TARGET_VISIBLE {
            status_of(context.get_value("target_visible") > HALF)
        } else if node.condition_type == CONDITION_COOLDOWN_EXPIRED {
            let cooldown_key = cooldown_key_string(to_index(node.parameter));
            status_of(context.get_value(cooldown_key.as_str()) <= 0)
        } else {
            NodeStatus::Failure
        }
    }

    /// Has the effect of an action: a request to the host, and before it a
    /// cooldown timer started where that is the action.
    fn evaluate_action(&self, node: &Node, context: &mut BehaviorContext) -> (status: NodeStatus)
        ensures
            (status, final(context)@) == action_outcome(node@, old(context)@),
    {
        if node.action_type == ACTION_ATTACK {
            if context.is_target_within(node.parameter) {
                request(context, ACTION_ATTACK, node.parameter);
                NodeStatus::Success
            } else {
                NodeStatus::Failure
            }
        } else if node.action_type == ACTION_MOVE || node.action_type == ACTION_FLEE
            || node.action_type == ACTION_WAIT || node.action_type == ACTION_SPECIAL {
            request(context, node.action_type, node.parameter);
            NodeStatus::Success
        } else if node.action_type == ACTION_SET_COOLDOWN {
            let cooldown_key = cooldown_key_string(to_index(node.parameter));
            context.set_value(cooldown_key.as_str(), node.parameter);
            request(context, ACTION_SET_COOLDOWN, node.parameter);
            NodeStatus::Success
        } else {
            NodeStatus::Failure
        }
    }
}

} // verus!
