//! What holds of every evaluation, proved from the definitions.

use vstd::prelude::*;
use crate::context::ContextView;
use crate::keys::{key_families_are_disjoint, node_key, repeater_key};
use crate::node::NodeType;
use crate::scalar::{lemma_count_round_trip, SCALE};
use crate::semantics::{coerced, inverted, parallel_verdict, repeat_count, status_quantity};
use crate::status::NodeStatus;
use crate::tree::TreeView;

verus! {

/// An identifier that names no node evaluates to failure, and the
/// blackboard stays as it was: on every tree, whatever else it holds.
pub proof fn missing_node_fails(tree: TreeView, id: usize, context: ContextView)
    requires
        !tree.has_node(id),
    ensures
        tree.fit(id),
        tree.eval_node(id, context) == (NodeStatus::Failure, context),
{
    tree.lemma_missing_is_fit(id);
}

/// A child that names no node counts as a failed child, whatever the kind
/// of its parent, and its evaluation leaves the blackboard as it was.
pub proof fn missing_child_fails(tree: TreeView, id: usize, index: nat, context: ContextView)
    requires
        tree.fit(id),
        tree.has_node(id),
        index < tree.children(id).len(),
        !tree.has_node(tree.children(id)[index as int]),
    ensures
        tree.child_status(id, index, context) == NodeStatus::Failure,
        tree.after_children(id, index + 1, context) == tree.after_children(id, index, context),
{
}

/// Every node leaves its status under its node key.
pub proof fn node_records_its_status(tree: TreeView, id: usize, context: ContextView)
    requires
        tree.fit(id),
        tree.has_node(id),
    ensures
        tree.eval_node(id, context).1.value(node_key(id as nat)) == status_quantity(
            tree.eval_node(id, context).0,
        ),
{
}

/// While children succeed, a sequence moves on: from child `from`, with the
/// blackboard as the children before it left it, it comes to the same end
/// as from child `upto`.
proof fn lemma_sequence_moves_on(
    tree: TreeView,
    id: usize,
    context: ContextView,
    from: nat,
    upto: nat,
)
    requires
        tree.fit(id),
        tree.has_node(id),
        from <= upto <= tree.children(id).len(),
        forall|j: nat| from <= j < upto ==> tree.child_status(id, j, context) == NodeStatus::Success,
    ensures
        tree.eval_sequence(id, from, tree.after_children(id, from, context)) == tree.eval_sequence(
            id,
            upto,
            tree.after_children(id, upto, context),
        ),
    decreases upto - from,
{
    if from < upto {
        tree.lemma_child_fit(id, from as int);
        assert(tree.child_status(id, from, context) == NodeStatus::Success);
        lemma_sequence_moves_on(tree, id, context, from + 1, upto);
    }
}

/// While children fail, a selector moves on: from child `from`, with the
/// blackboard as the children before it left it, it comes to the same end
/// as from child `upto`.
proof fn lemma_selector_moves_on(
    tree: TreeView,
    id: usize,
    context: ContextView,
    from: nat,
    upto: nat,
)
    requires
        tree.fit(id),
        tree.has_node(id),
        from <= upto <= tree.children(id).len(),
        forall|j: nat| from <= j < upto ==> tree.child_status(id, j, context) == NodeStatus::Failure,
    ensures
        tree.eval_selector(id, from, tree.after_children(id, from, context)) == tree.eval_selector(
            id,
            upto,
            tree.after_children(id, upto, context),
        ),
    decreases upto - from,
{
    if from < upto {
        tree.lemma_child_fit(id, from as int);
        assert(tree.child_status(id, from, context) == NodeStatus::Failure);
        lemma_selector_moves_on(tree, id, context, from + 1, upto);
    }
}

/// A sequence without children succeeds and writes nothing but its own
/// record.
pub proof fn empty_sequence_succeeds(tree: TreeView, id: usize, context: ContextView)
    requires
        tree.fit(id),
        tree.has_node(id),
        tree.nodes[id as int].kind == NodeType::Sequence,
        tree.children(id).len() == 0,
    ensures
        tree.eval_node(id, context) == (
            NodeStatus::Success,
            context.with_value(node_key(id as nat), status_quantity(NodeStatus::Success)),
        ),
{
    assert(tree.eval_sequence(id, 0, context) == (NodeStatus::Success, context));
}

/// A sequence ends at its first child that does not succeed, with that
/// child's status: failure where it failed. The blackboard is then as that
/// child and those before it left it, with the sequence's own record: no
/// child after it was evaluated.
pub proof fn sequence_stops_at_first_unsuccessful_child(
    tree: TreeView,
    id: usize,
    context: ContextView,
    index: nat,
)
    requires
        tree.fit(id),
        tree.has_node(id),
        tree.nodes[id as int].kind == NodeType::Sequence,
        index < tree.children(id).len(),
        forall|j: nat| j < index ==> tree.child_status(id, j, context) == NodeStatus::Success,
        tree.child_status(id, index, context) != NodeStatus::Success,
    ensures
        tree.eval_node(id, context) == (
            tree.child_status(id, index, context),
            tree.after_children(id, index + 1, context).with_value(
                node_key(id as nat),
                status_quantity(tree.child_status(id, index, context)),
            ),
        ),
{
    tree.lemma_child_fit(id, index as int);
    lemma_sequence_moves_on(tree, id, context, 0, index);
}

/// A sequence all of whose children succeed succeeds, after every child was
/// evaluated.
pub proof fn sequence_of_successes_succeeds(tree: TreeView, id: usize, context: ContextView)
    requires
        tree.fit(id),
        tree.has_node(id),
        tree.nodes[id as int].kind == NodeType::Sequence,
        forall|j: nat|
            j < tree.children(id).len() ==> tree.child_status(id, j, context)
                == NodeStatus::Success,
    ensures
        tree.eval_node(id, context) == (
            NodeStatus::Success,
            tree.after_children(id, tree.children(id).len(), context).with_value(
                node_key(id as nat),
                status_quantity(NodeStatus::Success),
            ),
        ),
{
    lemma_sequence_moves_on(tree, id, context, 0, tree.children(id).len());
}

/// A selector without children fails and writes nothing but its own record.
pub proof fn empty_selector_fails(tree: TreeView, id: usize, context: ContextView)
    requires
        tree.fit(id),
        tree.has_node(id),
        tree.nodes[id as int].kind == NodeType::Selector,
        tree.children(id).len() == 0,
    ensures
        tree.eval_node(id, context) == (
            NodeStatus::Failure,
            context.with_value(node_key(id as nat), status_quantity(NodeStatus::Failure)),
        ),
{
    assert(tree.eval_selector(id, 0, context) == (NodeStatus::Failure, context));
}

/// A selector ends at its first child that does not fail, with that child's
/// status: success where it succeeded. The blackboard is then as that child
/// and those before it left it, with the selector's own record: no child
/// after it was evaluated.
pub proof fn selector_stops_at_first_unfailing_child(
    tree: TreeView,
    id: usize,
    context: ContextView,
    index: nat,
)
    requires
        tree.fit(id),
        tree.has_node(id),
        tree.nodes[id as int].kind == NodeType::Selector,
        index < tree.children(id).len(),
        forall|j: nat| j < index ==> tree.child_status(id, j, context) == NodeStatus::Failure,
        tree.child_status(id, index, context) != NodeStatus::Failure,
    ensures
        tree.eval_node(id, context) == (
            tree.child_status(id, index, context),
            tree.after_children(id, index + 1, context).with_value(
                node_key(id as nat),
                status_quantity(tree.child_status(id, index, context)),
            ),
        ),
{
    tree.lemma_child_fit(id, index as int);
    lemma_selector_moves_on(tree, id, context, 0, index);
}

/// A selector all of whose children fail fails, after every child was
/// evaluated.
pub proof fn selector_of_failures_fails(tree: TreeView, id: usize, context: ContextView)
    requires
        tree.fit(id),
        tree.has_node(id),
        tree.nodes[id as int].kind == NodeType::Selector,
        forall|j: nat|
            j < tree.children(id).len() ==> tree.child_status(id, j, context)
                == NodeStatus::Failure,
    ensures
        tree.eval_node(id, context) == (
            NodeStatus::Failure,
            tree.after_children(id, tree.children(id).len(), context).with_value(
                node_key(id as nat),
                status_quantity(NodeStatus::Failure),
            ),
        ),
{
    lemma_selector_moves_on(tree, id, context, 0, tree.children(id).len());
}

/// An inverter with a child passes running through and swaps success and
/// failure; what its child wrote stays.
pub proof fn inverter_swaps_success_and_failure(tree: TreeView, id: usize, context: ContextView)
    requires
        tree.fit(id),
        tree.has_node(id),
        tree.nodes[id as int].kind == NodeType::Inverter,
        tree.children(id).len() > 0,
    ensures
        tree.eval_node(id, context).0 == inverted(tree.child_status(id, 0, context)),
        tree.child_status(id, 0, context) == NodeStatus::Running ==> tree.eval_node(id, context).0
            == NodeStatus::Running,
        tree.child_status(id, 0, context) == NodeStatus::Success ==> tree.eval_node(id, context).0
            == NodeStatus::Failure,
        tree.child_status(id, 0, context) == NodeStatus::Failure ==> tree.eval_node(id, context).0
            == NodeStatus::Success,
        tree.eval_node(id, context).1 == tree.after_children(id, 1, context).with_value(
            node_key(id as nat),
            status_quantity(tree.eval_node(id, context).0),
        ),
{
    tree.lemma_child_fit(id, 0);
    assert(tree.after_children(id, 0, context) == context);
}

/// A succeeder with a child passes running through and turns everything
/// else into success; what its child wrote stays.
pub proof fn succeeder_turns_failure_into_success(tree: TreeView, id: usize, context: ContextView)
    requires
        tree.fit(id),
        tree.has_node(id),
        tree.nodes[id as int].kind == NodeType::Succeeder,
        tree.children(id).len() > 0,
    ensures
        tree.eval_node(id, context).0 == coerced(tree.child_status(id, 0, context)),
        tree.child_status(id, 0, context) == NodeStatus::Running ==> tree.eval_node(id, context).0
            == NodeStatus::Running,
        tree.child_status(id, 0, context) != NodeStatus::Running ==> tree.eval_node(id, context).0
            == NodeStatus::Success,
        tree.eval_node(id, context).1 == tree.after_children(id, 1, context).with_value(
            node_key(id as nat),
            status_quantity(tree.eval_node(id, context).0),
        ),
{
    tree.lemma_child_fit(id, 0);
    assert(tree.after_children(id, 0, context) == context);
}

/// A repeater without a child fails.
pub proof fn repeater_without_child_fails(tree: TreeView, id: usize, context: ContextView)
    requires
        tree.fit(id),
        tree.has_node(id),
        tree.nodes[id as int].kind == NodeType::Repeater,
        tree.children(id).len() == 0,
    ensures
        tree.eval_node(id, context) == (
            NodeStatus::Failure,
            context.with_value(node_key(id as nat), status_quantity(NodeStatus::Failure)),
        ),
{
}

/// A repeater that finds its count at the number asked for succeeds at
/// once, without evaluating its child, and starts over at zero.
pub proof fn repeater_at_its_number_starts_over(tree: TreeView, id: usize, context: ContextView)
    requires
        tree.fit(id),
        tree.has_node(id),
        tree.nodes[id as int].kind == NodeType::Repeater,
        tree.children(id).len() > 0,
        repeat_count(id, context) >= tree.nodes[id as int].repeat_times,
    ensures
        tree.eval_node(id, context) == (
            NodeStatus::Success,
            context.with_value(repeater_key(id as nat), 0).with_value(
                node_key(id as nat),
                status_quantity(NodeStatus::Success),
            ),
        ),
        repeat_count(id, tree.eval_node(id, context).1) == 0,
{
    key_families_are_disjoint(id as nat, id as nat, 0);
}

/// A repeater below the number asked for evaluates its child once. Where
/// the child runs, so does the repeater, and the count stays. Where the
/// child fails, the repeater fails and starts over. Where the child
/// succeeds, the count goes up by one: the repeater runs if more successes
/// are asked for, and succeeds and starts over if that was the last.
pub proof fn repeater_counts_successes(tree: TreeView, id: usize, context: ContextView)
    requires
        tree.fit(id),
        tree.has_node(id),
        tree.nodes[id as int].kind == NodeType::Repeater,
        tree.children(id).len() > 0,
        repeat_count(id, context) < tree.nodes[id as int].repeat_times,
    ensures
        ({
            let child = tree.eval_node(tree.children(id)[0], context);
            let count = repeat_count(id, context);
            let asked = tree.nodes[id as int].repeat_times;
            let end = tree.eval_node(id, context);
            &&& child.0 == NodeStatus::Running ==> end.0 == NodeStatus::Running && repeat_count(
                id,
                end.1,
            ) == repeat_count(id, child.1)
            &&& child.0 == NodeStatus::Failure ==> end.0 == NodeStatus::Failure && repeat_count(
                id,
                end.1,
            ) == 0
            &&& child.0 == NodeStatus::Success && count + 1 >= asked ==> end.0
                == NodeStatus::Success && repeat_count(id, end.1) == 0
            &&& child.0 == NodeStatus::Success && count + 1 < asked ==> end.0
                == NodeStatus::Running
            &&& child.0 == NodeStatus::Success && count + 1 < asked && (count + 1) * SCALE
                <= i64::MAX ==> repeat_count(id, end.1) == count + 1
        }),
{
    tree.lemma_child_fit(id, 0);
    key_families_are_disjoint(id as nat, id as nat, 0);
    let count = repeat_count(id, context);
    if (count + 1) * SCALE <= i64::MAX {
        lemma_count_round_trip(count + 1, usize::MAX as int);
    }
}

/// How many of the first `upto` children have one status and how many
/// another comes to no more than `upto`.
pub proof fn lemma_tallies_are_bounded(
    tree: TreeView,
    id: usize,
    upto: nat,
    context: ContextView,
    one: NodeStatus,
    other: NodeStatus,
)
    requires
        tree.fit(id),
        tree.has_node(id),
        upto <= tree.children(id).len(),
        one != other,
    ensures
        tree.tally(id, upto, context, one) + tree.tally(id, upto, context, other) <= upto,
    decreases upto,
{
    if upto > 0 {
        lemma_tallies_are_bounded(tree, id, (upto - 1) as nat, context, one, other);
    }
}

/// A parallel node evaluates every one of its children, one after the
/// other and whatever their statuses, and weighs how many succeeded and how
/// many failed against the number of successes it asks for.
pub proof fn parallel_weighs_every_child(tree: TreeView, id: usize, context: ContextView)
    requires
        tree.fit(id),
        tree.has_node(id),
        tree.nodes[id as int].kind == NodeType::Parallel,
    ensures
        ({
            let all = tree.children(id).len();
            let successes = tree.tally(id, all, context, NodeStatus::Success);
            let failures = tree.tally(id, all, context, NodeStatus::Failure);
            let status = parallel_verdict(
                successes,
                failures,
                all,
                tree.nodes[id as int].success_threshold as nat,
            );
            &&& successes + failures <= all
            &&& tree.eval_node(id, context) == (
                status,
                tree.after_children(id, all, context).with_value(
                    node_key(id as nat),
                    status_quantity(status),
                ),
            )
        }),
{
    lemma_tallies_are_bounded(
        tree,
        id,
        tree.children(id).len(),
        context,
        NodeStatus::Success,
        NodeStatus::Failure,
    );
}

/// What is written under a key is what a read of that key gives, and a
/// write changes what no other key gives.
pub proof fn written_value_is_read_back(
    context: ContextView,
    key: Seq<char>,
    value: i64,
    other: Seq<char>,
)
    ensures
        context.with_value(key, value).value(key) == value,
        other != key ==> context.with_value(key, value).value(other) == context.value(other),
{
}

/// A key under which nothing was written reads as zero; on a fresh
/// blackboard that is every key.
pub proof fn unset_key_reads_zero(context: ContextView, key: Seq<char>)
    ensures
        !context.values.contains_key(key) ==> context.value(key) == 0,
        ContextView::initial().value(key) == 0,
{
}

/// Where full health is not positive, the health fraction is zero.
pub proof fn health_fraction_without_full_health(context: ContextView)
    requires
        context.entity_max_health <= 0,
    ensures
        context.health_fraction() == 0,
{
}

} // verus!
