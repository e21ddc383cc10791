use behavior_tree::{BehaviorContext, BehaviorTree, NodeStatus};

const FAILURE: i32 = 0;
const SUCCESS: i32 = 1;
const RUNNING: i32 = 2;

/// One tick of a tree that is fit for evaluation.
fn tick(tree: &BehaviorTree, context: &mut BehaviorContext) -> i32 {
    tree.try_evaluate(context).unwrap()
}

/// A leaf that succeeds and leaves `mark` as the action parameter.
fn succeeding(tree: &mut BehaviorTree, mark: i64) -> usize {
    tree.create_action_node(3, mark)
}

/// A leaf that fails and writes nothing but its record.
fn failing(tree: &mut BehaviorTree) -> usize {
    tree.create_condition_node(99, 0)
}

/// A subtree that runs on a fresh blackboard: a repeater that waits for two
/// successes of a leaf that succeeds.
fn running(tree: &mut BehaviorTree) -> usize {
    let repeater = tree.create_repeater_node(2);
    let leaf = tree.create_action_node(3, 0);
    tree.add_child(repeater, leaf);
    repeater
}

#[test]
fn status_codes() {
    assert_eq!(NodeStatus::Failure.code(), 0);
    assert_eq!(NodeStatus::Success.code(), 1);
    assert_eq!(NodeStatus::Running.code(), 2);
}

#[test]
fn missing_root_fails() {
    let mut tree = BehaviorTree::new();
    tree.create_action_node(3, 0);
    tree.set_root(1);
    let mut context = BehaviorContext::new();
    assert_eq!(tick(&tree, &mut context), FAILURE);
    assert_eq!(context.get_value("node_1"), 0);
    assert_eq!(context.get_value("action_parameter"), 0);
    assert_eq!(tree.evaluate_node(usize::MAX, &mut context), NodeStatus::Failure);
}

#[test]
fn missing_child_fails_under_every_kind() {
    let mut context = BehaviorContext::new();

    let mut tree = BehaviorTree::new();
    let node = tree.create_sequence_node();
    tree.add_child(node, 50);
    assert_eq!(tick(&tree, &mut context), FAILURE);

    let mut tree = BehaviorTree::new();
    let node = tree.create_selector_node();
    tree.add_child(node, 50);
    assert_eq!(tick(&tree, &mut context), FAILURE);

    let mut tree = BehaviorTree::new();
    let node = tree.create_inverter_node();
    tree.add_child(node, 50);
    assert_eq!(tick(&tree, &mut context), SUCCESS);

    let mut tree = BehaviorTree::new();
    let node = tree.create_succeeder_node();
    tree.add_child(node, 50);
    assert_eq!(tick(&tree, &mut context), SUCCESS);

    let mut tree = BehaviorTree::new();
    let node = tree.create_repeater_node(2);
    tree.add_child(node, 50);
    assert_eq!(tick(&tree, &mut context), FAILURE);

    let mut tree = BehaviorTree::new();
    let node = tree.create_parallel_node(1);
    tree.add_child(node, 50);
    assert_eq!(tick(&tree, &mut context), FAILURE);

    // leaves do not look at their children
    let mut tree = BehaviorTree::new();
    let node = tree.create_action_node(3, 0);
    tree.add_child(node, 50);
    assert_eq!(tick(&tree, &mut context), SUCCESS);

    let mut tree = BehaviorTree::new();
    let node = tree.create_condition_node(99, 0);
    tree.add_child(node, 50);
    assert_eq!(tick(&tree, &mut context), FAILURE);

    assert_eq!(context.get_value("node_50"), 0);
}

#[test]
fn every_node_records_its_status() {
    let mut tree = BehaviorTree::new();
    let root = tree.create_selector_node();
    let first = failing(&mut tree);
    let second = running(&mut tree);
    let third = succeeding(&mut tree, 0);
    tree.add_child(root, first);
    tree.add_child(root, second);
    tree.add_child(root, third);
    let mut context = BehaviorContext::new();
    context.set_value("node_4", 7000);
    assert_eq!(tick(&tree, &mut context), RUNNING);
    assert_eq!(context.get_value("node_0"), 2000);
    assert_eq!(context.get_value("node_1"), 0);
    assert_eq!(context.get_value("node_2"), 2000);
    assert_eq!(context.get_value("node_3"), 1000);
    // the last child was not reached
    assert_eq!(context.get_value("node_4"), 7000);
}

#[test]
fn empty_sequence_succeeds() {
    let mut tree = BehaviorTree::new();
    tree.create_sequence_node();
    let mut context = BehaviorContext::new();
    assert_eq!(tick(&tree, &mut context), SUCCESS);
    assert_eq!(context.get_value("node_0"), 1000);
}

#[test]
fn sequence_of_successes_succeeds() {
    let mut tree = BehaviorTree::new();
    let root = tree.create_sequence_node();
    for mark in [10, 20, 30] {
        let leaf = succeeding(&mut tree, mark);
        tree.add_child(root, leaf);
    }
    let mut context = BehaviorContext::new();
    assert_eq!(tick(&tree, &mut context), SUCCESS);
    assert_eq!(context.get_value("action_parameter"), 30);
    assert_eq!(context.get_value("node_3"), 1000);
}

#[test]
fn sequence_fails_at_first_failure_and_goes_no_further() {
    let mut tree = BehaviorTree::new();
    let root = tree.create_sequence_node();
    let first = succeeding(&mut tree, 10);
    let second = failing(&mut tree);
    let third = succeeding(&mut tree, 30);
    tree.add_child(root, first);
    tree.add_child(root, second);
    tree.add_child(root, third);
    let mut context = BehaviorContext::new();
    context.set_value("node_3", 5000);
    assert_eq!(tick(&tree, &mut context), FAILURE);
    assert_eq!(context.get_value("action_parameter"), 10);
    assert_eq!(context.get_value("node_1"), 1000);
    assert_eq!(context.get_value("node_2"), 0);
    assert_eq!(context.get_value("node_3"), 5000);
}

#[test]
fn sequence_fails_whatever_comes_after_the_failure() {
    for later in 0..3 {
        let mut tree = BehaviorTree::new();
        let root = tree.create_sequence_node();
        let first = failing(&mut tree);
        tree.add_child(root, first);
        let after = match later {
            0 => succeeding(&mut tree, 30),
            1 => failing(&mut tree),
            _ => running(&mut tree),
        };
        tree.add_child(root, after);
        let mut context = BehaviorContext::new();
        assert_eq!(tick(&tree, &mut context), FAILURE);
        assert_eq!(context.get_value("action"), 0);
        assert_eq!(context.get_value("action_parameter"), 0);
        assert_eq!(context.get_value("repeater_2_count"), 0);
    }
}

#[test]
fn sequence_runs_where_a_child_runs_before_any_fails() {
    let mut tree = BehaviorTree::new();
    let root = tree.create_sequence_node();
    let first = running(&mut tree);
    let second = failing(&mut tree);
    tree.add_child(root, first);
    tree.add_child(root, second);
    let mut context = BehaviorContext::new();
    context.set_value("node_3", 5000);
    assert_eq!(tick(&tree, &mut context), RUNNING);
    assert_eq!(context.get_value("node_3"), 5000);
}

#[test]
fn empty_selector_fails() {
    let mut tree = BehaviorTree::new();
    tree.create_selector_node();
    let mut context = BehaviorContext::new();
    assert_eq!(tick(&tree, &mut context), FAILURE);
    context.set_value("node_0", 1000);
    assert_eq!(tick(&tree, &mut context), FAILURE);
    assert_eq!(context.get_value("node_0"), 0);
}

#[test]
fn selector_of_failures_fails() {
    let mut tree = BehaviorTree::new();
    let root = tree.create_selector_node();
    for _ in 0..3 {
        let leaf = failing(&mut tree);
        tree.add_child(root, leaf);
    }
    let mut context = BehaviorContext::new();
    context.set_value("node_3", 5000);
    assert_eq!(tick(&tree, &mut context), FAILURE);
    assert_eq!(context.get_value("node_3"), 0);
}

#[test]
fn selector_succeeds_at_first_success_and_goes_no_further() {
    let mut tree = BehaviorTree::new();
    let root = tree.create_selector_node();
    let first = failing(&mut tree);
    let second = succeeding(&mut tree, 20);
    let third = succeeding(&mut tree, 30);
    tree.add_child(root, first);
    tree.add_child(root, second);
    tree.add_child(root, third);
    let mut context = BehaviorContext::new();
    context.set_value("node_3", 5000);
    assert_eq!(tick(&tree, &mut context), SUCCESS);
    assert_eq!(context.get_value("action_parameter"), 20);
    assert_eq!(context.get_value("node_3"), 5000);
}

#[test]
fn selector_runs_where_a_child_runs_before_any_succeeds() {
    let mut tree = BehaviorTree::new();
    let root = tree.create_selector_node();
    let first = running(&mut tree);
    let second = succeeding(&mut tree, 20);
    tree.add_child(root, first);
    tree.add_child(root, second);
    let mut context = BehaviorContext::new();
    assert_eq!(tick(&tree, &mut context), RUNNING);
    assert_eq!(context.get_value("action_parameter"), 0);
}

#[test]
fn inverter_swaps_success_and_failure() {
    let mut context = BehaviorContext::new();

    let mut tree = BehaviorTree::new();
    let root = tree.create_inverter_node();
    let child = succeeding(&mut tree, 0);
    tree.add_child(root, child);
    assert_eq!(tick(&tree, &mut context), FAILURE);
    assert_eq!(context.get_value("node_1"), 1000);
    assert_eq!(context.get_value("node_0"), 0);

    let mut tree = BehaviorTree::new();
    let root = tree.create_inverter_node();
    let child = failing(&mut tree);
    tree.add_child(root, child);
    assert_eq!(tick(&tree, &mut context), SUCCESS);
    assert_eq!(context.get_value("node_1"), 0);
    assert_eq!(context.get_value("node_0"), 1000);
}

#[test]
fn inverter_passes_running_through() {
    let mut tree = BehaviorTree::new();
    let root = tree.create_inverter_node();
    let child = running(&mut tree);
    tree.add_child(root, child);
    let mut context = BehaviorContext::new();
    assert_eq!(tick(&tree, &mut context), RUNNING);
}

#[test]
fn inverter_without_child_fails() {
    let mut tree = BehaviorTree::new();
    tree.create_inverter_node();
    let mut context = BehaviorContext::new();
    assert_eq!(tick(&tree, &mut context), FAILURE);
}

#[test]
fn inverter_looks_at_its_first_child_only() {
    let mut tree = BehaviorTree::new();
    let root = tree.create_inverter_node();
    let first = failing(&mut tree);
    let second = succeeding(&mut tree, 20);
    tree.add_child(root, first);
    tree.add_child(root, second);
    let mut context = BehaviorContext::new();
    assert_eq!(tick(&tree, &mut context), SUCCESS);
    assert_eq!(context.get_value("action_parameter"), 0);
}

#[test]
fn succeeder_turns_failure_into_success() {
    let mut context = BehaviorContext::new();

    let mut tree = BehaviorTree::new();
    let root = tree.create_succeeder_node();
    let child = failing(&mut tree);
    tree.add_child(root, child);
    assert_eq!(tick(&tree, &mut context), SUCCESS);

    let mut tree = BehaviorTree::new();
    let root = tree.create_succeeder_node();
    let child = succeeding(&mut tree, 0);
    tree.add_child(root, child);
    assert_eq!(tick(&tree, &mut context), SUCCESS);
}

#[test]
fn succeeder_passes_running_through() {
    let mut tree = BehaviorTree::new();
    let root = tree.create_succeeder_node();
    let child = running(&mut tree);
    tree.add_child(root, child);
    let mut context = BehaviorContext::new();
    assert_eq!(tick(&tree, &mut context), RUNNING);
}

#[test]
fn succeeder_without_child_succeeds() {
    let mut tree = BehaviorTree::new();
    tree.create_succeeder_node();
    let mut context = BehaviorContext::new();
    assert_eq!(tick(&tree, &mut context), SUCCESS);
}

#[test]
fn repeater_of_three_succeeds_on_the_third_success() {
    let mut tree = BehaviorTree::new();
    let root = tree.create_repeater_node(3);
    let child = succeeding(&mut tree, 0);
    tree.add_child(root, child);
    let mut context = BehaviorContext::new();
    assert_eq!(tick(&tree, &mut context), RUNNING);
    assert_eq!(context.get_value("repeater_0_count"), 1000);
    assert_eq!(tick(&tree, &mut context), RUNNING);
    assert_eq!(context.get_value("repeater_0_count"), 2000);
    assert_eq!(tick(&tree, &mut context), SUCCESS);
    assert_eq!(context.get_value("repeater_0_count"), 0);
    // and from the start again
    assert_eq!(tick(&tree, &mut context), RUNNING);
    assert_eq!(context.get_value("repeater_0_count"), 1000);
    assert_eq!(tick(&tree, &mut context), RUNNING);
    assert_eq!(tick(&tree, &mut context), SUCCESS);
    assert_eq!(context.get_value("repeater_0_count"), 0);
}

#[test]
fn repeater_starts_over_when_its_child_fails() {
    // the child succeeds while the flag is raised
    let mut tree = BehaviorTree::new();
    let root = tree.create_repeater_node(3);
    let child = tree.create_condition_node(3, 0);
    tree.add_child(root, child);
    let mut context = BehaviorContext::new();
    context.set_value("target_visible", 1000);
    assert_eq!(tick(&tree, &mut context), RUNNING);
    assert_eq!(tick(&tree, &mut context), RUNNING);
    assert_eq!(context.get_value("repeater_0_count"), 2000);
    context.set_value("target_visible", 0);
    assert_eq!(tick(&tree, &mut context), FAILURE);
    assert_eq!(context.get_value("repeater_0_count"), 0);
    context.set_value("target_visible", 1000);
    assert_eq!(tick(&tree, &mut context), RUNNING);
    assert_eq!(context.get_value("repeater_0_count"), 1000);
    assert_eq!(tick(&tree, &mut context), RUNNING);
    assert_eq!(tick(&tree, &mut context), SUCCESS);
}

#[test]
fn repeater_fails_at_once_when_its_child_fails_first() {
    let mut tree = BehaviorTree::new();
    let root = tree.create_repeater_node(3);
    let child = failing(&mut tree);
    tree.add_child(root, child);
    let mut context = BehaviorContext::new();
    assert_eq!(tick(&tree, &mut context), FAILURE);
    assert_eq!(context.get_value("repeater_0_count"), 0);
}

#[test]
fn repeater_passes_running_through_and_keeps_its_count() {
    let mut tree = BehaviorTree::new();
    let root = tree.create_repeater_node(5);
    let child = running(&mut tree);
    tree.add_child(root, child);
    let mut context = BehaviorContext::new();
    context.set_value("repeater_0_count", 3000);
    assert_eq!(tick(&tree, &mut context), RUNNING);
    assert_eq!(context.get_value("repeater_0_count"), 3000);
    assert_eq!(context.get_value("repeater_1_count"), 1000);
    // the inner repeater completes, which is one success for the outer
    assert_eq!(tick(&tree, &mut context), RUNNING);
    assert_eq!(context.get_value("repeater_0_count"), 4000);
    assert_eq!(context.get_value("repeater_1_count"), 0);
}

#[test]
fn repeater_that_finds_its_count_reached_succeeds_without_its_child() {
    let mut tree = BehaviorTree::new();
    let root = tree.create_repeater_node(3);
    let child = succeeding(&mut tree, 40);
    tree.add_child(root, child);
    let mut context = BehaviorContext::new();
    context.set_value("repeater_0_count", 3000);
    assert_eq!(tick(&tree, &mut context), SUCCESS);
    assert_eq!(context.get_value("repeater_0_count"), 0);
    assert_eq!(context.get_value("action_parameter"), 0);
    assert_eq!(context.get_value("node_1"), 0);
}

#[test]
fn repeater_of_zero_succeeds_at_once() {
    let mut tree = BehaviorTree::new();
    let root = tree.create_repeater_node(0);
    let child = failing(&mut tree);
    tree.add_child(root, child);
    let mut context = BehaviorContext::new();
    assert_eq!(tick(&tree, &mut context), SUCCESS);
}

#[test]
fn repeater_of_one_succeeds_with_its_child() {
    let mut tree = BehaviorTree::new();
    let root = tree.create_repeater_node(1);
    let child = succeeding(&mut tree, 0);
    tree.add_child(root, child);
    let mut context = BehaviorContext::new();
    assert_eq!(tick(&tree, &mut context), SUCCESS);
    assert_eq!(context.get_value("repeater_0_count"), 0);
    assert_eq!(tick(&tree, &mut context), SUCCESS);
}

#[test]
fn repeater_without_child_fails() {
    let mut tree = BehaviorTree::new();
    tree.create_repeater_node(0);
    let mut context = BehaviorContext::new();
    assert_eq!(tick(&tree, &mut context), FAILURE);
}

#[test]
fn repeater_reads_a_broken_count_as_its_whole_part() {
    let mut tree = BehaviorTree::new();
    let root = tree.create_repeater_node(3);
    let child = succeeding(&mut tree, 0);
    tree.add_child(root, child);
    let mut context = BehaviorContext::new();
    context.set_value("repeater_0_count", 1999);
    assert_eq!(tick(&tree, &mut context), RUNNING);
    assert_eq!(context.get_value("repeater_0_count"), 2000);
    context.set_value("repeater_0_count", -4000);
    assert_eq!(tick(&tree, &mut context), RUNNING);
    assert_eq!(context.get_value("repeater_0_count"), 1000);
}

#[test]
fn repeaters_count_apart() {
    let mut tree = BehaviorTree::new();
    let root = tree.create_parallel_node(2);
    let left = tree.create_repeater_node(2);
    let right = tree.create_repeater_node(3);
    let leaf = succeeding(&mut tree, 0);
    tree.add_child(left, leaf);
    tree.add_child(right, leaf);
    tree.add_child(root, left);
    tree.add_child(root, right);
    let mut context = BehaviorContext::new();
    assert_eq!(tick(&tree, &mut context), RUNNING);
    assert_eq!(context.get_value("repeater_1_count"), 1000);
    assert_eq!(context.get_value("repeater_2_count"), 1000);
    assert_eq!(tick(&tree, &mut context), RUNNING);
    assert_eq!(context.get_value("repeater_1_count"), 0);
    assert_eq!(context.get_value("repeater_2_count"), 2000);
    assert_eq!(context.get_value("node_1"), 1000);
    assert_eq!(context.get_value("node_2"), 2000);
    assert_eq!(tick(&tree, &mut context), RUNNING);
    assert_eq!(context.get_value("repeater_1_count"), 1000);
    assert_eq!(context.get_value("repeater_2_count"), 0);
    assert_eq!(context.get_value("node_1"), 2000);
    assert_eq!(context.get_value("node_2"), 1000);
}

/// A parallel node that asks for two successes of three children, of which
/// so many succeed and so many fail on a fresh blackboard; the rest run.
fn parallel_of_three(successes: usize, failures: usize) -> BehaviorTree {
    let mut tree = BehaviorTree::new();
    let root = tree.create_parallel_node(2);
    for i in 0..3 {
        let child = if i < failures {
            failing(&mut tree)
        } else if i < failures + successes {
            succeeding(&mut tree, 0)
        } else {
            running(&mut tree)
        };
        tree.add_child(root, child);
    }
    tree
}

#[test]
fn parallel_succeeds_with_two_successes_of_three() {
    let tree = parallel_of_three(2, 1);
    let mut context = BehaviorContext::new();
    assert_eq!(tick(&tree, &mut context), SUCCESS);
}

#[test]
fn parallel_fails_when_two_of_three_have_failed() {
    let tree = parallel_of_three(0, 2);
    let mut context = BehaviorContext::new();
    assert_eq!(tick(&tree, &mut context), FAILURE);
}

#[test]
fn parallel_runs_while_the_threshold_can_be_met() {
    let tree = parallel_of_three(1, 0);
    let mut context = BehaviorContext::new();
    assert_eq!(tick(&tree, &mut context), RUNNING);
    let tree = parallel_of_three(1, 1);
    let mut context = BehaviorContext::new();
    assert_eq!(tick(&tree, &mut context), RUNNING);
    let tree = parallel_of_three(0, 0);
    let mut context = BehaviorContext::new();
    assert_eq!(tick(&tree, &mut context), RUNNING);
    let tree = parallel_of_three(0, 1);
    let mut context = BehaviorContext::new();
    assert_eq!(tick(&tree, &mut context), RUNNING);
}

#[test]
fn parallel_more_outcomes_of_three() {
    let tree = parallel_of_three(3, 0);
    let mut context = BehaviorContext::new();
    assert_eq!(tick(&tree, &mut context), SUCCESS);
    let tree = parallel_of_three(0, 3);
    let mut context = BehaviorContext::new();
    assert_eq!(tick(&tree, &mut context), FAILURE);
    let tree = parallel_of_three(1, 2);
    let mut context = BehaviorContext::new();
    assert_eq!(tick(&tree, &mut context), FAILURE);
}

#[test]
fn parallel_evaluates_every_child() {
    let mut tree = BehaviorTree::new();
    let root = tree.create_parallel_node(1);
    let first = succeeding(&mut tree, 10);
    let second = failing(&mut tree);
    let third = succeeding(&mut tree, 30);
    tree.add_child(root, first);
    tree.add_child(root, second);
    tree.add_child(root, third);
    let mut context = BehaviorContext::new();
    context.set_value("node_2", 5000);
    context.set_value("node_3", 5000);
    assert_eq!(tick(&tree, &mut context), SUCCESS);
    assert_eq!(context.get_value("node_2"), 0);
    assert_eq!(context.get_value("node_3"), 1000);
    assert_eq!(context.get_value("action_parameter"), 30);
}

#[test]
fn parallel_without_children() {
    let mut tree = BehaviorTree::new();
    tree.create_parallel_node(0);
    let mut context = BehaviorContext::new();
    assert_eq!(tick(&tree, &mut context), SUCCESS);
}

#[test]
fn parallel_that_asks_for_all() {
    let mut tree = BehaviorTree::new();
    let root = tree.create_parallel_node(2);
    let first = succeeding(&mut tree, 0);
    let second = failing(&mut tree);
    tree.add_child(root, first);
    tree.add_child(root, second);
    let mut context = BehaviorContext::new();
    assert_eq!(tick(&tree, &mut context), FAILURE);
}

#[test]
fn parallel_that_asks_for_none_succeeds_though_all_fail() {
    let mut tree = BehaviorTree::new();
    let root = tree.create_parallel_node(0);
    let first = failing(&mut tree);
    tree.add_child(root, first);
    let mut context = BehaviorContext::new();
    assert_eq!(tick(&tree, &mut context), SUCCESS);
    assert_eq!(context.get_value("node_1"), 0);
}

#[test]
fn tree_is_not_changed_by_evaluation() {
    let mut tree = BehaviorTree::new();
    let root = tree.create_repeater_node(2);
    let child = succeeding(&mut tree, 0);
    tree.add_child(root, child);
    let mut one = BehaviorContext::new();
    let mut other = BehaviorContext::new();
    assert_eq!(tick(&tree, &mut one), RUNNING);
    assert_eq!(tick(&tree, &mut other), RUNNING);
    assert_eq!(tick(&tree, &mut one), SUCCESS);
    assert_eq!(tick(&tree, &mut one), RUNNING);
    assert_eq!(tick(&tree, &mut other), SUCCESS);
    assert_eq!(tree.node_count(), 2);
    assert_eq!(tree.root(), 0);
}

#[test]
fn evaluation_leaves_the_host_its_own() {
    let mut tree = BehaviorTree::new();
    let root = tree.create_parallel_node(1);
    let repeater = running(&mut tree);
    let attack = tree.create_action_node(1, 9000);
    let cooldown = tree.create_action_node(5, 4000);
    let visible = tree.create_condition_node(3, 0);
    tree.add_child(root, repeater);
    tree.add_child(root, attack);
    tree.add_child(root, cooldown);
    tree.add_child(root, visible);
    let mut context = BehaviorContext::new();
    context.set_target_position(3000, 4000, 0);
    context.set_entity_health(40_000, 80_000);
    context.set_entity_type(9);
    context.set_value("target_visible", 1000);
    context.set_value("alarm", 123);
    context.set_value("node", 5);
    context.set_value("cooldown_", 6);
    assert_eq!(tick(&tree, &mut context), SUCCESS);
    assert_eq!(context.get_distance_to_target(), 5000);
    assert_eq!(context.get_health_percentage(), 500);
    assert_eq!(context.entity_type(), 9);
    assert_eq!(context.get_value("target_visible"), 1000);
    assert_eq!(context.get_value("alarm"), 123);
    assert_eq!(context.get_value("node"), 5);
    assert_eq!(context.get_value("cooldown_"), 6);
    assert_eq!(context.get_value("missing"), 0);
    // and what the evaluator wrote
    assert_eq!(context.get_value("node_3"), 1000);
    assert_eq!(context.get_value("action"), 5000);
    assert_eq!(context.get_value("action_parameter"), 4000);
    assert_eq!(context.get_value("cooldown_4"), 4000);
    assert_eq!(context.get_value("repeater_1_count"), 1000);
    assert_eq!(context.get_value("node_0"), 1000);
    assert_eq!(context.get_value("node_5"), 1000);
}

#[test]
fn host_can_overwrite_what_the_evaluator_keeps() {
    let mut tree = BehaviorTree::new();
    let root = tree.create_repeater_node(3);
    let child = succeeding(&mut tree, 0);
    tree.add_child(root, child);
    let mut context = BehaviorContext::new();
    assert_eq!(tick(&tree, &mut context), RUNNING);
    context.set_value("repeater_0_count", 2000);
    assert_eq!(tick(&tree, &mut context), SUCCESS);
}
