//! The archetypes: one fixed tree for each kind of enemy.

use vstd::prelude::*;
use crate::node::{NodeType, NodeView};
use crate::semantics::{
    ACTION_ATTACK,
    ACTION_FLEE,
    ACTION_MOVE,
    ACTION_SET_COOLDOWN,
    ACTION_SPECIAL,
    CONDITION_COOLDOWN_EXPIRED,
    CONDITION_HEALTH_BELOW,
    CONDITION_IN_RANGE,
};
use crate::tree::{BehaviorTree, TreeView};

verus! {

/// The kinds of enemy.
#[derive(Clone, Copy, Debug, PartialEq, Eq, Structural)]
pub enum EnemyType {
    Grunt,
    Sniper,
    Tank,
    Scout,
    Boss,
}

/// A selector over `children`.
pub open spec fn selector(children: Seq<usize>) -> NodeView {
    NodeView::composite(NodeType::Selector, children)
}

/// A sequence over `children`.
pub open spec fn sequence(children: Seq<usize>) -> NodeView {
    NodeView::composite(NodeType::Sequence, children)
}

/// The condition that health is at most `fraction` of full health.
pub open spec fn health_below(fraction: i64) -> NodeView {
    NodeView::condition(CONDITION_HEALTH_BELOW, fraction)
}

/// The condition that the target is within `range`.
pub open spec fn in_range(range: i64) -> NodeView {
    NodeView::condition(CONDITION_IN_RANGE, range)
}

/// The condition that the cooldown timer selected by `parameter` has run
/// down.
pub open spec fn cooldown_expired(parameter: i64) -> NodeView {
    NodeView::condition(CONDITION_COOLDOWN_EXPIRED, parameter)
}

/// The grunt: flees when weak, attacks what is near, else gives chase.
pub open spec fn grunt_tree() -> TreeView {
    TreeView {
        root: 0,
        nodes: seq![
            selector(seq![1, 4, 7]),
            sequence(seq![2, 3]),
            health_below(300),
            NodeView::action(ACTION_FLEE, 10_000),
            sequence(seq![5, 6]),
            in_range(2_000),
            NodeView::action(ACTION_ATTACK, 10_000),
            NodeView::action(ACTION_MOVE, 5_000),
        ],
    }
}

/// The sniper: flees when weak, backs away from what is near, shoots from
/// afar when its timer allows, else looks for a position.
pub open spec fn sniper_tree() -> TreeView {
    TreeView {
        root: 0,
        nodes: seq![
            selector(seq![1, 4, 7, 12]),
            sequence(seq![2, 3]),
            health_below(400),
            NodeView::action(ACTION_FLEE, 8_000),
            sequence(seq![5, 6]),
            in_range(10_000),
            NodeView::action(ACTION_FLEE, 6_000),
            sequence(seq![8, 9, 10, 11]),
            in_range(30_000),
            cooldown_expired(1_000),
            NodeView::action(ACTION_ATTACK, 25_000),
            NodeView::action(ACTION_SET_COOLDOWN, 3_000),
            NodeView::action(ACTION_MOVE, 3_000),
        ],
    }
}

/// The tank: charges when its timer allows and the target is in reach,
/// attacks what is near, else gives chase.
pub open spec fn tank_tree() -> TreeView {
    TreeView {
        root: 0,
        nodes: seq![
            selector(seq![1, 6, 9]),
            sequence(seq![2, 3, 4, 5]),
            cooldown_expired(2_000),
            in_range(15_000),
            NodeView::action(ACTION_SPECIAL, 1_000),
            NodeView::action(ACTION_SET_COOLDOWN, 10_000),
            sequence(seq![7, 8]),
            in_range(3_000),
            NodeView::action(ACTION_ATTACK, 20_000),
            NodeView::action(ACTION_MOVE, 3_000),
        ],
    }
}

/// The scout: hits and runs when its timer allows, circles what is near,
/// else approaches.
pub open spec fn scout_tree() -> TreeView {
    TreeView {
        root: 0,
        nodes: seq![
            selector(seq![1, 7, 10]),
            sequence(seq![2, 3, 4, 5, 6]),
            in_range(5_000),
            cooldown_expired(3_000),
            NodeView::action(ACTION_ATTACK, 8_000),
            NodeView::action(ACTION_SET_COOLDOWN, 2_000),
            NodeView::action(ACTION_FLEE, 12_000),
            sequence(seq![8, 9]),
            in_range(10_000),
            NodeView::action(ACTION_SPECIAL, 2_000),
            NodeView::action(ACTION_MOVE, 8_000),
        ],
    }
}

/// The boss: below half health it picks among two special attacks, an
/// attack and the chase; above, among one special attack, an attack and the
/// chase.
pub open spec fn boss_tree() -> TreeView {
    TreeView {
        root: 0,
        nodes: seq![
            selector(seq![1, 16]),
            sequence(seq![2, 3]),
            health_below(500),
            selector(seq![4, 8, 12, 15]),
            sequence(seq![5, 6, 7]),
            cooldown_expired(4_000),
            NodeView::action(ACTION_SPECIAL, 3_000),
            NodeView::action(ACTION_SET_COOLDOWN, 8_000),
            sequence(seq![9, 10, 11]),
            cooldown_expired(5_000),
            NodeView::action(ACTION_SPECIAL, 4_000),
            NodeView::action(ACTION_SET_COOLDOWN, 12_000),
            sequence(seq![13, 14]),
            in_range(4_000),
            NodeView::action(ACTION_ATTACK, 30_000),
            NodeView::action(ACTION_MOVE, 6_000),
            selector(seq![17, 21, 24]),
            sequence(seq![18, 19, 20]),
            cooldown_expired(6_000),
            NodeView::action(ACTION_SPECIAL, 5_000),
            NodeView::action(ACTION_SET_COOLDOWN, 15_000),
            sequence(seq![22, 23]),
            in_range(5_000),
            NodeView::action(ACTION_ATTACK, 20_000),
            NodeView::action(ACTION_MOVE, 4_000),
        ],
    }
}

/// The tree of each kind of enemy.
pub open spec fn archetype(enemy_type: EnemyType) -> TreeView {
    match enemy_type {
        EnemyType::Grunt => grunt_tree(),
        EnemyType::Sniper => sniper_tree(),
        EnemyType::Tank => tank_tree(),
        EnemyType::Scout => scout_tree(),
        EnemyType::Boss => boss_tree(),
    }
}

/// Whether every child in `tree` has a higher identifier than its parent and
/// names a node.
pub open spec fn links_forward(tree: TreeView) -> bool {
    forall|p: int, i: int|
        #![trigger tree.nodes[p].children[i]]
        0 <= p < tree.nodes.len() && 0 <= i < tree.nodes[p].children.len() ==> p
            < tree.nodes[p].children[i] < tree.nodes.len()
}

/// Whether `tree` holds no parallel node.
pub open spec fn without_parallel(tree: TreeView) -> bool {
    forall|p: int| 0 <= p < tree.nodes.len() ==> (#[trigger] tree.nodes[p]).kind != NodeType::Parallel
}

/// A tree whose links point forward and that holds no parallel node is
/// without fault.
pub proof fn lemma_forward_tree_well_formed(tree: TreeView)
    requires
        links_forward(tree),
        without_parallel(tree),
    ensures
        tree.well_formed(),
{
    tree.lemma_forward_links_acyclic();
}

/// The arena of the grunt is without fault.
proof fn lemma_grunt_tree_well_formed()
    ensures
        grunt_tree().well_formed(),
{
    let tree = grunt_tree();
    assert(tree.nodes.len() == 8);
    assert(links_forward(tree)) by {
        assert forall|p: int, i: int|
            #![trigger tree.nodes[p].children[i]]
            0 <= p < tree.nodes.len() && 0 <= i < tree.nodes[p].children.len() implies p
            < tree.nodes[p].children[i] < tree.nodes.len() by {
            if p == 0 {
                assert(tree.nodes[0].children =~= seq![1usize, 4usize, 7usize]);
            } else if p == 1 {
                assert(tree.nodes[1].children =~= seq![2usize, 3usize]);
            } else if p == 4 {
                assert(tree.nodes[4].children =~= seq![5usize, 6usize]);
            } else {
                assert(tree.nodes[p].children.len() == 0);
            }
        }
    }
    assert(without_parallel(tree));
    lemma_forward_tree_well_formed(tree);
}

/// The arena of the sniper is without fault.
proof fn lemma_sniper_tree_well_formed()
    ensures
        sniper_tree().well_formed(),
{
    let tree = sniper_tree();
    assert(tree.nodes.len() == 13);
    assert(links_forward(tree)) by {
        assert forall|p: int, i: int|
            #![trigger tree.nodes[p].children[i]]
            0 <= p < tree.nodes.len() && 0 <= i < tree.nodes[p].children.len() implies p
            < tree.nodes[p].children[i] < tree.nodes.len() by {
            if p == 0 {
                assert(tree.nodes[0].children =~= seq![1usize, 4usize, 7usize, 12usize]);
            } else if p == 1 {
                assert(tree.nodes[1].children =~= seq![2usize, 3usize]);
            } else if p == 4 {
                assert(tree.nodes[4].children =~= seq![5usize, 6usize]);
            } else if p == 7 {
                assert(tree.nodes[7].children =~= seq![8usize, 9usize, 10usize, 11usize]);
            } else {
                assert(tree.nodes[p].children.len() == 0);
            }
        }
    }
    assert(without_parallel(tree));
    lemma_forward_tree_well_formed(tree);
}

/// The arena of the tank is without fault.
proof fn lemma_tank_tree_well_formed()
    ensures
        tank_tree().well_formed(),
{
    let tree = tank_tree();
    assert(tree.nodes.len() == 10);
    assert(links_forward(tree)) by {
        assert forall|p: int, i: int|
            #![trigger tree.nodes[p].children[i]]
            0 <= p < tree.nodes.len() && 0 <= i < tree.nodes[p].children.len() implies p
            < tree.nodes[p].children[i] < tree.nodes.len() by {
            if p == 0 {
                assert(tree.nodes[0].children =~= seq![1usize, 6usize, 9usize]);
            } else if p == 1 {
                assert(tree.nodes[1].children =~= seq![2usize, 3usize, 4usize, 5usize]);
            } else if p == 6 {
                assert(tree.nodes[6].children =~= seq![7usize, 8usize]);
            } else {
                assert(tree.nodes[p].children.len() == 0);
            }
        }
    }
    assert(without_parallel(tree));
    lemma_forward_tree_well_formed(tree);
}

/// The arena of the scout is without fault.
proof fn lemma_scout_tree_well_formed()
    ensures
        scout_tree().well_formed(),
{
    let tree = scout_tree();
    assert(tree.nodes.len() == 11);
    assert(links_forward(tree)) by {
        assert forall|p: int, i: int|
            #![trigger tree.nodes[p].children[i]]
            0 <= p < tree.nodes.len() && 0 <= i < tree.nodes[p].children.len() implies p
            < tree.nodes[p].children[i] < tree.nodes.len() by {
            if p == 0 {
                assert(tree.nodes[0].children =~= seq![1usize, 7usize, 10usize]);
            } else if p == 1 {
                assert(tree.nodes[1].children =~= seq![2usize, 3usize, 4usize, 5usize, 6usize]);
            } else if p == 7 {
                assert(tree.nodes[7].children =~= seq![8usize, 9usize]);
            } else {
                assert(tree.nodes[p].children.len() == 0);
            }
        }
    }
    assert(without_parallel(tree));
    lemma_forward_tree_well_formed(tree);
}

/// The arena of the boss is without fault.
proof fn lemma_boss_tree_well_formed()
    ensures
        boss_tree().well_formed(),
{
    let tree = boss_tree();
    assert(tree.nodes.len() == 25);
    assert(links_forward(tree)) by {
        assert forall|p: int, i: int|
            #![trigger tree.nodes[p].children[i]]
            0 <= p < tree.nodes.len() && 0 <= i < tree.nodes[p].children.len() implies p
            < tree.nodes[p].children[i] < tree.nodes.len() by {
            if p == 0 {
                assert(tree.nodes[0].children =~= seq![1usize, 16usize]);
            } else if p == 1 {
                assert(tree.nodes[1].children =~= seq![2usize, 3usize]);
            } else if p == 3 {
                assert(tree.nodes[3].children =~= seq![4usize, 8usize, 12usize, 15usize]);
            } else if p == 4 {
                assert(tree.nodes[4].children =~= seq![5usize, 6usize, 7usize]);
            } else if p == 8 {
                assert(tree.nodes[8].children =~= seq![9usize, 10usize, 11usize]);
            } else if p == 12 {
                assert(tree.nodes[12].children =~= seq![13usize, 14usize]);
            } else if p == 16 {
                assert(tree.nodes[16].children =~= seq![17usize, 21usize, 24usize]);
            } else if p == 17 {
                assert(tree.nodes[17].children =~= seq![18usize, 19usize, 20usize]);
            } else if p == 21 {
                assert(tree.nodes[21].children =~= seq![22usize, 23usize]);
            } else {
                assert(tree.nodes[p].children.len() == 0);
            }
        }
    }
    assert(without_parallel(tree));
    lemma_forward_tree_well_formed(tree);
}

/// The arena of every archetype is without fault.
pub proof fn archetypes_are_well_formed(enemy_type: EnemyType)
    ensures
        archetype(enemy_type).well_formed(),
{
    match enemy_type {
        EnemyType::Grunt => lemma_grunt_tree_well_formed(),
        EnemyType::Sniper => lemma_sniper_tree_well_formed(),
        EnemyType::Tank => lemma_tank_tree_well_formed(),
        EnemyType::Scout => lemma_scout_tree_well_formed(),
        EnemyType::Boss => lemma_boss_tree_well_formed(),
    }
}

/// Builds the tree of each kind of enemy.
pub struct EnemyFactory {}

impl EnemyFactory {
    /// A factory. It holds nothing.
    pub fn new() -> (factory: EnemyFactory) {
        EnemyFactory {  }
    }

    /// Builds the tree of `enemy_type`, whose whole arena is without fault,
    /// so that it is fit for evaluation.
    pub fn create_behavior_tree(&self, enemy_type: EnemyType) -> (tree: BehaviorTree)
        ensures
            tree@ == archetype(enemy_type),
            tree@.well_formed(),
            tree@.fit(tree@.root),
    {
        proof {
            archetypes_are_well_formed(enemy_type);
            archetype(enemy_type).lemma_well_formed_is_fit(archetype(enemy_type).root);
        }
        match enemy_type {
            EnemyType::Grunt => self.create_grunt_behavior_tree(),
            EnemyType::Sniper => self.create_sniper_behavior_tree(),
            EnemyType::Tank => self.create_tank_behavior_tree(),
            EnemyType::Scout => self.create_scout_behavior_tree(),
            EnemyType::Boss => self.create_boss_behavior_tree(),
        }
    }

    /// Builds the tree of the grunt.
    fn create_grunt_behavior_tree(&self) -> (tree: BehaviorTree)
        ensures
            tree@ == grunt_tree(),
    {
        let mut tree = BehaviorTree::new();
        let root: usize = tree.create_selector_node();

        let low_health_sequence: usize = tree.create_sequence_node();
        let is_low_health: usize = tree.create_condition_node(CONDITION_HEALTH_BELOW, 300);
        let flee_action: usize = tree.create_action_node(ACTION_FLEE, 10_000);
        tree.add_child(low_health_sequence, is_low_health);
        tree.add_child(low_health_sequence, flee_action);

        let attack_sequence: usize = tree.create_sequence_node();
        let is_in_attack_range: usize = tree.create_condition_node(CONDITION_IN_RANGE, 2_000);
        let attack_action: usize = tree.create_action_node(ACTION_ATTACK, 10_000);
        tree.add_child(attack_sequence, is_in_attack_range);
        tree.add_child(attack_sequence, attack_action);

        let chase_action: usize = tree.create_action_node(ACTION_MOVE, 5_000);

        tree.add_child(root, low_health_sequence);
        tree.add_child(root, attack_sequence);
        tree.add_child(root, chase_action);
        tree.set_root(root);

        proof {
            assert(tree@.nodes[0].children =~= seq![1usize, 4usize, 7usize]);
            assert(tree@.nodes[1].children =~= seq![2usize, 3usize]);
            assert(tree@.nodes[4].children =~= seq![5usize, 6usize]);
            assert(tree@.nodes =~~= grunt_tree().nodes);
        }
        tree
    }

    /// Builds the tree of the sniper.
    fn create_sniper_behavior_tree(&self) -> (tree: BehaviorTree)
        ensures
            tree@ == sniper_tree(),
    {
        let mut tree = BehaviorTree::new();
        let root: usize = tree.create_selector_node();

        let low_health_sequence: usize = tree.create_sequence_node();
        let is_low_health: usize = tree.create_condition_node(CONDITION_HEALTH_BELOW, 400);
        let flee_action: usize = tree.create_action_node(ACTION_FLEE, 8_000);
        tree.add_child(low_health_sequence, is_low_health);
        tree.add_child(low_health_sequence, flee_action);

        let too_close_sequence: usize = tree.create_sequence_node();
        let is_too_close: usize = tree.create_condition_node(CONDITION_IN_RANGE, 10_000);
        let back_away_action: usize = tree.create_action_node(ACTION_FLEE, 6_000);
        tree.add_child(too_close_sequence, is_too_close);
        tree.add_child(too_close_sequence, back_away_action);

        let attack_sequence: usize = tree.create_sequence_node();
        let is_in_attack_range: usize = tree.create_condition_node(CONDITION_IN_RANGE, 30_000);
        let is_cooldown_ready: usize = tree.create_condition_node(CONDITION_COOLDOWN_EXPIRED, 1_000);
        let attack_action: usize = tree.create_action_node(ACTION_ATTACK, 25_000);
        let set_cooldown: usize = tree.create_action_node(ACTION_SET_COOLDOWN, 3_000);
        tree.add_child(attack_sequence, is_in_attack_range);
        tree.add_child(attack_sequence, is_cooldown_ready);
        tree.add_child(attack_sequence, attack_action);
        tree.add_child(attack_sequence, set_cooldown);

        let find_position_action: usize = tree.create_action_node(ACTION_MOVE, 3_000);

        tree.add_child(root, low_health_sequence);
        tree.add_child(root, too_close_sequence);
        tree.add_child(root, attack_sequence);
        tree.add_child(root, find_position_action);
        tree.set_root(root);

        proof {
            assert(tree@.nodes[0].children =~= seq![1usize, 4usize, 7usize, 12usize]);
            assert(tree@.nodes[1].children =~= seq![2usize, 3usize]);
            assert(tree@.nodes[4].children =~= seq![5usize, 6usize]);
            assert(tree@.nodes[7].children =~= seq![8usize, 9usize, 10usize, 11usize]);
            assert(tree@.nodes =~~= sniper_tree().nodes);
        }
        tree
    }

    /// Builds the tree of the tank.
    fn create_tank_behavior_tree(&self) -> (tree: BehaviorTree)
        ensures
            tree@ == tank_tree(),
    {
        let mut tree = BehaviorTree::new();
        let root: usize = tree.create_selector_node();

        let special_sequence: usize = tree.create_sequence_node();
        let is_cooldown_ready: usize = tree.create_condition_node(CONDITION_COOLDOWN_EXPIRED, 2_000);
        let is_in_charge_range: usize = tree.create_condition_node(CONDITION_IN_RANGE, 15_000);
        let charge_action: usize = tree.create_action_node(ACTION_SPECIAL, 1_000);
        let set_cooldown: usize = tree.create_action_node(ACTION_SET_COOLDOWN, 10_000);
        tree.add_child(special_sequence, is_cooldown_ready);
        tree.add_child(special_sequence, is_in_charge_range);
        tree.add_child(special_sequence, charge_action);
        tree.add_child(special_sequence, set_cooldown);

        let attack_sequence: usize = tree.create_sequence_node();
        let is_in_attack_range: usize = tree.create_condition_node(CONDITION_IN_RANGE, 3_000);
        let attack_action: usize = tree.create_action_node(ACTION_ATTACK, 20_000);
        tree.add_child(attack_sequence, is_in_attack_range);
        tree.add_child(attack_sequence, attack_action);

        let chase_action: usize = tree.create_action_node(ACTION_MOVE, 3_000);

        tree.add_child(root, special_sequence);
        tree.add_child(root, attack_sequence);
        tree.add_child(root, chase_action);
        tree.set_root(root);

        proof {
            assert(tree@.nodes[0].children =~= seq![1usize, 6usize, 9usize]);
            assert(tree@.nodes[1].children =~= seq![2usize, 3usize, 4usize, 5usize]);
            assert(tree@.nodes[6].children =~= seq![7usize, 8usize]);
            assert(tree@.nodes =~~= tank_tree().nodes);
        }
        tree
    }

    /// Builds the tree of the scout.
    fn create_scout_behavior_tree(&self) -> (tree: BehaviorTree)
        ensures
            tree@ == scout_tree(),
    {
        let mut tree = BehaviorTree::new();
        let root: usize = tree.create_selector_node();

        let hit_run_sequence: usize = tree.create_sequence_node();
        let is_in_attack_range: usize = tree.create_condition_node(CONDITION_IN_RANGE, 5_000);
        let is_cooldown_ready: usize = tree.create_condition_node(CONDITION_COOLDOWN_EXPIRED, 3_000);
        let attack_action: usize = tree.create_action_node(ACTION_ATTACK, 8_000);
        let set_cooldown: usize = tree.create_action_node(ACTION_SET_COOLDOWN, 2_000);
        let flee_action: usize = tree.create_action_node(ACTION_FLEE, 12_000);
        tree.add_child(hit_run_sequence, is_in_attack_range);
        tree.add_child(hit_run_sequence, is_cooldown_ready);
        tree.add_child(hit_run_sequence, attack_action);
        tree.add_child(hit_run_sequence, set_cooldown);
        tree.add_child(hit_run_sequence, flee_action);

        let circle_sequence: usize = tree.create_sequence_node();
        let is_in_circle_range: usize = tree.create_condition_node(CONDITION_IN_RANGE, 10_000);
        let circle_action: usize = tree.create_action_node(ACTION_SPECIAL, 2_000);
        tree.add_child(circle_sequence, is_in_circle_range);
        tree.add_child(circle_sequence, circle_action);

        let approach_action: usize = tree.create_action_node(ACTION_MOVE, 8_000);

        tree.add_child(root, hit_run_sequence);
        tree.add_child(root, circle_sequence);
        tree.add_child(root, approach_action);
        tree.set_root(root);

        proof {
            assert(tree@.nodes[0].children =~= seq![1usize, 7usize, 10usize]);
            assert(tree@.nodes[1].children =~= seq![2usize, 3usize, 4usize, 5usize, 6usize]);
            assert(tree@.nodes[7].children =~= seq![8usize, 9usize]);
            assert(tree@.nodes =~~= scout_tree().nodes);
        }
        tree
    }

    /// Builds the tree of the boss.
    fn create_boss_behavior_tree(&self) -> (tree: BehaviorTree)
        ensures
            tree@ == boss_tree(),
    {
        let mut tree = BehaviorTree::new();
        let root: usize = tree.create_selector_node();

        let phase2_sequence: usize = tree.create_sequence_node();
        let is_phase2: usize = tree.create_condition_node(CONDITION_HEALTH_BELOW, 500);
        let phase2_selector: usize = tree.create_selector_node();

        let special1_sequence: usize = tree.create_sequence_node();
        let is_cooldown1_ready: usize = tree.create_condition_node(CONDITION_COOLDOWN_EXPIRED, 4_000);
        let special1_action: usize = tree.create_action_node(ACTION_SPECIAL, 3_000);
        let set_cooldown1: usize = tree.create_action_node(ACTION_SET_COOLDOWN, 8_000);
        tree.add_child(special1_sequence, is_cooldown1_ready);
        tree.add_child(special1_sequence, special1_action);
        tree.add_child(special1_sequence, set_cooldown1);

        let special2_sequence: usize = tree.create_sequence_node();
        let is_cooldown2_ready: usize = tree.create_condition_node(CONDITION_COOLDOWN_EXPIRED, 5_000);
        let special2_action: usize = tree.create_action_node(ACTION_SPECIAL, 4_000);
        let set_cooldown2: usize = tree.create_action_node(ACTION_SET_COOLDOWN, 12_000);
        tree.add_child(special2_sequence, is_cooldown2_ready);
        tree.add_child(special2_sequence, special2_action);
        tree.add_child(special2_sequence, set_cooldown2);

        let attack_sequence: usize = tree.create_sequence_node();
        let is_in_attack_range: usize = tree.create_condition_node(CONDITION_IN_RANGE, 4_000);
        let attack_action: usize = tree.create_action_node(ACTION_ATTACK, 30_000);
        tree.add_child(attack_sequence, is_in_attack_range);
        tree.add_child(attack_sequence, attack_action);

        let chase_action: usize = tree.create_action_node(ACTION_MOVE, 6_000);

        tree.add_child(phase2_selector, special1_sequence);
        tree.add_child(phase2_selector, special2_sequence);
        tree.add_child(phase2_selector, attack_sequence);
        tree.add_child(phase2_selector, chase_action);

        tree.add_child(phase2_sequence, is_phase2);
        tree.add_child(phase2_sequence, phase2_selector);

        let phase1_selector: usize = tree.create_selector_node();

        let phase1_special_sequence: usize = tree.create_sequence_node();
        let is_phase1_cooldown_ready: usize = tree.create_condition_node(CONDITION_COOLDOWN_EXPIRED, 6_000);
        let phase1_special_action: usize = tree.create_action_node(ACTION_SPECIAL, 5_000);
        let phase1_set_cooldown: usize = tree.create_action_node(ACTION_SET_COOLDOWN, 15_000);
        tree.add_child(phase1_special_sequence, is_phase1_cooldown_ready);
        tree.add_child(phase1_special_sequence, phase1_special_action);
        tree.add_child(phase1_special_sequence, phase1_set_cooldown);

        let phase1_attack_sequence: usize = tree.create_sequence_node();
        let phase1_is_in_attack_range: usize = tree.create_condition_node(CONDITION_IN_RANGE, 5_000);
        let phase1_attack_action: usize = tree.create_action_node(ACTION_ATTACK, 20_000);
        tree.add_child(phase1_attack_sequence, phase1_is_in_attack_range);
        tree.add_child(phase1_attack_sequence, phase1_attack_action);

        let phase1_chase_action: usize = tree.create_action_node(ACTION_MOVE, 4_000);

        tree.add_child(phase1_selector, phase1_special_sequence);
        tree.add_child(phase1_selector, phase1_attack_sequence);
        tree.add_child(phase1_selector, phase1_chase_action);

        tree.add_child(root, phase2_sequence);
        tree.add_child(root, phase1_selector);
        tree.set_root(root);

        proof {
            assert(tree@.nodes[0].children =~= seq![1usize, 16usize]);
            assert(tree@.nodes[1].children =~= seq![2usize, 3usize]);
            assert(tree@.nodes[3].children =~= seq![4usize, 8usize, 12usize, 15usize]);
            assert(tree@.nodes[4].children =~= seq![5usize, 6usize, 7usize]);
            assert(tree@.nodes[8].children =~= seq![9usize, 10usize, 11usize]);
            assert(tree@.nodes[12].children =~= seq![13usize, 14usize]);
            assert(tree@.nodes[16].children =~= seq![17usize, 21usize, 24usize]);
            assert(tree@.nodes[17].children =~= seq![18usize, 19usize, 20usize]);
            assert(tree@.nodes[21].children =~= seq![22usize, 23usize]);
            assert(tree@.nodes =~~= boss_tree().nodes);
        }
        tree
    }
}

} // verus!
