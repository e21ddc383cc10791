//! What makes a tree fit for evaluation, and the tests for it.
//!
//! Evaluation descends from a node into its children. From a node it is
//! sure to come to an end where no node that can be reached from it is its
//! own descendant, and a parallel node can weigh its children only when it
//! asks for no more successes than it has children. Only what can be
//! reached from the node that is evaluated matters: a fault elsewhere in
//! the arena does no harm.

use vstd::prelude::*;
use vstd::set_lib::{lemma_int_range, lemma_len_subset, set_int_range};
use crate::node::NodeType;
use crate::tree::{BehaviorTree, TreeView};

verus! {

/// Why a tree is not fit for evaluation.
#[derive(Clone, Copy, Debug, PartialEq, Eq, Structural)]
pub enum TreeError {
    /// A parallel node asks for more successes than it has children.
    ThresholdBeyondChildren,
    /// A node is its own descendant.
    Cycle,
}

impl TreeView {
    /// Whether entry `k + 1` of `path` is a child of entry `k`.
    pub open spec fn is_link(self, path: Seq<usize>, k: int) -> bool {
        self.nodes[path[k] as int].children.contains(path[k + 1])
    }

    /// Whether `path` leads from node to node along links: every entry names
    /// a node and is a child of the entry before it.
    pub open spec fn is_walk(self, path: Seq<usize>) -> bool {
        &&& path.len() >= 1
        &&& forall|k: int| 0 <= k < path.len() ==> self.has_node(#[trigger] path[k])
        &&& forall|k: int| 0 <= k < path.len() - 1 ==> #[trigger] self.is_link(path, k)
    }

    /// Whether `path` is a walk of at least one link that ends where it
    /// began.
    pub open spec fn is_cycle(self, path: Seq<usize>) -> bool {
        self.is_walk(path) && path.len() >= 2 && path.first() == path.last()
    }

    /// Whether some node is its own descendant.
    pub open spec fn has_cycle(self) -> bool {
        exists|path: Seq<usize>| self.is_cycle(path)
    }

    /// Whether `path` is a walk from `from` to `to`.
    pub open spec fn leads(self, path: Seq<usize>, from: usize, to: usize) -> bool {
        self.is_walk(path) && path.first() == from && path.last() == to
    }

    /// Whether `to` is the node `from` or a descendant of it. An identifier
    /// that names no node reaches nothing and is reached from nowhere.
    pub open spec fn reaches(self, from: usize, to: usize) -> bool {
        exists|path: Seq<usize>| self.leads(path, from, to)
    }

    /// Whether no node that `id` reaches is its own descendant.
    pub open spec fn cycle_free_from(self, id: usize) -> bool {
        forall|path: Seq<usize>| #[trigger] self.is_cycle(path) ==> !self.reaches(id, path.first())
    }

    /// Whether every parallel node that `id` reaches asks for no more
    /// successes than it has children.
    pub open spec fn thresholds_valid_from(self, id: usize) -> bool {
        forall|p: usize|
            #[trigger] self.reaches(id, p) && self.nodes[p as int].kind == NodeType::Parallel
                ==> self.nodes[p as int].success_threshold <= self.nodes[p as int].children.len()
    }

    /// Whether the tree is fit for evaluation from `id`. It is from every
    /// identifier that names no node.
    pub open spec fn fit(self, id: usize) -> bool {
        self.thresholds_valid_from(id) && self.cycle_free_from(id)
    }

    /// The places in the arena of the nodes that `id` reaches.
    pub open spec fn reach_set(self, id: usize) -> Set<int> {
        Set::new(
            |x: int| 0 <= x < self.nodes.len() && x <= usize::MAX && self.reaches(id, x as usize),
        )
    }

    /// How many nodes `id` reaches. Where the tree is fit for evaluation
    /// from a node, each of its children reaches fewer: this is what
    /// evaluation descends by.
    pub open spec fn span(self, id: usize) -> nat {
        self.reach_set(id).len()
    }

    /// Whether `ranks` gives every node a number above those of its
    /// children. Children that name no node are not numbered.
    pub open spec fn ranked_by(self, ranks: Seq<nat>) -> bool {
        &&& ranks.len() == self.nodes.len()
        &&& forall|p: int, i: int|
            #![trigger self.nodes[p].children[i]]
            0 <= p < self.nodes.len() && 0 <= i < self.nodes[p].children.len() && self.has_node(
                self.nodes[p].children[i],
            ) ==> ranks[self.nodes[p].children[i] as int] < ranks[p]
    }

    /// Whether the nodes can be numbered so that every child has a lower
    /// number than its parent. That is so exactly when no node is its own
    /// descendant, see `lemma_acyclic_iff_no_cycle`.
    pub open spec fn acyclic(self) -> bool {
        exists|ranks: Seq<nat>| self.ranked_by(ranks)
    }

    /// Whether every parallel node asks for no more successes than it has
    /// children.
    pub open spec fn thresholds_valid(self) -> bool {
        forall|p: int|
            0 <= p < self.nodes.len() && (#[trigger] self.nodes[p]).kind == NodeType::Parallel
                ==> self.nodes[p].success_threshold <= self.nodes[p].children.len()
    }

    /// Whether the whole arena is without fault, which makes the tree fit
    /// for evaluation from every identifier.
    pub open spec fn well_formed(self) -> bool {
        self.thresholds_valid() && self.acyclic()
    }

    /// A walk can be entered from a parent of its first node.
    pub proof fn lemma_prepend_walk(self, parent: usize, i: int, path: Seq<usize>)
        requires
            self.has_node(parent),
            0 <= i < self.nodes[parent as int].children.len(),
            self.is_walk(path),
            path[0] == self.nodes[parent as int].children[i],
        ensures
            self.is_walk(seq![parent] + path),
    {
        let longer = seq![parent] + path;
        assert forall|k: int| 0 <= k < longer.len() - 1 implies #[trigger] self.is_link(
            longer,
            k,
        ) by {
            if k == 0 {
                assert(longer[1] == path[0]);
            } else {
                assert(self.is_link(path, k - 1));
                assert(longer[k] == path[k - 1]);
                assert(longer[k + 1] == path[k]);
            }
        }
        assert forall|k: int| 0 <= k < longer.len() implies self.has_node(#[trigger] longer[k]) by {
            if k > 0 {
                assert(longer[k] == path[k - 1]);
            }
        }
    }

    /// A walk can be carried on to a child of its last node.
    pub proof fn lemma_append_walk(self, path: Seq<usize>, i: int)
        requires
            self.is_walk(path),
            0 <= i < self.nodes[path.last() as int].children.len(),
            self.has_node(self.nodes[path.last() as int].children[i]),
        ensures
            self.is_walk(path.push(self.nodes[path.last() as int].children[i])),
    {
        let child = self.nodes[path.last() as int].children[i];
        let longer = path.push(child);
        assert forall|k: int| 0 <= k < longer.len() - 1 implies #[trigger] self.is_link(
            longer,
            k,
        ) by {
            if k == path.len() - 1 {
                assert(longer[k] == path.last());
                assert(longer[k + 1] == child);
            } else {
                assert(self.is_link(path, k));
                assert(longer[k] == path[k]);
                assert(longer[k + 1] == path[k + 1]);
            }
        }
    }

    /// Every node reaches itself.
    pub proof fn lemma_reaches_itself(self, id: usize)
        requires
            self.has_node(id),
        ensures
            self.reaches(id, id),
    {
        assert(self.leads(seq![id], id, id));
    }

    /// What reaches a node reaches its children.
    pub proof fn lemma_reaches_child(self, from: usize, parent: usize, i: int)
        requires
            self.reaches(from, parent),
            0 <= i < self.nodes[parent as int].children.len(),
            self.has_node(self.nodes[parent as int].children[i]),
        ensures
            self.reaches(from, self.nodes[parent as int].children[i]),
    {
        let path = choose|path: Seq<usize>| self.leads(path, from, parent);
        self.lemma_append_walk(path, i);
        let child = self.nodes[parent as int].children[i];
        assert(self.leads(path.push(child), from, child));
    }

    /// What a child reaches its parent reaches.
    pub proof fn lemma_reaches_through_child(self, parent: usize, i: int, to: usize)
        requires
            self.has_node(parent),
            0 <= i < self.nodes[parent as int].children.len(),
            self.reaches(self.nodes[parent as int].children[i], to),
        ensures
            self.reaches(parent, to),
    {
        let child = self.nodes[parent as int].children[i];
        let path = choose|path: Seq<usize>| self.leads(path, child, to);
        self.lemma_prepend_walk(parent, i, path);
        assert(self.leads(seq![parent] + path, parent, to));
    }

    /// No more nodes are reached than there are.
    pub proof fn lemma_reach_set_finite(self, id: usize)
        ensures
            self.reach_set(id).finite(),
            self.reach_set(id).len() <= self.nodes.len(),
    {
        lemma_int_range(0, self.nodes.len() as int);
        lemma_len_subset(self.reach_set(id), set_int_range(0, self.nodes.len() as int));
    }

    /// From an identifier that names no node the tree is fit for
    /// evaluation, whatever else it holds, and nothing is reached.
    pub proof fn lemma_missing_is_fit(self, id: usize)
        requires
            !self.has_node(id),
        ensures
            self.fit(id),
            self.span(id) == 0,
    {
        assert forall|to: usize| !self.reaches(id, to) by {
            if self.reaches(id, to) {
                let path = choose|path: Seq<usize>| self.leads(path, id, to);
                assert(self.has_node(path[0]));
            }
        }
        assert(self.reach_set(id) =~= Set::empty());
    }

    /// Where the tree is fit for evaluation from a node, it is from each of
    /// its children, and each of them reaches fewer nodes than it.
    pub proof fn lemma_child_fit(self, id: usize, i: int)
        requires
            self.fit(id),
            self.has_node(id),
            0 <= i < self.nodes[id as int].children.len(),
        ensures
            self.fit(self.nodes[id as int].children[i]),
            self.span(self.nodes[id as int].children[i]) < self.span(id),
    {
        let child = self.nodes[id as int].children[i];
        assert forall|path: Seq<usize>| #[trigger] self.is_cycle(path) implies !self.reaches(
            child,
            path.first(),
        ) by {
            if self.reaches(child, path.first()) {
                self.lemma_reaches_through_child(id, i, path.first());
            }
        }
        assert forall|p: usize|
            #[trigger] self.reaches(child, p) && self.nodes[p as int].kind
                == NodeType::Parallel implies self.nodes[p as int].success_threshold
            <= self.nodes[p as int].children.len() by {
            self.lemma_reaches_through_child(id, i, p);
        }
        self.lemma_reach_set_finite(id);
        self.lemma_reach_set_finite(child);
        self.lemma_reaches_itself(id);
        assert(self.reach_set(id).contains(id as int));
        if self.has_node(child) {
            if self.reaches(child, id) {
                let path = choose|path: Seq<usize>| self.leads(path, child, id);
                self.lemma_prepend_walk(id, i, path);
                let cycle = seq![id] + path;
                assert(cycle.last() == path.last());
                assert(self.is_cycle(cycle));
            }
            let rest = self.reach_set(id).remove(id as int);
            assert(self.reach_set(child).subset_of(rest)) by {
                assert forall|x: int| self.reach_set(child).contains(x) implies rest.contains(
                    x,
                ) by {
                    self.lemma_reaches_through_child(id, i, x as usize);
                }
            }
            lemma_len_subset(self.reach_set(child), rest);
        } else {
            self.lemma_missing_is_fit(child);
        }
    }

    /// A tree in which every child has a higher identifier than its parent
    /// has no cycle.
    pub proof fn lemma_forward_links_acyclic(self)
        requires
            forall|p: int, i: int|
                #![trigger self.nodes[p].children[i]]
                0 <= p < self.nodes.len() && 0 <= i < self.nodes[p].children.len() ==> p
                    < self.nodes[p].children[i],
        ensures
            self.acyclic(),
    {
        let n = self.nodes.len();
        let ranks = Seq::new(n, |v: int| (n - v) as nat);
        assert(self.ranked_by(ranks));
    }

    /// A tree whose whole arena is without fault is fit for evaluation from
    /// every identifier.
    pub proof fn lemma_well_formed_is_fit(self, id: usize)
        requires
            self.well_formed(),
        ensures
            self.fit(id),
    {
        lemma_acyclic_iff_no_cycle(self);
        assert forall|p: usize|
            #[trigger] self.reaches(id, p) && self.nodes[p as int].kind
                == NodeType::Parallel implies self.nodes[p as int].success_threshold
            <= self.nodes[p as int].children.len() by {
            let path = choose|path: Seq<usize>| self.leads(path, id, p);
            assert(self.has_node(path[path.len() - 1]));
        }
    }
}

/// How many entries of `settled` are still `false`.
spec fn unsettled_count(settled: Seq<bool>) -> nat
    decreases settled.len(),
{
    if settled.len() == 0 {
        0
    } else {
        unsettled_count(settled.drop_last()) + if settled.last() {
            0nat
        } else {
            1nat
        }
    }
}

/// Settling one more entry lowers the count of unsettled ones by one.
proof fn lemma_settle_lowers_count(settled: Seq<bool>, v: int)
    requires
        0 <= v < settled.len(),
        !settled[v],
    ensures
        unsettled_count(settled.update(v, true)) + 1 == unsettled_count(settled),
    decreases settled.len(),
{
    let after = settled.update(v, true);
    if v == settled.len() - 1 {
        assert(after.drop_last() =~= settled.drop_last());
    } else {
        assert(after.drop_last() =~= settled.drop_last().update(v, true));
        lemma_settle_lowers_count(settled.drop_last(), v);
    }
}

/// Whether `marked` holds, with each node, its children that name nodes.
spec fn closed(tree: TreeView, marked: Seq<bool>) -> bool {
    &&& marked.len() == tree.nodes.len()
    &&& forall|p: int, i: int|
        #![trigger tree.nodes[p].children[i]]
        0 <= p < tree.nodes.len() && marked[p] && 0 <= i < tree.nodes[p].children.len()
            && tree.has_node(tree.nodes[p].children[i]) ==> marked[tree.nodes[p].children[i] as int]
}

/// Whether every node in `marked` is reached from `id`.
spec fn marks_sound(tree: TreeView, id: usize, marked: Seq<bool>) -> bool {
    &&& marked.len() == tree.nodes.len()
    &&& forall|v: usize| v < tree.nodes.len() && #[trigger] marked[v as int] ==> tree.reaches(id, v)
}

/// Whether `marked` holds exactly the nodes that are reached from `id`.
spec fn marks_reached(tree: TreeView, id: usize, marked: Seq<bool>) -> bool {
    &&& closed(tree, marked)
    &&& forall|v: usize| v < tree.nodes.len() ==> (#[trigger] marked[v as int] <==> tree.reaches(id, v))
}

/// A walk that begins inside a set that holds, with each node, its
/// children stays inside it.
proof fn lemma_closed_holds_walk(tree: TreeView, marked: Seq<bool>, path: Seq<usize>, k: int)
    requires
        closed(tree, marked),
        tree.is_walk(path),
        marked[path[0] as int],
        0 <= k < path.len(),
    ensures
        marked[path[k] as int],
    decreases k,
{
    if k > 0 {
        lemma_closed_holds_walk(tree, marked, path, k - 1);
        let parent = path[k - 1];
        let child = path[k];
        assert(tree.is_link(path, k - 1));
        let i = choose|i: int|
            0 <= i < tree.nodes[parent as int].children.len()
                && tree.nodes[parent as int].children[i] == child;
        assert(tree.nodes[parent as int].children[i] == child);
    }
}

/// Whether node `v` has a child that names a node outside `settled`.
spec fn has_unsettled_child(tree: TreeView, settled: Seq<bool>, v: int) -> bool {
    exists|i: int| is_unsettled_child(tree, settled, v, i)
}

/// Whether the child `i` of node `v` names a node outside `settled`.
spec fn is_unsettled_child(tree: TreeView, settled: Seq<bool>, v: int, i: int) -> bool {
    &&& 0 <= i < tree.nodes[v].children.len()
    &&& tree.has_node(tree.nodes[v].children[i])
    &&& !settled[tree.nodes[v].children[i] as int]
}

/// Whether every node of `active` outside `settled` has a child outside
/// it, where `active` holds, with each node, its children.
spec fn stuck(tree: TreeView, active: Seq<bool>, settled: Seq<bool>) -> bool {
    &&& settled.len() == tree.nodes.len()
    &&& closed(tree, active)
    &&& forall|v: int|
        0 <= v < tree.nodes.len() && active[v] && !#[trigger] settled[v] ==> has_unsettled_child(
            tree,
            settled,
            v,
        )
}

/// Whether `ranks` numbers the nodes in `settled` so that each of their
/// children that names a node is in `settled` too, with a lower number.
spec fn descending(tree: TreeView, settled: Seq<bool>, ranks: Seq<nat>) -> bool {
    &&& settled.len() == tree.nodes.len()
    &&& ranks.len() == tree.nodes.len()
    &&& forall|p: int, i: int|
        #![trigger tree.nodes[p].children[i]]
        0 <= p < tree.nodes.len() && settled[p] && 0 <= i < tree.nodes[p].children.len()
            && tree.has_node(tree.nodes[p].children[i]) ==> settled[tree.nodes[p].children[i] as int]
            && ranks[tree.nodes[p].children[i] as int] < ranks[p]
}

/// Whether `ranks` numbers the nodes in `settled` in descending order with
/// numbers below `next`.
spec fn settled_ranked(tree: TreeView, settled: Seq<bool>, ranks: Seq<nat>, next: nat) -> bool {
    &&& descending(tree, settled, ranks)
    &&& forall|v: int| 0 <= v < tree.nodes.len() && #[trigger] settled[v] ==> ranks[v] < next
}

/// Settling a node all of whose children are settled keeps the numbering
/// in order and leaves one node less to settle.
proof fn lemma_settle_one(tree: TreeView, settled: Seq<bool>, ranks: Seq<nat>, next: nat, v: int)
    requires
        settled_ranked(tree, settled, ranks, next),
        0 <= v < tree.nodes.len(),
        !settled[v],
        !has_unsettled_child(tree, settled, v),
    ensures
        settled_ranked(tree, settled.update(v, true), ranks.update(v, next), next + 1),
        unsettled_count(settled.update(v, true)) + 1 == unsettled_count(settled),
{
    lemma_settle_lowers_count(settled, v);
    let later = settled.update(v, true);
    let later_ranks = ranks.update(v, next);
    assert forall|p: int, i: int|
        #![trigger tree.nodes[p].children[i]]
        0 <= p < tree.nodes.len() && later[p] && 0 <= i < tree.nodes[p].children.len()
            && tree.has_node(tree.nodes[p].children[i]) implies later[tree.nodes[p].children[i] as int]
        && later_ranks[tree.nodes[p].children[i] as int] < later_ranks[p] by {
        let child = tree.nodes[p].children[i];
        if p == v {
            assert(!is_unsettled_child(tree, settled, v, i));
            assert(settled[child as int]);
        } else {
            assert(settled[p]);
            assert(settled[child as int]);
            assert(ranks[child as int] < ranks[p]);
        }
    }
}

/// Along a walk that begins at a settled node all nodes are settled and
/// the numbers go down.
proof fn lemma_walk_descends(
    tree: TreeView,
    settled: Seq<bool>,
    ranks: Seq<nat>,
    path: Seq<usize>,
    k: int,
)
    requires
        descending(tree, settled, ranks),
        tree.is_walk(path),
        settled[path[0] as int],
        0 < k < path.len(),
    ensures
        settled[path[k] as int],
        ranks[path[k] as int] < ranks[path[0] as int],
    decreases k,
{
    if k > 1 {
        lemma_walk_descends(tree, settled, ranks, path, k - 1);
    }
    let parent = path[k - 1];
    let child = path[k];
    assert(tree.is_link(path, k - 1));
    let i = choose|i: int|
        0 <= i < tree.nodes[parent as int].children.len() && tree.nodes[parent as int].children[i]
            == child;
    assert(tree.nodes[parent as int].children[i] == child);
    assert(ranks[child as int] < ranks[parent as int]);
}

/// Where every node of `active` outside `settled` has a child outside it,
/// a walk of any length starts at each of them and stays in `active`.
proof fn lemma_stuck_walk(
    tree: TreeView,
    active: Seq<bool>,
    settled: Seq<bool>,
    v: usize,
    links: nat,
) -> (path: Seq<usize>)
    requires
        stuck(tree, active, settled),
        tree.has_node(v),
        active[v as int],
        !settled[v as int],
    ensures
        tree.is_walk(path),
        path.len() == links + 1,
        path[0] == v,
        forall|k: int| 0 <= k < path.len() ==> active[#[trigger] path[k] as int],
    decreases links,
{
    if links == 0 {
        seq![v]
    } else {
        assert(has_unsettled_child(tree, settled, v as int));
        let i = choose|i: int| is_unsettled_child(tree, settled, v as int, i);
        let child = tree.nodes[v as int].children[i];
        let rest = lemma_stuck_walk(tree, active, settled, child, (links - 1) as nat);
        tree.lemma_prepend_walk(v, i, rest);
        let path = seq![v] + rest;
        assert forall|k: int| 0 <= k < path.len() implies active[#[trigger] path[k] as int] by {
            if k > 0 {
                assert(path[k] == rest[k - 1]);
            }
        }
        path
    }
}

/// More entries than there are nodes cannot all name different nodes.
proof fn lemma_two_entries_alike(path: Seq<usize>, nodes: nat) -> (pair: (int, int))
    requires
        path.len() > nodes,
        forall|k: int| 0 <= k < path.len() ==> #[trigger] path[k] < nodes,
    ensures
        0 <= pair.0 < pair.1 < path.len(),
        path[pair.0] == path[pair.1],
{
    let numbers = path.map_values(|id: usize| id as int);
    if numbers.no_duplicates() {
        numbers.unique_seq_to_set();
        lemma_int_range(0, nodes as int);
        assert(numbers.to_set().subset_of(set_int_range(0, nodes as int))) by {
            assert forall|x: int| numbers.to_set().contains(x) implies set_int_range(
                0,
                nodes as int,
            ).contains(x) by {
                let k = choose|k: int| 0 <= k < numbers.len() && numbers[k] == x;
                assert(path[k] < nodes);
            }
        }
        lemma_len_subset(numbers.to_set(), set_int_range(0, nodes as int));
    }
    let (i, j) = choose|i: int, j: int|
        0 <= i < numbers.len() && 0 <= j < numbers.len() && i != j && numbers[i] == numbers[j];
    if i < j {
        (i, j)
    } else {
        (j, i)
    }
}

/// Where every node of `active` outside `settled` has a child outside it,
/// a cycle lies in `active` wherever one of them does.
proof fn lemma_stuck_cycle(tree: TreeView, active: Seq<bool>, settled: Seq<bool>, start: usize) -> (cycle:
    Seq<usize>)
    requires
        stuck(tree, active, settled),
        tree.has_node(start),
        active[start as int],
        !settled[start as int],
    ensures
        tree.is_cycle(cycle),
        active[cycle.first() as int],
{
    let path = lemma_stuck_walk(tree, active, settled, start, tree.nodes.len());
    let (a, b) = lemma_two_entries_alike(path, tree.nodes.len());
    let cycle = path.subrange(a, b + 1);
    assert forall|k: int| 0 <= k < cycle.len() - 1 implies #[trigger] tree.is_link(cycle, k) by {
        assert(tree.is_link(path, a + k));
    }
    assert(cycle.first() == path[a]);
    cycle
}

/// Where some node is outside `settled` and every node outside it has a
/// child outside it, some node is its own descendant.
proof fn lemma_stuck_has_cycle(tree: TreeView, active: Seq<bool>, settled: Seq<bool>, v: int)
    requires
        stuck(tree, active, settled),
        0 <= v < tree.nodes.len(),
        active[v],
        !settled[v],
    ensures
        tree.has_cycle(),
{
    assert(has_unsettled_child(tree, settled, v));
    let i = choose|i: int| is_unsettled_child(tree, settled, v, i);
    let start = tree.nodes[v].children[i];
    let cycle = lemma_stuck_cycle(tree, active, settled, start);
}

/// From any stage of settling, either all nodes can be settled, which
/// numbers them with children below parents, or some node is its own
/// descendant.
proof fn lemma_ranked_or_cyclic(tree: TreeView, settled: Seq<bool>, ranks: Seq<nat>, next: nat)
    requires
        settled_ranked(tree, settled, ranks, next),
    ensures
        tree.acyclic() || tree.has_cycle(),
    decreases unsettled_count(settled),
{
    if exists|v: int|
        0 <= v < tree.nodes.len() && !settled[v] && !has_unsettled_child(tree, settled, v) {
        let v = choose|v: int|
            0 <= v < tree.nodes.len() && !settled[v] && !has_unsettled_child(tree, settled, v);
        lemma_settle_one(tree, settled, ranks, next, v);
        lemma_ranked_or_cyclic(tree, settled.update(v, true), ranks.update(v, next), next + 1);
    } else if exists|v: int| 0 <= v < tree.nodes.len() && !settled[v] {
        let v = choose|v: int| 0 <= v < tree.nodes.len() && !settled[v];
        let all = Seq::new(tree.nodes.len(), |v: int| true);
        assert(stuck(tree, all, settled));
        lemma_stuck_has_cycle(tree, all, settled, v);
    } else {
        assert(tree.ranked_by(ranks));
    }
}

/// The nodes of a tree can be numbered with children below parents exactly
/// when no node is its own descendant.
pub proof fn lemma_acyclic_iff_no_cycle(tree: TreeView)
    ensures
        tree.acyclic() <==> !tree.has_cycle(),
{
    let n = tree.nodes.len();
    if tree.acyclic() && tree.has_cycle() {
        let ranks = choose|ranks: Seq<nat>| tree.ranked_by(ranks);
        let path = choose|path: Seq<usize>| tree.is_cycle(path);
        let all = Seq::new(n, |v: int| true);
        assert(descending(tree, all, ranks));
        lemma_walk_descends(tree, all, ranks, path, path.len() - 1);
    }
    if !tree.acyclic() {
        lemma_ranked_or_cyclic(tree, Seq::new(n, |v: int| false), Seq::new(n, |v: int| 0nat), 0);
    }
}

impl BehaviorTree {
    /// Whether every parallel node asks for no more successes than it has
    /// children.
    fn thresholds_hold(&self) -> (holds: bool)
        ensures
            holds == self@.thresholds_valid(),
    {
        let n: usize = self.node_count();
        let mut v: usize = 0;
        while v < n
            invariant
                n == self@.nodes.len(),
                v <= n,
                forall|p: int|
                    0 <= p < v && (#[trigger] self@.nodes[p]).kind == NodeType::Parallel
                        ==> self@.nodes[p].success_threshold <= self@.nodes[p].children.len(),
            decreases n - v,
        {
            if self.asks_too_much(v) {
                return false;
            }
            v += 1;
        }
        true
    }

    /// Whether `v` is a parallel node that asks for more successes than it
    /// has children.
    fn asks_too_much(&self, v: usize) -> (too_much: bool)
        requires
            self@.has_node(v),
        ensures
            too_much == (self@.nodes[v as int].kind == NodeType::Parallel
                && self@.nodes[v as int].success_threshold > self@.nodes[v as int].children.len()),
    {
        let node = self.node(v);
        let parallel: bool = match node.node_type {
            NodeType::Parallel => true,
            _ => false,
        };
        parallel && node.success_threshold > node.children.len()
    }

    /// As many marks as there are nodes, all alike.
    fn marks(&self, mark: bool) -> (marks: Vec<bool>)
        ensures
            marks@.len() == self@.nodes.len(),
            forall|v: int| 0 <= v < marks@.len() ==> marks@[v] == mark,
    {
        let n: usize = self.node_count();
        let mut marks: Vec<bool> = Vec::new();
        while marks.len() < n
            invariant
                marks@.len() <= n,
                forall|v: int| 0 <= v < marks@.len() ==> marks@[v] == mark,
            decreases n - marks@.len(),
        {
            marks.push(mark);
        }
        marks
    }

    /// Marks the children of the marked node `v` that name nodes, and says
    /// whether any of them was not marked before.
    fn mark_children(&self, Ghost(id): Ghost<usize>, v: usize, reached: &mut Vec<bool>) -> (changed:
        bool)
        requires
            self@.has_node(v),
            marks_sound(self@, id, old(reached)@),
            old(reached)@[v as int],
        ensures
            marks_sound(self@, id, final(reached)@),
            forall|u: int| 0 <= u < old(reached)@.len() && old(reached)@[u] ==> final(reached)@[u],
            forall|i: int|
                #![trigger self@.nodes[v as int].children[i]]
                0 <= i < self@.nodes[v as int].children.len() && self@.has_node(
                    self@.nodes[v as int].children[i],
                ) ==> final(reached)@[self@.nodes[v as int].children[i] as int],
            unsettled_count(final(reached)@) <= unsettled_count(old(reached)@),
            changed ==> unsettled_count(final(reached)@) < unsettled_count(old(reached)@),
            !changed ==> final(reached)@ == old(reached)@,
    {
        let node = self.node(v);
        let n: usize = reached.len();
        let count: usize = node.children.len();
        let mut changed: bool = false;
        let mut i: usize = 0;
        while i < count
            invariant
                self@.has_node(v),
                node@ == self@.nodes[v as int],
                count == node@.children.len(),
                n == self@.nodes.len(),
                i <= count,
                marks_sound(self@, id, reached@),
                reached@[v as int],
                forall|u: int| 0 <= u < n && old(reached)@[u] ==> reached@[u],
                forall|j: int|
                    #![trigger self@.nodes[v as int].children[j]]
                    0 <= j < i && self@.has_node(self@.nodes[v as int].children[j])
                        ==> reached@[self@.nodes[v as int].children[j] as int],
                unsettled_count(reached@) <= unsettled_count(old(reached)@),
                changed ==> unsettled_count(reached@) < unsettled_count(old(reached)@),
                !changed ==> reached@ == old(reached)@,
            decreases count - i,
        {
            let child: usize = node.children[i];
            if child < n && !reached[child] {
                proof {
                    lemma_settle_lowers_count(reached@, child as int);
                    self@.lemma_reaches_child(id, v, i as int);
                }
                reached.set(child, true);
                changed = true;
            }
            i += 1;
        }
        changed
    }

    /// Marks the nodes that `id` reaches.
    fn mark_reachable(&self, id: usize) -> (reached: Vec<bool>)
        ensures
            marks_reached(self@, id, reached@),
    {
        let n: usize = self.node_count();
        let mut reached: Vec<bool> = self.marks(false);
        if id < n {
            proof {
                self@.lemma_reaches_itself(id);
            }
            reached.set(id, true);
        }
        let mut progress: bool = true;
        while progress
            invariant
                n == self@.nodes.len(),
                marks_sound(self@, id, reached@),
                id < n ==> reached@[id as int],
                !progress ==> closed(self@, reached@),
            decreases unsettled_count(reached@), if progress { 1nat } else { 0nat },
        {
            progress = false;
            let ghost before = reached@;
            let mut v: usize = 0;
            while v < n
                invariant
                    n == self@.nodes.len(),
                    v <= n,
                    marks_sound(self@, id, reached@),
                    id < n ==> reached@[id as int],
                    before.len() == n,
                    unsettled_count(reached@) <= unsettled_count(before),
                    progress ==> unsettled_count(reached@) < unsettled_count(before),
                    !progress ==> reached@ == before,
                    !progress ==> forall|p: int, i: int|
                        #![trigger self@.nodes[p].children[i]]
                        0 <= p < v && reached@[p] && 0 <= i < self@.nodes[p].children.len()
                            && self@.has_node(self@.nodes[p].children[i])
                            ==> reached@[self@.nodes[p].children[i] as int],
                decreases n - v,
            {
                if reached[v] {
                    let changed: bool = self.mark_children(Ghost(id), v, &mut reached);
                    if changed {
                        progress = true;
                    }
                }
                v += 1;
            }
        }
        proof {
            assert forall|v: usize| v < n && self@.reaches(id, v) implies #[trigger] reached@[v as int] by {
                let path = choose|path: Seq<usize>| self@.leads(path, id, v);
                assert(self@.has_node(path[0]));
                lemma_closed_holds_walk(self@, reached@, path, path.len() - 1);
            }
        }
        reached
    }

    /// Whether every child of `v` that names a node is in `settled`.
    fn children_settled(&self, v: usize, settled: &Vec<bool>) -> (all: bool)
        requires
            self@.has_node(v),
            settled@.len() == self@.nodes.len(),
        ensures
            all == !has_unsettled_child(self@, settled@, v as int),
    {
        let node = self.node(v);
        let n: usize = settled.len();
        let count: usize = node.children.len();
        let mut i: usize = 0;
        while i < count
            invariant
                self@.has_node(v),
                node@ == self@.nodes[v as int],
                count == node@.children.len(),
                n == self@.nodes.len(),
                n == settled@.len(),
                i <= count,
                forall|j: int| 0 <= j < i ==> !is_unsettled_child(self@, settled@, v as int, j),
            decreases count - i,
        {
            let child: usize = node.children[i];
            if child < n && !settled[child] {
                assert(is_unsettled_child(self@, settled@, v as int, i as int));
                return false;
            }
            i += 1;
        }
        true
    }

    /// Settles the nodes of `active` one by one, each once all its children
    /// are, and numbers them as it goes; what cannot be settled lies on a
    /// cycle or above one.
    fn settle(&self, active: &Vec<bool>) -> (out: (Vec<bool>, Ghost<Seq<nat>>))
        requires
            closed(self@, active@),
        ensures
            descending(self@, out.0@, out.1@),
            stuck(self@, active@, out.0@),
    {
        let n: usize = self.node_count();
        let mut settled: Vec<bool> = self.marks(false);
        let ghost mut ranks: Seq<nat> = Seq::new(n as nat, |v: int| 0nat);
        let ghost mut next: nat = 0;
        let mut progress: bool = true;
        while progress
            invariant
                n == self@.nodes.len(),
                closed(self@, active@),
                settled_ranked(self@, settled@, ranks, next),
                !progress ==> stuck(self@, active@, settled@),
            decreases unsettled_count(settled@), if progress { 1nat } else { 0nat },
        {
            progress = false;
            let ghost before = settled@;
            let mut v: usize = n;
            while v > 0
                invariant
                    n == self@.nodes.len(),
                    v <= n,
                    closed(self@, active@),
                    settled_ranked(self@, settled@, ranks, next),
                    before.len() == n,
                    !progress ==> settled@ == before,
                    progress ==> unsettled_count(settled@) < unsettled_count(before),
                    !progress ==> forall|u: int|
                        v <= u < n && active@[u] && !#[trigger] settled@[u] ==> has_unsettled_child(
                            self@,
                            settled@,
                            u,
                        ),
                decreases v,
            {
                v -= 1;
                if active[v] && !settled[v] && self.children_settled(v, &settled) {
                    proof {
                        lemma_settle_one(self@, settled@, ranks, next, v as int);
                        ranks = ranks.update(v as int, next);
                        next = next + 1;
                    }
                    settled.set(v, true);
                    progress = true;
                }
            }
        }
        (settled, Ghost(ranks))
    }

    /// Whether no node is its own descendant.
    fn links_acyclic(&self) -> (acyclic: bool)
        ensures
            acyclic == self@.acyclic(),
    {
        let n: usize = self.node_count();
        let all: Vec<bool> = self.marks(true);
        let (settled, Ghost(ranks)) = self.settle(&all);
        let mut v: usize = 0;
        while v < n
            invariant
                n == self@.nodes.len(),
                v <= n,
                settled@.len() == n,
                all@.len() == n,
                forall|u: int| 0 <= u < n ==> all@[u],
                stuck(self@, all@, settled@),
                forall|u: int| 0 <= u < v ==> settled@[u],
            decreases n - v,
        {
            if !settled[v] {
                proof {
                    lemma_stuck_has_cycle(self@, all@, settled@, v as int);
                    lemma_acyclic_iff_no_cycle(self@);
                }
                return false;
            }
            v += 1;
        }
        assert(self@.ranked_by(ranks));
        true
    }

    /// Whether every parallel node among `reached`, the nodes that `id`
    /// reaches, asks for no more successes than it has children.
    fn thresholds_hold_among(&self, Ghost(id): Ghost<usize>, reached: &Vec<bool>) -> (holds: bool)
        requires
            marks_reached(self@, id, reached@),
        ensures
            holds == self@.thresholds_valid_from(id),
    {
        let n: usize = self.node_count();
        let mut v: usize = 0;
        while v < n
            invariant
                n == self@.nodes.len(),
                v <= n,
                marks_reached(self@, id, reached@),
                forall|p: usize|
                    p < v && #[trigger] self@.reaches(id, p) && self@.nodes[p as int].kind
                        == NodeType::Parallel ==> self@.nodes[p as int].success_threshold
                        <= self@.nodes[p as int].children.len(),
            decreases n - v,
        {
            if reached[v] && self.asks_too_much(v) {
                assert(self@.reaches(id, v));
                return false;
            }
            v += 1;
        }
        proof {
            assert forall|p: usize|
                #[trigger] self@.reaches(id, p) && self@.nodes[p as int].kind
                    == NodeType::Parallel implies self@.nodes[p as int].success_threshold
                <= self@.nodes[p as int].children.len() by {
                let path = choose|path: Seq<usize>| self@.leads(path, id, p);
                assert(self@.has_node(path[path.len() - 1]));
            }
        }
        true
    }

    /// Whether none of `reached`, the nodes that `id` reaches, is its own
    /// descendant.
    fn cycle_free_among(&self, Ghost(id): Ghost<usize>, reached: &Vec<bool>) -> (free: bool)
        requires
            marks_reached(self@, id, reached@),
        ensures
            free == self@.cycle_free_from(id),
    {
        let n: usize = self.node_count();
        let (settled, Ghost(ranks)) = self.settle(reached);
        let mut v: usize = 0;
        while v < n
            invariant
                n == self@.nodes.len(),
                v <= n,
                settled@.len() == n,
                marks_reached(self@, id, reached@),
                stuck(self@, reached@, settled@),
                forall|u: int| 0 <= u < v && reached@[u] ==> settled@[u],
            decreases n - v,
        {
            if reached[v] && !settled[v] {
                proof {
                    let cycle = lemma_stuck_cycle(self@, reached@, settled@, v);
                    assert(self@.has_node(cycle[0]));
                    assert(reached@[cycle.first() as int]);
                    assert(self@.reaches(id, cycle.first()));
                }
                return false;
            }
            v += 1;
        }
        proof {
            assert forall|path: Seq<usize>| #[trigger] self@.is_cycle(path) implies !self@.reaches(
                id,
                path.first(),
            ) by {
                if self@.reaches(id, path.first()) {
                    assert(self@.has_node(path[0]));
                    assert(reached@[path.first() as int]);
                    lemma_walk_descends(self@, settled@, ranks, path, path.len() - 1);
                }
            }
        }
        true
    }

    /// Tests whether the whole arena is without fault, and says what is
    /// wrong where it is not. Thresholds are looked at first.
    pub fn validate(&self) -> (result: Result<(), TreeError>)
        ensures
            result is Ok <==> self@.well_formed(),
            result == Err::<(), TreeError>(TreeError::ThresholdBeyondChildren)
                <==> !self@.thresholds_valid(),
            result == Err::<(), TreeError>(TreeError::Cycle) <==> self@.thresholds_valid()
                && self@.has_cycle(),
    {
        proof {
            lemma_acyclic_iff_no_cycle(self@);
        }
        if !self.thresholds_hold() {
            Err(TreeError::ThresholdBeyondChildren)
        } else if !self.links_acyclic() {
            Err(TreeError::Cycle)
        } else {
            Ok(())
        }
    }

    /// Tests whether the tree is fit for evaluation from `id`, and says
    /// what is wrong where it is not. Only the nodes that `id` reaches are
    /// looked at, their thresholds first.
    pub fn validate_from(&self, id: usize) -> (result: Result<(), TreeError>)
        ensures
            result is Ok <==> self@.fit(id),
            result == Err::<(), TreeError>(TreeError::ThresholdBeyondChildren)
                <==> !self@.thresholds_valid_from(id),
            result == Err::<(), TreeError>(TreeError::Cycle) <==> self@.thresholds_valid_from(id)
                && !self@.cycle_free_from(id),
    {
        let reached: Vec<bool> = self.mark_reachable(id);
        if !self.thresholds_hold_among(Ghost(id), &reached) {
            Err(TreeError::ThresholdBeyondChildren)
        } else if !self.cycle_free_among(Ghost(id), &reached) {
            Err(TreeError::Cycle)
        } else {
            Ok(())
        }
    }
}

} // verus!
