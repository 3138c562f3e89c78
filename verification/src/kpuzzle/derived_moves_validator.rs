use vstd::prelude::*;

use crate::alg::Alg;
use crate::alg::AlgNode;
use crate::alg::view::AlgNodeView;
use crate::alg::sequence::nodes_view;
use crate::alg::sequence::nodes_view_index;
use crate::alg::sequence::nodes_view_len;
use crate::kpuzzle::definition::KPuzzleDefinition;
use crate::kpuzzle::errors::InvalidDefinitionError;
use crate::kpuzzle::evaluator::view_node_size;
use crate::kpuzzle::evaluator::view_nodes_size;
use crate::kpuzzle::evaluator::view_node_size_pos;
use crate::kpuzzle::lookup_move::MoveResolution;
use crate::kpuzzle::lookup_move::lookup_move_indexed;
use crate::kpuzzle::lookup_move::resolve_move;

verus! {

/// Depth-first traversal state of one derived move.
#[derive(Debug, Clone, Copy, PartialEq, Eq, Structural)]
pub enum DerivedMoveVisitStatus {
    Unvisited,
    InProgress,
    Done,
}

/// How far along a status is; a visit only ever moves a status forward.
pub open spec fn status_rank(s: DerivedMoveVisitStatus) -> int {
    match s {
        DerivedMoveVisitStatus::Unvisited => 0,
        DerivedMoveVisitStatus::InProgress => 1,
        DerivedMoveVisitStatus::Done => 2,
    }
}

/// How many derived moves have not been visited yet.
pub open spec fn count_unvisited(s: Seq<DerivedMoveVisitStatus>) -> int
    decreases s,
{
    if s.len() == 0 {
        0
    } else {
        count_unvisited(s.drop_last()) + if s.last() is Unvisited {
            1int
        } else {
            0int
        }
    }
}

/// How many derived moves have been fully visited.
pub open spec fn count_done(s: Seq<DerivedMoveVisitStatus>) -> int
    decreases s,
{
    if s.len() == 0 {
        0
    } else {
        count_done(s.drop_last()) + if s.last() is Done {
            1int
        } else {
            0int
        }
    }
}

pub proof fn count_unvisited_bounds(s: Seq<DerivedMoveVisitStatus>)
    ensures
        0 <= count_unvisited(s) <= s.len(),
    decreases s,
{
    if s.len() > 0 {
        count_unvisited_bounds(s.drop_last());
    }
}

pub proof fn count_done_bounds(s: Seq<DerivedMoveVisitStatus>)
    ensures
        0 <= count_done(s) <= s.len(),
    decreases s,
{
    if s.len() > 0 {
        count_done_bounds(s.drop_last());
    }
}

pub proof fn count_unvisited_update(s: Seq<DerivedMoveVisitStatus>, i: int, v: DerivedMoveVisitStatus)
    requires
        0 <= i < s.len(),
    ensures
        count_unvisited(s.update(i, v)) == count_unvisited(s) - (if s[i] is Unvisited {
            1int
        } else {
            0int
        }) + (if v is Unvisited {
            1int
        } else {
            0int
        }),
    decreases s,
{
    if s.len() > 0 {
        if i == s.len() - 1 {
            assert(s.update(i, v).drop_last() =~= s.drop_last());
        } else {
            count_unvisited_update(s.drop_last(), i, v);
            assert(s.update(i, v).drop_last() =~= s.drop_last().update(i, v));
        }
    }
}

pub proof fn count_done_update(s: Seq<DerivedMoveVisitStatus>, i: int, v: DerivedMoveVisitStatus)
    requires
        0 <= i < s.len(),
    ensures
        count_done(s.update(i, v)) == count_done(s) - (if s[i] is Done {
            1int
        } else {
            0int
        }) + (if v is Done {
            1int
        } else {
            0int
        }),
    decreases s,
{
    if s.len() > 0 {
        if i == s.len() - 1 {
            assert(s.update(i, v).drop_last() =~= s.drop_last());
        } else {
            count_done_update(s.drop_last(), i, v);
            assert(s.update(i, v).drop_last() =~= s.drop_last().update(i, v));
        }
    }
}

pub proof fn count_unvisited_at_least_one(s: Seq<DerivedMoveVisitStatus>, i: int)
    requires
        0 <= i < s.len(),
        s[i] is Unvisited,
    ensures
        count_unvisited(s) >= 1,
    decreases s,
{
    count_unvisited_bounds(s.drop_last());
    if i < s.len() - 1 {
        count_unvisited_at_least_one(s.drop_last(), i);
    }
}

pub proof fn count_unvisited_monotone(s1: Seq<DerivedMoveVisitStatus>, s2: Seq<DerivedMoveVisitStatus>)
    requires
        s1.len() == s2.len(),
        forall|j: int| 0 <= j < s1.len() ==> status_rank(#[trigger] s2[j]) >= status_rank(s1[j]),
    ensures
        count_unvisited(s2) <= count_unvisited(s1),
    decreases s1,
{
    if s1.len() > 0 {
        count_unvisited_monotone(s1.drop_last(), s2.drop_last());
        assert(status_rank(s2[s1.len() - 1]) >= status_rank(s1[s1.len() - 1]));
    }
}

pub proof fn count_done_monotone(s1: Seq<DerivedMoveVisitStatus>, s2: Seq<DerivedMoveVisitStatus>)
    requires
        s1.len() == s2.len(),
        forall|j: int| 0 <= j < s1.len() ==> status_rank(#[trigger] s2[j]) >= status_rank(s1[j]),
    ensures
        count_done(s2) >= count_done(s1),
    decreases s1,
{
    if s1.len() > 0 {
        count_done_monotone(s1.drop_last(), s2.drop_last());
        assert(status_rank(s2[s1.len() - 1]) >= status_rank(s1[s1.len() - 1]));
    }
}

pub proof fn count_done_all(s: Seq<DerivedMoveVisitStatus>)
    requires
        forall|j: int| 0 <= j < s.len() ==> (#[trigger] s[j]) is Done,
    ensures
        count_done(s) == s.len(),
    decreases s,
{
    if s.len() > 0 {
        count_done_all(s.drop_last());
    }
}

/// The size of one alg node's tree, for termination of the traversal.
pub open spec fn node_size(n: AlgNode) -> int
    decreases n,
{
    match n {
        AlgNode::GroupingNode(g) => 2 + alg_nodes_size(g.alg.nodes@),
        AlgNode::CommutatorNode(c) => 2 + alg_nodes_size(c.a.nodes@) + alg_nodes_size(c.b.nodes@),
        AlgNode::ConjugateNode(c) => 2 + alg_nodes_size(c.a.nodes@) + alg_nodes_size(c.b.nodes@),
        _ => 1,
    }
}

pub open spec fn alg_nodes_size(s: Seq<AlgNode>) -> int
    decreases s,
{
    if s.len() == 0 {
        0
    } else {
        alg_nodes_size(s.drop_last()) + node_size(s.last())
    }
}

pub proof fn node_size_pos(n: AlgNode)
    ensures
        node_size(n) >= 1,
    decreases n,
{
    match n {
        AlgNode::GroupingNode(g) => {
            alg_nodes_size_nonneg(g.alg.nodes@);
        },
        AlgNode::CommutatorNode(c) => {
            alg_nodes_size_nonneg(c.a.nodes@);
            alg_nodes_size_nonneg(c.b.nodes@);
        },
        AlgNode::ConjugateNode(c) => {
            alg_nodes_size_nonneg(c.a.nodes@);
            alg_nodes_size_nonneg(c.b.nodes@);
        },
        _ => {
        },
    }
}

pub proof fn alg_nodes_size_nonneg(s: Seq<AlgNode>)
    ensures
        alg_nodes_size(s) >= 0,
    decreases s,
{
    if s.len() > 0 {
        alg_nodes_size_nonneg(s.drop_last());
        node_size_pos(s.last());
    }
}

pub proof fn alg_nodes_size_index(s: Seq<AlgNode>, i: int)
    requires
        0 <= i < s.len(),
    ensures
        node_size(s[i]) <= alg_nodes_size(s),
    decreases s,
{
    node_size_pos(s.last());
    alg_nodes_size_nonneg(s.drop_last());
    if i < s.len() - 1 {
        alg_nodes_size_index(s.drop_last(), i);
        node_size_pos(s[i]);
    }
}

/// The alg-value that derived-table entry `di` is defined as.
pub open spec fn derived_alg(def: KPuzzleDefinition, di: int) -> Seq<AlgNodeView> {
    def.derived_moves->Some_0@[di].1@
}

/// Whether every move in a sequence of alg-node values resolves on the
/// definition's tables.
pub open spec fn alg_all_resolvable(def: KPuzzleDefinition, nodes: Seq<AlgNodeView>) -> bool
    decreases 1nat + view_nodes_size(nodes), 0nat
        via alg_all_resolvable_decreases
{
    if nodes.len() == 0 {
        true
    } else {
        alg_all_resolvable(def, nodes.drop_last()) && node_all_resolvable(def, nodes.last())
    }
}

/// Whether every move in one alg-node value resolves.
pub open spec fn node_all_resolvable(def: KPuzzleDefinition, node: AlgNodeView) -> bool
    decreases view_node_size(node), 1nat,
{
    match node {
        AlgNodeView::MoveNode(m) => !(resolve_move(def, m) is Unresolvable),
        AlgNodeView::PauseNode => true,
        AlgNodeView::NewlineNode => true,
        AlgNodeView::LineCommentNode(_) => true,
        AlgNodeView::GroupingNode(nodes, _) => alg_all_resolvable(def, nodes),
        AlgNodeView::CommutatorNode(a, b) => alg_all_resolvable(def, a) && alg_all_resolvable(
            def,
            b,
        ),
        AlgNodeView::ConjugateNode(a, b) => alg_all_resolvable(def, a) && alg_all_resolvable(
            def,
            b,
        ),
    }
}

#[via_fn]
proof fn alg_all_resolvable_decreases(def: KPuzzleDefinition, nodes: Seq<AlgNodeView>) {
    if nodes.len() > 0 {
        view_node_size_pos(nodes.last());
    }
}

/// Whether some move in a sequence of alg-node values resolves to
/// derived-table entry `i`: entry `i` is then a direct dependency of any
/// derived move defined by this sequence.
pub open spec fn alg_references(def: KPuzzleDefinition, nodes: Seq<AlgNodeView>, i: int) -> bool
    decreases 1nat + view_nodes_size(nodes), 0nat
        via alg_references_decreases
{
    nodes.len() != 0 && (alg_references(def, nodes.drop_last(), i) || node_references(
        def,
        nodes.last(),
        i,
    ))
}

/// Whether some move in one alg-node value resolves to derived entry `i`.
pub open spec fn node_references(def: KPuzzleDefinition, node: AlgNodeView, i: int) -> bool
    decreases view_node_size(node), 1nat,
{
    match node {
        AlgNodeView::MoveNode(m) => resolve_move(def, m) matches MoveResolution::Derived {
            index,
            ..
        } && index == i,
        AlgNodeView::PauseNode => false,
        AlgNodeView::NewlineNode => false,
        AlgNodeView::LineCommentNode(_) => false,
        AlgNodeView::GroupingNode(nodes, _) => alg_references(def, nodes, i),
        AlgNodeView::CommutatorNode(a, b) => alg_references(def, a, i) || alg_references(def, b, i),
        AlgNodeView::ConjugateNode(a, b) => alg_references(def, a, i) || alg_references(def, b, i),
    }
}

#[via_fn]
proof fn alg_references_decreases(def: KPuzzleDefinition, nodes: Seq<AlgNodeView>, i: int) {
    if nodes.len() > 0 {
        view_node_size_pos(nodes.last());
    }
}

/// Whether derived-table entry `di` is well-founded within `fuel` levels:
/// every move its defining alg mentions, at any nesting depth, resolves,
/// and every derived entry it depends on is itself well-founded one level
/// shallower. A table is acyclic exactly when every entry is well-founded
/// within as many levels as the table has entries.
pub open spec fn derived_entry_ok(def: KPuzzleDefinition, di: int, fuel: nat) -> bool
    decreases fuel, 0nat, 0nat,
{
    if fuel == 0 {
        false
    } else {
        alg_refs_ok(def, derived_alg(def, di), (fuel - 1) as nat)
    }
}

/// Whether every move of the sequence resolves and every derived entry it
/// depends on is well-founded within `fuel` levels.
pub open spec fn alg_refs_ok(def: KPuzzleDefinition, nodes: Seq<AlgNodeView>, fuel: nat) -> bool
    decreases fuel, 1nat + view_nodes_size(nodes), 0nat
        via alg_refs_ok_decreases
{
    if nodes.len() == 0 {
        true
    } else {
        alg_refs_ok(def, nodes.drop_last(), fuel) && node_refs_ok(def, nodes.last(), fuel)
    }
}

/// Whether every move of one alg-node value resolves and every derived
/// entry it depends on is well-founded within `fuel` levels.
pub open spec fn node_refs_ok(def: KPuzzleDefinition, node: AlgNodeView, fuel: nat) -> bool
    decreases fuel, view_node_size(node), 1nat,
{
    match node {
        AlgNodeView::MoveNode(m) => match resolve_move(def, m) {
            MoveResolution::Primitive { .. } => true,
            MoveResolution::Derived { index, .. } => derived_entry_ok(def, index, fuel),
            MoveResolution::Unresolvable => false,
        },
        AlgNodeView::PauseNode => true,
        AlgNodeView::NewlineNode => true,
        AlgNodeView::LineCommentNode(_) => true,
        AlgNodeView::GroupingNode(nodes, _) => alg_refs_ok(def, nodes, fuel),
        AlgNodeView::CommutatorNode(a, b) => alg_refs_ok(def, a, fuel) && alg_refs_ok(def, b, fuel),
        AlgNodeView::ConjugateNode(a, b) => alg_refs_ok(def, a, fuel) && alg_refs_ok(def, b, fuel),
    }
}

#[via_fn]
proof fn alg_refs_ok_decreases(def: KPuzzleDefinition, nodes: Seq<AlgNodeView>, fuel: nat) {
    if nodes.len() > 0 {
        view_node_size_pos(nodes.last());
    }
}

/// Whether the definition's derived-move table is valid: every entry is
/// well-founded, so the reference graph is acyclic and every referenced
/// move resolves.
pub open spec fn derived_table_ok(def: KPuzzleDefinition) -> bool {
    match def.derived_moves {
        Some(d) => forall|di: int|
            0 <= di < d@.len() ==> derived_entry_ok(def, di, d@.len() as nat),
        None => true,
    }
}

/// Well-foundedness at some fuel carries to any larger fuel.
pub proof fn derived_entry_ok_mono(def: KPuzzleDefinition, di: int, f1: nat, f2: nat)
    requires
        derived_entry_ok(def, di, f1),
        f1 <= f2,
    ensures
        derived_entry_ok(def, di, f2),
    decreases f2, 0nat, 0nat,
{
    alg_refs_ok_mono(def, derived_alg(def, di), (f1 - 1) as nat, (f2 - 1) as nat);
}

pub proof fn alg_refs_ok_mono(def: KPuzzleDefinition, nodes: Seq<AlgNodeView>, f1: nat, f2: nat)
    requires
        alg_refs_ok(def, nodes, f1),
        f1 <= f2,
    ensures
        alg_refs_ok(def, nodes, f2),
    decreases f2, 1nat + view_nodes_size(nodes), 0nat,
{
    if nodes.len() > 0 {
        view_node_size_pos(nodes.last());
        alg_refs_ok_mono(def, nodes.drop_last(), f1, f2);
        node_refs_ok_mono(def, nodes.last(), f1, f2);
    }
}

pub proof fn node_refs_ok_mono(def: KPuzzleDefinition, node: AlgNodeView, f1: nat, f2: nat)
    requires
        node_refs_ok(def, node, f1),
        f1 <= f2,
    ensures
        node_refs_ok(def, node, f2),
    decreases f2, view_node_size(node), 1nat,
{
    match node {
        AlgNodeView::MoveNode(m) => {
            match resolve_move(def, m) {
                MoveResolution::Derived { index, relative_amount } => {
                    derived_entry_ok_mono(def, index, f1, f2);
                },
                _ => {
                },
            }
        },
        AlgNodeView::GroupingNode(nodes, _) => {
            alg_refs_ok_mono(def, nodes, f1, f2);
        },
        AlgNodeView::CommutatorNode(a, b) => {
            alg_refs_ok_mono(def, a, f1, f2);
            alg_refs_ok_mono(def, b, f1, f2);
        },
        AlgNodeView::ConjugateNode(a, b) => {
            alg_refs_ok_mono(def, a, f1, f2);
            alg_refs_ok_mono(def, b, f1, f2);
        },
        _ => {
        },
    }
}

/// A node of a well-founded sequence is itself well-founded.
pub proof fn alg_refs_ok_index(def: KPuzzleDefinition, nodes: Seq<AlgNodeView>, i: int, fuel: nat)
    requires
        alg_refs_ok(def, nodes, fuel),
        0 <= i < nodes.len(),
    ensures
        node_refs_ok(def, nodes[i], fuel),
    decreases nodes.len(),
{
    if i < nodes.len() - 1 {
        alg_refs_ok_index(def, nodes.drop_last(), i, fuel);
    }
}

/// A sequence whose nodes are all well-founded is well-founded.
pub proof fn alg_refs_ok_from_nodes(def: KPuzzleDefinition, nodes: Seq<AlgNodeView>, fuel: nat)
    requires
        forall|k: int| 0 <= k < nodes.len() ==> node_refs_ok(def, #[trigger] nodes[k], fuel),
    ensures
        alg_refs_ok(def, nodes, fuel),
    decreases nodes.len(),
{
    if nodes.len() > 0 {
        alg_refs_ok_from_nodes(def, nodes.drop_last(), fuel);
    }
}

/// A node that references entry `i` makes its sequence reference it.
pub proof fn alg_references_index(def: KPuzzleDefinition, nodes: Seq<AlgNodeView>, k: int, i: int)
    requires
        0 <= k < nodes.len(),
        node_references(def, nodes[k], i),
    ensures
        alg_references(def, nodes, i),
    decreases nodes.len(),
{
    if k < nodes.len() - 1 {
        alg_references_index(def, nodes.drop_last(), k, i);
    }
}

/// A node with an unresolvable move makes its sequence unresolvable.
pub proof fn alg_not_resolvable_index(def: KPuzzleDefinition, nodes: Seq<AlgNodeView>, k: int)
    requires
        0 <= k < nodes.len(),
        !node_all_resolvable(def, nodes[k]),
    ensures
        !alg_all_resolvable(def, nodes),
    decreases nodes.len(),
{
    if k < nodes.len() - 1 {
        alg_not_resolvable_index(def, nodes.drop_last(), k);
    }
}

/// An unresolvable move anywhere in the tree defeats well-foundedness at
/// every fuel.
pub proof fn alg_not_resolvable_not_ok(def: KPuzzleDefinition, nodes: Seq<AlgNodeView>, fuel: nat)
    requires
        !alg_all_resolvable(def, nodes),
    ensures
        !alg_refs_ok(def, nodes, fuel),
    decreases 1nat + view_nodes_size(nodes), 0nat,
{
    if nodes.len() > 0 {
        view_node_size_pos(nodes.last());
        if !alg_all_resolvable(def, nodes.drop_last()) {
            alg_not_resolvable_not_ok(def, nodes.drop_last(), fuel);
        } else {
            node_not_resolvable_not_ok(def, nodes.last(), fuel);
        }
    }
}

pub proof fn node_not_resolvable_not_ok(def: KPuzzleDefinition, node: AlgNodeView, fuel: nat)
    requires
        !node_all_resolvable(def, node),
    ensures
        !node_refs_ok(def, node, fuel),
    decreases view_node_size(node), 1nat,
{
    match node {
        AlgNodeView::GroupingNode(nodes, _) => {
            alg_not_resolvable_not_ok(def, nodes, fuel);
        },
        AlgNodeView::CommutatorNode(a, b) => {
            if !alg_all_resolvable(def, a) {
                alg_not_resolvable_not_ok(def, a, fuel);
            } else {
                alg_not_resolvable_not_ok(def, b, fuel);
            }
        },
        AlgNodeView::ConjugateNode(a, b) => {
            if !alg_all_resolvable(def, a) {
                alg_not_resolvable_not_ok(def, a, fuel);
            } else {
                alg_not_resolvable_not_ok(def, b, fuel);
            }
        },
        _ => {
        },
    }
}

/// A well-founded sequence makes every entry it references well-founded
/// at the same fuel.
pub proof fn alg_refs_ok_references(
    def: KPuzzleDefinition,
    nodes: Seq<AlgNodeView>,
    i: int,
    fuel: nat,
)
    requires
        alg_refs_ok(def, nodes, fuel),
        alg_references(def, nodes, i),
    ensures
        derived_entry_ok(def, i, fuel),
    decreases 1nat + view_nodes_size(nodes), 0nat,
{
    if nodes.len() > 0 {
        view_node_size_pos(nodes.last());
        if alg_references(def, nodes.drop_last(), i) {
            alg_refs_ok_references(def, nodes.drop_last(), i, fuel);
        } else {
            node_refs_ok_references(def, nodes.last(), i, fuel);
        }
    }
}

pub proof fn node_refs_ok_references(
    def: KPuzzleDefinition,
    node: AlgNodeView,
    i: int,
    fuel: nat,
)
    requires
        node_refs_ok(def, node, fuel),
        node_references(def, node, i),
    ensures
        derived_entry_ok(def, i, fuel),
    decreases view_node_size(node), 1nat,
{
    match node {
        AlgNodeView::GroupingNode(nodes, _) => {
            alg_refs_ok_references(def, nodes, i, fuel);
        },
        AlgNodeView::CommutatorNode(a, b) => {
            if alg_references(def, a, i) {
                alg_refs_ok_references(def, a, i, fuel);
            } else {
                alg_refs_ok_references(def, b, i, fuel);
            }
        },
        AlgNodeView::ConjugateNode(a, b) => {
            if alg_references(def, a, i) {
                alg_refs_ok_references(def, a, i, fuel);
            } else {
                alg_refs_ok_references(def, b, i, fuel);
            }
        },
        _ => {
        },
    }
}

/// Whether a sequence of entry indices is a reference cycle in the
/// derived table: each entry's alg references the next, and the last
/// references the first.
pub open spec fn cycle_props(def: KPuzzleDefinition, c: Seq<int>) -> bool {
    &&& c.len() >= 1
    &&& def.derived_moves is Some
    &&& forall|k: int|
        0 <= k < c.len() ==> 0 <= #[trigger] c[k] < def.derived_moves->Some_0@.len()
    &&& forall|k: int|
        0 <= k < c.len() - 1 ==> alg_references(def, derived_alg(def, #[trigger] c[k]), c[k + 1])
    &&& alg_references(def, derived_alg(def, c.last()), c[0])
}

/// No entry on a reference cycle is well-founded at any fuel.
pub proof fn lemma_cycle_not_ok(def: KPuzzleDefinition, c: Seq<int>, fuel: nat)
    requires
        cycle_props(def, c),
    ensures
        !derived_entry_ok(def, c[0], fuel),
    decreases fuel,
{
    if fuel > 0 {
        let next = if c.len() == 1 {
            c[0]
        } else {
            c[1]
        };
        assert(alg_references(def, derived_alg(def, c[0]), next));
        let c2 = c.subrange(1, c.len() as int).push(c[0]);
        assert(c2.len() == c.len());
        assert(c2[0] == next);
        assert(c2.last() == c[0]);
        assert forall|k: int| 0 <= k < c2.len() - 1 implies alg_references(
            def,
            derived_alg(def, #[trigger] c2[k]),
            c2[k + 1],
        ) by {
            if k < c2.len() - 2 {
                assert(c2[k] == c[k + 1]);
                assert(c2[k + 1] == c[k + 2]);
            } else {
                assert(c2[k] == c.last());
                assert(c2[k + 1] == c[0]);
            }
        }
        assert(cycle_props(def, c2));
        lemma_cycle_not_ok(def, c2, (fuel - 1) as nat);
        if derived_entry_ok(def, c[0], fuel) {
            alg_refs_ok_references(def, derived_alg(def, c[0]), next, (fuel - 1) as nat);
        }
    }
}

/// The DFS bookkeeping invariant: in-progress entries are exactly the
/// ones on the current traversal chain, whose consecutive entries
/// reference each other, and every finished entry is well-founded within
/// as many levels as entries are finished.
pub open spec fn statuses_stack_ok(
    def: KPuzzleDefinition,
    statuses: Seq<DerivedMoveVisitStatus>,
    stack: Seq<int>,
) -> bool {
    &&& forall|j: int|
        0 <= j < statuses.len() ==> (((#[trigger] statuses[j]) is InProgress) <==> stack.contains(
            j,
        ))
    &&& forall|k: int| 0 <= k < stack.len() ==> 0 <= #[trigger] stack[k] < statuses.len()
    &&& forall|k: int|
        0 <= k < stack.len() - 1 ==> alg_references(
            def,
            derived_alg(def, #[trigger] stack[k]),
            stack[k + 1],
        )
}

/// Every finished entry is well-founded within `count_done` levels.
pub open spec fn done_ok(def: KPuzzleDefinition, statuses: Seq<DerivedMoveVisitStatus>) -> bool {
    forall|j: int|
        0 <= j < statuses.len() && ((#[trigger] statuses[j]) is Done) ==> derived_entry_ok(
            def,
            j,
            count_done(statuses) as nat,
        )
}

/// Validates a definition's derived moves: every referenced move must
/// resolve, and no derived move may reach itself.
pub struct DerivedMovesValidator {

}

impl DerivedMovesValidator {
    /// Checks the derived-move table; see [`check_derived_moves`].
    pub fn check(def: &KPuzzleDefinition) -> (r: Result<(), InvalidDefinitionError>)
        ensures
            r is Ok <==> derived_table_ok(*def),
    {
        check_derived_moves(def)
    }
}

/// Walks the derived-move table as a graph, depth first, with three
/// states per move; revisiting an in-progress move is a recursive
/// definition and fails construction, naming the offending move.
/// Succeeds exactly when the table is well-founded: acyclic, with every
/// referenced move resolvable.
#[verifier::loop_isolation(false)]
pub fn check_derived_moves(def: &KPuzzleDefinition) -> (r: Result<(), InvalidDefinitionError>)
    ensures
        r is Ok <==> derived_table_ok(*def),
{
    let derived = match &def.derived_moves {
        Some(derived) => derived,
        None => {
            return Ok(());
        },
    };
    let n = derived.len();
    let mut statuses: Vec<DerivedMoveVisitStatus> = Vec::new();
    for k in 0..n
        invariant
            statuses@.len() == k,
            forall|j: int| 0 <= j < k as int ==> (#[trigger] statuses@[j]) is Unvisited,
    {
        statuses.push(DerivedMoveVisitStatus::Unvisited);
    }
    proof {
        count_unvisited_bounds(statuses@);
        assert forall|j: int| 0 <= j < statuses@.len() implies !(Seq::<int>::empty().contains(
            j,
        )) by {
            if Seq::<int>::empty().contains(j) {
                let w = choose|w: int| 0 <= w < Seq::<int>::empty().len() && Seq::<int>::empty()[w] == j;
            }
        }
        assert(statuses_stack_ok(*def, statuses@, Seq::<int>::empty()));
        assert(done_ok(*def, statuses@));
    }
    let mut di: usize = 0;
    while di < n
        invariant
            0 <= di <= n,
            def.derived_moves matches Some(d) && d@.len() == n,
            statuses@.len() == n,
            count_unvisited(statuses@) <= n,
            statuses_stack_ok(*def, statuses@, Seq::<int>::empty()),
            done_ok(*def, statuses@),
            forall|j: int| 0 <= j < di as int ==> (#[trigger] statuses@[j]) is Done,
        decreases n - di,
    {
        let ghost before = statuses@;
        match visit(def, &mut statuses, di, n, Ghost(Seq::<int>::empty())) {
            Ok(_) => {
            },
            Err(e) => {
                return Err(e);
            },
        }
        proof {
            assert forall|j: int| 0 <= j < (di + 1) as int implies (#[trigger] statuses@[j])
                is Done by {
                if j < di as int {
                    assert(status_rank(statuses@[j]) >= status_rank(before[j]));
                }
            }
        }
        di = di + 1;
    }
    proof {
        count_done_all(statuses@);
        assert forall|j: int|
            0 <= j < def.derived_moves->Some_0@.len() implies derived_entry_ok(
            *def,
            j,
            def.derived_moves->Some_0@.len() as nat,
        ) by {
            assert(statuses@[j] is Done);
            assert(derived_entry_ok(*def, j, count_done(statuses@) as nat));
        }
    }
    Ok(())
}

/// Visits one derived move: marks it in progress, visits every move its
/// alg references, then marks it done. Finding it already in progress
/// means the traversal chain has looped back: a reference cycle.
fn visit(
    def: &KPuzzleDefinition,
    statuses: &mut Vec<DerivedMoveVisitStatus>,
    di: usize,
    fuel: usize,
    Ghost(stack): Ghost<Seq<int>>,
) -> (r: Result<(), InvalidDefinitionError>)
    requires
        def.derived_moves matches Some(d) && d@.len() == old(statuses)@.len(),
        (di as int) < old(statuses)@.len(),
        count_unvisited(old(statuses)@) <= fuel as int,
        statuses_stack_ok(*def, old(statuses)@, stack),
        done_ok(*def, old(statuses)@),
        stack.len() > 0 ==> alg_references(*def, derived_alg(*def, stack.last()), di as int),
    ensures
        final(statuses)@.len() == old(statuses)@.len(),
        forall|j: int|
            0 <= j < old(statuses)@.len() ==> status_rank(#[trigger] final(statuses)@[j])
                >= status_rank(old(statuses)@[j]),
        count_unvisited(final(statuses)@) <= count_unvisited(old(statuses)@),
        r is Ok ==> statuses_stack_ok(*def, final(statuses)@, stack),
        r is Ok ==> done_ok(*def, final(statuses)@),
        r is Ok ==> final(statuses)@[di as int] is Done,
        r is Err ==> !derived_table_ok(*def),
    decreases fuel, 0int,
{
    let ghost d_len = def.derived_moves->Some_0@.len();
    let status = statuses[di];
    match status {
        DerivedMoveVisitStatus::InProgress => {
            proof {
                assert(stack.contains(di as int));
                let w = choose|w: int| 0 <= w < stack.len() && stack[w] == di as int;
                let c = stack.subrange(w, stack.len() as int);
                assert(c[0] == di as int);
                assert(c.last() == stack.last());
                assert forall|k: int| 0 <= k < c.len() - 1 implies alg_references(
                    *def,
                    derived_alg(*def, #[trigger] c[k]),
                    c[k + 1],
                ) by {
                    assert(c[k] == stack[w + k]);
                    assert(c[k + 1] == stack[w + k + 1]);
                }
                assert(cycle_props(*def, c));
                if derived_table_ok(*def) {
                    assert(derived_entry_ok(*def, di as int, d_len as nat));
                    lemma_cycle_not_ok(*def, c, d_len as nat);
                    assert(false);
                }
            }
            let derived = match &def.derived_moves {
                Some(derived) => derived,
                None => {
                    return Err(
                        InvalidDefinitionError {
                            description: String::from_str(
                                "Recursive derived move definition.",
                            ),
                        },
                    );
                },
            };
            let name = crate::alg::render::move_to_string(&derived[di].0);
            let mut description = String::from_str("Recursive derived move definition for: ");
            description.append(name.as_str());
            Err(InvalidDefinitionError { description })
        },
        DerivedMoveVisitStatus::Done => Ok(()),
        DerivedMoveVisitStatus::Unvisited => {
            proof {
                count_unvisited_at_least_one(statuses@, di as int);
                count_unvisited_update(statuses@, di as int, DerivedMoveVisitStatus::InProgress);
                count_done_update(statuses@, di as int, DerivedMoveVisitStatus::InProgress);
            }
            let ghost stack2 = stack.push(di as int);
            statuses.set(di, DerivedMoveVisitStatus::InProgress);
            proof {
                assert(!stack.contains(di as int));
                assert forall|j: int| 0 <= j < statuses@.len() implies (((#[trigger] statuses@[j])
                    is InProgress) <==> stack2.contains(j)) by {
                    if j == di as int {
                        assert(stack2[stack2.len() - 1] == di as int);
                        assert(stack2.contains(di as int));
                    } else {
                        if stack.contains(j) {
                            let w = choose|w: int| 0 <= w < stack.len() && stack[w] == j;
                            assert(stack2[w] == j);
                            assert(stack2.contains(j));
                        }
                        if stack2.contains(j) {
                            let w = choose|w: int| 0 <= w < stack2.len() && stack2[w] == j;
                            assert(w < stack.len());
                            assert(stack[w] == j);
                            assert(stack.contains(j));
                        }
                    }
                }
                assert(statuses_stack_ok(*def, statuses@, stack2));
                assert(count_done(statuses@) == count_done(old(statuses)@));
                assert(done_ok(*def, statuses@));
            }
            let derived = match &def.derived_moves {
                Some(derived) => derived,
                None => {
                    return Err(
                        InvalidDefinitionError {
                            description: String::from_str(
                                "Derived move table is missing.",
                            ),
                        },
                    );
                },
            };
            let ghost alg_view = derived@[di as int].1@;
            match visit_alg(def, statuses, &derived[di].1, fuel - 1, Ghost(stack2)) {
                Ok(_) => {
                },
                Err(e) => {
                    return Err(e);
                },
            }
            proof {
                count_unvisited_update(statuses@, di as int, DerivedMoveVisitStatus::Done);
                count_done_update(statuses@, di as int, DerivedMoveVisitStatus::Done);
            }
            let ghost mid = statuses@;
            let ghost c_mid = count_done(mid);
            statuses.set(di, DerivedMoveVisitStatus::Done);
            proof {
                count_done_bounds(mid);
                assert(stack2.contains(di as int));
                assert(mid[di as int] is InProgress);
                assert(count_done(statuses@) == c_mid + 1);
                count_done_bounds(statuses@);
                assert forall|j: int| 0 <= j < statuses@.len() implies (((#[trigger] statuses@[j])
                    is InProgress) <==> stack.contains(j)) by {
                    if j == di as int {
                        assert(!stack.contains(di as int));
                    } else {
                        if stack.contains(j) {
                            let w = choose|w: int| 0 <= w < stack.len() && stack[w] == j;
                            assert(stack2[w] == j);
                            assert(stack2.contains(j));
                            assert(mid[j] is InProgress);
                        }
                        if mid[j] is InProgress {
                            let w = choose|w: int| 0 <= w < stack2.len() && stack2[w] == j;
                            assert(w < stack.len());
                            assert(stack.contains(j));
                        }
                    }
                }
                assert(statuses_stack_ok(*def, statuses@, stack));
                assert(derived_entry_ok(*def, di as int, (c_mid + 1) as nat)) by {
                    assert(alg_refs_ok(*def, alg_view, c_mid as nat));
                    assert(derived_alg(*def, di as int) == alg_view);
                }
                assert forall|j: int|
                    0 <= j < statuses@.len() && ((#[trigger] statuses@[j]) is Done) implies
                    derived_entry_ok(*def, j, count_done(statuses@) as nat) by {
                    if j != di as int {
                        assert(mid[j] is Done);
                        assert(derived_entry_ok(*def, j, c_mid as nat));
                        derived_entry_ok_mono(*def, j, c_mid as nat, (c_mid + 1) as nat);
                    }
                }
                assert(done_ok(*def, statuses@));
            }
            Ok(())
        },
    }
}

/// Visits every move an alg references, in order. On success every move
/// of the alg resolves and the alg is well-founded within as many levels
/// as entries are finished.
#[verifier::loop_isolation(false)]
fn visit_alg(
    def: &KPuzzleDefinition,
    statuses: &mut Vec<DerivedMoveVisitStatus>,
    alg: &Alg,
    fuel: usize,
    Ghost(stack): Ghost<Seq<int>>,
) -> (r: Result<(), InvalidDefinitionError>)
    requires
        def.derived_moves matches Some(d) && d@.len() == old(statuses)@.len(),
        count_unvisited(old(statuses)@) <= fuel as int,
        statuses_stack_ok(*def, old(statuses)@, stack),
        done_ok(*def, old(statuses)@),
        stack.len() > 0,
        forall|i: int|
            alg_references(*def, alg@, i) ==> alg_references(
                *def,
                derived_alg(*def, stack.last()),
                i,
            ),
        !alg_all_resolvable(*def, alg@) ==> !alg_all_resolvable(
            *def,
            derived_alg(*def, stack.last()),
        ),
    ensures
        final(statuses)@.len() == old(statuses)@.len(),
        forall|j: int|
            0 <= j < old(statuses)@.len() ==> status_rank(#[trigger] final(statuses)@[j])
                >= status_rank(old(statuses)@[j]),
        count_unvisited(final(statuses)@) <= count_unvisited(old(statuses)@),
        r is Ok ==> statuses_stack_ok(*def, final(statuses)@, stack),
        r is Ok ==> done_ok(*def, final(statuses)@),
        r is Ok ==> alg_refs_ok(*def, alg@, count_done(final(statuses)@) as nat),
        r is Err ==> !derived_table_ok(*def),
    decreases fuel, 1int + alg_nodes_size(alg.nodes@),
{
    let ghost entry = statuses@;
    let ghost vs = nodes_view(alg.nodes@);
    proof {
        nodes_view_len(alg.nodes@);
    }
    let n = alg.nodes.len();
    let mut k: usize = 0;
    while k < n
        invariant
            0 <= k <= n,
            n == alg.nodes@.len(),
            entry == old(statuses)@,
            count_unvisited(entry) <= fuel as int,
            def.derived_moves matches Some(d) && d@.len() == statuses@.len(),
            statuses@.len() == entry.len(),
            forall|j: int|
                0 <= j < entry.len() ==> status_rank(#[trigger] statuses@[j]) >= status_rank(
                    entry[j],
                ),
            count_unvisited(statuses@) <= count_unvisited(entry),
            statuses_stack_ok(*def, statuses@, stack),
            done_ok(*def, statuses@),
            alg_refs_ok(*def, vs.take(k as int), count_done(statuses@) as nat),
        decreases n - k,
    {
        proof {
            alg_nodes_size_index(alg.nodes@, k as int);
            node_size_pos(alg.nodes@[k as int]);
            nodes_view_index(alg.nodes@, k as int);
            assert forall|i: int| node_references(*def, vs[k as int], i) implies alg_references(
                *def,
                derived_alg(*def, stack.last()),
                i,
            ) by {
                alg_references_index(*def, vs, k as int, i);
                assert(alg_references(*def, alg@, i));
            }
            if !node_all_resolvable(*def, vs[k as int]) {
                alg_not_resolvable_index(*def, vs, k as int);
                assert(!alg_all_resolvable(*def, alg@));
            }
        }
        let ghost before = statuses@;
        match visit_node(def, statuses, &alg.nodes[k], fuel, Ghost(stack)) {
            Ok(_) => {
            },
            Err(e) => {
                return Err(e);
            },
        }
        proof {
            count_done_monotone(before, statuses@);
            count_done_bounds(before);
            alg_refs_ok_mono(
                *def,
                vs.take(k as int),
                count_done(before) as nat,
                count_done(statuses@) as nat,
            );
            assert(vs.take(k + 1).drop_last() =~= vs.take(k as int));
            assert(vs.take(k + 1).last() == vs[k as int]);
            assert(alg_refs_ok(*def, vs.take(k + 1), count_done(statuses@) as nat));
        }
        k = k + 1;
    }
    proof {
        assert(vs.take(n as int) =~= vs);
    }
    Ok(())
}

/// Visits the moves one node references: a move resolves and, when
/// derived, is visited recursively; nested structures recurse.
fn visit_node(
    def: &KPuzzleDefinition,
    statuses: &mut Vec<DerivedMoveVisitStatus>,
    node: &AlgNode,
    fuel: usize,
    Ghost(stack): Ghost<Seq<int>>,
) -> (r: Result<(), InvalidDefinitionError>)
    requires
        def.derived_moves matches Some(d) && d@.len() == old(statuses)@.len(),
        count_unvisited(old(statuses)@) <= fuel as int,
        statuses_stack_ok(*def, old(statuses)@, stack),
        done_ok(*def, old(statuses)@),
        stack.len() > 0,
        forall|i: int|
            node_references(*def, node@, i) ==> alg_references(
                *def,
                derived_alg(*def, stack.last()),
                i,
            ),
        !node_all_resolvable(*def, node@) ==> !alg_all_resolvable(
            *def,
            derived_alg(*def, stack.last()),
        ),
    ensures
        final(statuses)@.len() == old(statuses)@.len(),
        forall|j: int|
            0 <= j < old(statuses)@.len() ==> status_rank(#[trigger] final(statuses)@[j])
                >= status_rank(old(statuses)@[j]),
        count_unvisited(final(statuses)@) <= count_unvisited(old(statuses)@),
        r is Ok ==> statuses_stack_ok(*def, final(statuses)@, stack),
        r is Ok ==> done_ok(*def, final(statuses)@),
        r is Ok ==> node_refs_ok(*def, node@, count_done(final(statuses)@) as nat),
        r is Err ==> !derived_table_ok(*def),
    decreases fuel, node_size(*node),
{
    let ghost top = stack.last();
    match node {
        AlgNode::MoveNode(key_move) => {
            match lookup_move_indexed(def, key_move) {
                Some((is_derived, i, _rel)) => {
                    if is_derived {
                        proof {
                            assert(node_references(*def, node@, i as int));
                            assert(alg_references(*def, derived_alg(*def, top), i as int));
                        }
                        let r = visit(def, statuses, i, fuel, Ghost(stack));
                        proof {
                            if r is Ok {
                                assert(final(statuses)@[i as int] is Done);
                                assert(derived_entry_ok(
                                    *def,
                                    i as int,
                                    count_done(statuses@) as nat,
                                ));
                            }
                        }
                        r
                    } else {
                        Ok(())
                    }
                },
                None => {
                    proof {
                        assert(!node_all_resolvable(*def, node@));
                        assert(!alg_all_resolvable(*def, derived_alg(*def, top)));
                        if derived_table_ok(*def) {
                            assert(0 <= top < def.derived_moves->Some_0@.len());
                            assert(derived_entry_ok(
                                *def,
                                top,
                                def.derived_moves->Some_0@.len() as nat,
                            ));
                            alg_not_resolvable_not_ok(
                                *def,
                                derived_alg(*def, top),
                                (def.derived_moves->Some_0@.len() - 1) as nat,
                            );
                        }
                    }
                    let name = crate::alg::render::move_to_string(key_move);
                    let mut description = String::from_str(
                        "Invalid move used in a derived move definition: ",
                    );
                    description.append(name.as_str());
                    Err(InvalidDefinitionError { description })
                },
            }
        },
        AlgNode::GroupingNode(g) => {
            proof {
                alg_nodes_size_nonneg(g.alg.nodes@);
                assert forall|i: int| alg_references(*def, g.alg@, i) implies alg_references(
                    *def,
                    derived_alg(*def, top),
                    i,
                ) by {
                    assert(node_references(*def, node@, i));
                }
                if !alg_all_resolvable(*def, g.alg@) {
                    assert(!node_all_resolvable(*def, node@));
                }
            }
            visit_alg(def, statuses, &g.alg, fuel, Ghost(stack))
        },
        AlgNode::CommutatorNode(c) => {
            proof {
                alg_nodes_size_nonneg(c.a.nodes@);
                alg_nodes_size_nonneg(c.b.nodes@);
                assert forall|i: int| alg_references(*def, c.a@, i) implies alg_references(
                    *def,
                    derived_alg(*def, top),
                    i,
                ) by {
                    assert(node_references(*def, node@, i));
                }
                assert forall|i: int| alg_references(*def, c.b@, i) implies alg_references(
                    *def,
                    derived_alg(*def, top),
                    i,
                ) by {
                    assert(node_references(*def, node@, i));
                }
                if !alg_all_resolvable(*def, c.a@) {
                    assert(!node_all_resolvable(*def, node@));
                }
                if !alg_all_resolvable(*def, c.b@) {
                    assert(!node_all_resolvable(*def, node@));
                }
            }
            match visit_alg(def, statuses, &c.a, fuel, Ghost(stack)) {
                Ok(_) => {
                    let ghost after_a = statuses@;
                    let r = visit_alg(def, statuses, &c.b, fuel, Ghost(stack));
                    proof {
                        if r is Ok {
                            count_done_monotone(after_a, statuses@);
                            count_done_bounds(after_a);
                            alg_refs_ok_mono(
                                *def,
                                c.a@,
                                count_done(after_a) as nat,
                                count_done(statuses@) as nat,
                            );
                        }
                    }
                    r
                },
                Err(e) => Err(e),
            }
        },
        AlgNode::ConjugateNode(c) => {
            proof {
                alg_nodes_size_nonneg(c.a.nodes@);
                alg_nodes_size_nonneg(c.b.nodes@);
                assert forall|i: int| alg_references(*def, c.a@, i) implies alg_references(
                    *def,
                    derived_alg(*def, top),
                    i,
                ) by {
                    assert(node_references(*def, node@, i));
                }
                assert forall|i: int| alg_references(*def, c.b@, i) implies alg_references(
                    *def,
                    derived_alg(*def, top),
                    i,
                ) by {
                    assert(node_references(*def, node@, i));
                }
                if !alg_all_resolvable(*def, c.a@) {
                    assert(!node_all_resolvable(*def, node@));
                }
                if !alg_all_resolvable(*def, c.b@) {
                    assert(!node_all_resolvable(*def, node@));
                }
            }
            match visit_alg(def, statuses, &c.a, fuel, Ghost(stack)) {
                Ok(_) => {
                    let ghost after_a = statuses@;
                    let r = visit_alg(def, statuses, &c.b, fuel, Ghost(stack));
                    proof {
                        if r is Ok {
                            count_done_monotone(after_a, statuses@);
                            count_done_bounds(after_a);
                            alg_refs_ok_mono(
                                *def,
                                c.a@,
                                count_done(after_a) as nat,
                                count_done(statuses@) as nat,
                            );
                        }
                    }
                    r
                },
                Err(e) => Err(e),
            }
        },
        _ => Ok(()),
    }
}

} // verus!
