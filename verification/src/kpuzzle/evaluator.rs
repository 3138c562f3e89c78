use vstd::prelude::*;

use crate::alg::Alg;
use crate::alg::AlgNode;
use crate::alg::Move;
use crate::alg::MoveView;
use crate::alg::view::AlgNodeView;
use crate::alg::sequence::nodes_view;
use crate::alg::sequence::nodes_view_index;
use crate::alg::sequence::nodes_view_len;
use crate::kpuzzle::derived_moves_validator::alg_nodes_size;
use crate::kpuzzle::derived_moves_validator::alg_nodes_size_index;
use crate::kpuzzle::derived_moves_validator::alg_nodes_size_nonneg;
use crate::kpuzzle::derived_moves_validator::node_size;
use crate::kpuzzle::derived_moves_validator::node_size_pos;
use crate::kpuzzle::errors::InvalidAlgError;
use crate::kpuzzle::errors::InvalidMoveError;
use crate::kpuzzle::kpattern::KPattern;
use crate::kpuzzle::kpattern::is_pattern_application;
use crate::kpuzzle::kpuzzle::KPuzzle;
use crate::kpuzzle::ktransformation::KTransformation;
use crate::kpuzzle::ktransformation::is_composition;
use crate::kpuzzle::ktransformation::is_inverse_of;
use crate::kpuzzle::ktransformation::is_signed_power;
use crate::kpuzzle::ktransformation::matches_transformation_data;
use crate::kpuzzle::ktransformation::transformation_data_ok;
use crate::kpuzzle::laws::lemma_power_zero_identity;
use crate::kpuzzle::lookup_move::MoveResolution;
use crate::kpuzzle::lookup_move::lookup_move_indexed;
use crate::kpuzzle::lookup_move::resolve_move;

verus! {

/// The size of one alg-node value's tree, for termination of the
/// evaluation relation.
pub open spec fn view_node_size(n: AlgNodeView) -> nat
    decreases n,
{
    match n {
        AlgNodeView::GroupingNode(nodes, _) => 2 + view_nodes_size(nodes),
        AlgNodeView::CommutatorNode(a, b) => 2 + view_nodes_size(a) + view_nodes_size(b),
        AlgNodeView::ConjugateNode(a, b) => 2 + view_nodes_size(a) + view_nodes_size(b),
        _ => 1,
    }
}

/// The total size of a sequence of alg-node values.
pub open spec fn view_nodes_size(s: Seq<AlgNodeView>) -> nat
    decreases s,
{
    if s.len() == 0 {
        0
    } else {
        view_nodes_size(s.drop_last()) + view_node_size(s.last())
    }
}

/// Every alg-node value has a positive tree size.
pub proof fn view_node_size_pos(n: AlgNodeView)
    ensures
        view_node_size(n) >= 1,
{
}

#[via_fn]
proof fn alg_evals_to_decreases(
    p: KPuzzle,
    nodes: Seq<AlgNodeView>,
    t: KTransformation,
    fuel: nat,
) {
    if nodes.len() > 0 {
        view_node_size_pos(nodes.last());
    }
}

#[via_fn]
proof fn alg_eval_ok_decreases(p: KPuzzle, nodes: Seq<AlgNodeView>, fuel: nat) {
    if nodes.len() > 0 {
        view_node_size_pos(nodes.last());
    }
}

/// How many nested derived-move definitions an evaluation on this puzzle
/// follows before giving up: one more than the derived table is long.
pub open spec fn depth_budget(p: KPuzzle) -> nat {
    match p.data.definition.derived_moves {
        Some(d) => if d@.len() < usize::MAX as nat {
            d@.len() + 1
        } else {
            d@.len()
        },
        None => 1,
    }
}

/// Whether `inv` is what inverting `t` yields: a valid transformation of
/// the same puzzle, and the true inverse whenever `t`'s permutation is
/// injective.
pub open spec fn is_inversion_result(inv: KTransformation, t: KTransformation) -> bool {
    &&& inv.valid()
    &&& inv.kpuzzle_spec() == t.kpuzzle_spec()
    &&& (t.injective() ==> is_inverse_of(inv, t))
}

/// Whether evaluating one move on puzzle `p` can yield `t`, following at
/// most `fuel` nested derived definitions: the move resolves to a
/// primitive or derived table entry (see [`resolve_move`]), whose
/// transformation is raised to the resolved relative amount.
pub open spec fn move_evals_to(p: KPuzzle, key: MoveView, t: KTransformation, fuel: nat) -> bool
    decreases fuel, 0nat, 0nat,
{
    match resolve_move(p.data.definition, key) {
        MoveResolution::Primitive { index, relative_amount } => exists|base: KTransformation|
            {
                &&& #[trigger] base.valid()
                &&& base.kpuzzle_spec() == p
                &&& matches_transformation_data(
                    base,
                    p,
                    p.data.definition.moves@[index].1.entries@,
                )
                &&& is_signed_power(t, base, relative_amount)
                &&& t.valid()
                &&& t.kpuzzle_spec() == p
            },
        MoveResolution::Derived { index, relative_amount } => if fuel == 0 {
            false
        } else {
            exists|inner: KTransformation|
                {
                    &&& #[trigger] inner.valid()
                    &&& inner.kpuzzle_spec() == p
                    &&& alg_evals_to(
                        p,
                        p.data.definition.derived_moves->Some_0@[index].1@,
                        inner,
                        (fuel - 1) as nat,
                    )
                    &&& is_signed_power(t, inner, relative_amount)
                    &&& t.valid()
                    &&& t.kpuzzle_spec() == p
                }
        },
        MoveResolution::Unresolvable => false,
    }
}

/// Whether evaluating a sequence of alg-node values on `p` can yield `t`:
/// the empty sequence yields the identity, and a nonempty one composes
/// the evaluation of its front with the evaluation of its last node,
/// left to right.
pub open spec fn alg_evals_to(p: KPuzzle, nodes: Seq<AlgNodeView>, t: KTransformation, fuel: nat) -> bool
    decreases fuel, 1nat + view_nodes_size(nodes), 0nat
        via alg_evals_to_decreases
{
    if nodes.len() == 0 {
        t.is_identity() && t.valid() && t.kpuzzle_spec() == p
    } else {
        exists|t1: KTransformation, t2: KTransformation|
            #![trigger t1.valid(), t2.valid()]
            {
                &&& t1.valid()
                &&& t2.valid()
                &&& alg_evals_to(p, nodes.drop_last(), t1, fuel)
                &&& node_evals_to(p, nodes.last(), t2, fuel)
                &&& is_composition(t, t1, t2)
                &&& t.valid()
                &&& t.kpuzzle_spec() == p
            }
    }
}

/// Whether evaluating one alg-node value on `p` can yield `t`: a move
/// resolves through the tables, pauses, newlines and comments yield the
/// identity, a grouping raises its contents to its amount, a commutator
/// `[A, B]` yields `A B A' B'` and a conjugate `[A: B]` yields `A B A'`.
pub open spec fn node_evals_to(p: KPuzzle, node: AlgNodeView, t: KTransformation, fuel: nat) -> bool
    decreases fuel, view_node_size(node), 1nat,
{
    match node {
        AlgNodeView::MoveNode(m) => move_evals_to(p, m, t, fuel),
        AlgNodeView::PauseNode => t.is_identity() && t.valid() && t.kpuzzle_spec() == p,
        AlgNodeView::NewlineNode => t.is_identity() && t.valid() && t.kpuzzle_spec() == p,
        AlgNodeView::LineCommentNode(_) => t.is_identity() && t.valid() && t.kpuzzle_spec() == p,
        AlgNodeView::GroupingNode(nodes, amount) => exists|inner: KTransformation|
            {
                &&& #[trigger] inner.valid()
                &&& inner.kpuzzle_spec() == p
                &&& alg_evals_to(p, nodes, inner, fuel)
                &&& is_signed_power(t, inner, amount)
                &&& t.valid()
                &&& t.kpuzzle_spec() == p
            },
        AlgNodeView::CommutatorNode(a, b) => exists|
            ta: KTransformation,
            tb: KTransformation,
            tap: KTransformation,
            tbp: KTransformation,
            tab: KTransformation,
            taba: KTransformation,
        |
            #![trigger ta.valid(), tb.valid(), tap.valid(), tbp.valid(), tab.valid(), taba.valid()]
            {
                &&& ta.valid()
                &&& tb.valid()
                &&& tap.valid()
                &&& tbp.valid()
                &&& tab.valid()
                &&& taba.valid()
                &&& alg_evals_to(p, a, ta, fuel)
                &&& alg_evals_to(p, b, tb, fuel)
                &&& is_inversion_result(tap, ta)
                &&& is_inversion_result(tbp, tb)
                &&& is_composition(tab, ta, tb)
                &&& is_composition(taba, tab, tap)
                &&& is_composition(t, taba, tbp)
                &&& t.valid()
                &&& t.kpuzzle_spec() == p
            },
        AlgNodeView::ConjugateNode(a, b) => exists|
            ta: KTransformation,
            tb: KTransformation,
            tap: KTransformation,
            tab: KTransformation,
        |
            #![trigger ta.valid(), tb.valid(), tap.valid(), tab.valid()]
            {
                &&& ta.valid()
                &&& tb.valid()
                &&& tap.valid()
                &&& tab.valid()
                &&& alg_evals_to(p, a, ta, fuel)
                &&& alg_evals_to(p, b, tb, fuel)
                &&& is_inversion_result(tap, ta)
                &&& is_composition(tab, ta, tb)
                &&& is_composition(t, tab, tap)
                &&& t.valid()
                &&& t.kpuzzle_spec() == p
            },
    }
}

/// Whether evaluating one move on `p` succeeds with `fuel` nesting left:
/// the move resolves, its relative amount is representable, a primitive
/// entry's raw data matches the puzzle's orbits, and a derived entry's
/// defining alg itself evaluates one level deeper.
pub open spec fn move_eval_ok(p: KPuzzle, key: MoveView, fuel: nat) -> bool
    decreases fuel, 0nat, 0nat,
{
    match resolve_move(p.data.definition, key) {
        MoveResolution::Primitive { index, relative_amount } => relative_amount > i32::MIN
            && transformation_data_ok(p, p.data.definition.moves@[index].1.entries@),
        MoveResolution::Derived { index, relative_amount } => if fuel == 0 {
            false
        } else {
            relative_amount > i32::MIN && alg_eval_ok(
                p,
                p.data.definition.derived_moves->Some_0@[index].1@,
                (fuel - 1) as nat,
            )
        },
        MoveResolution::Unresolvable => false,
    }
}

/// Whether evaluating a sequence of alg-node values on `p` succeeds.
pub open spec fn alg_eval_ok(p: KPuzzle, nodes: Seq<AlgNodeView>, fuel: nat) -> bool
    decreases fuel, 1nat + view_nodes_size(nodes), 0nat
        via alg_eval_ok_decreases
{
    if nodes.len() == 0 {
        true
    } else {
        alg_eval_ok(p, nodes.drop_last(), fuel) && node_eval_ok(p, nodes.last(), fuel)
    }
}

/// Whether evaluating one alg-node value on `p` succeeds.
pub open spec fn node_eval_ok(p: KPuzzle, node: AlgNodeView, fuel: nat) -> bool
    decreases fuel, view_node_size(node), 1nat,
{
    match node {
        AlgNodeView::MoveNode(m) => move_eval_ok(p, m, fuel),
        AlgNodeView::PauseNode => true,
        AlgNodeView::NewlineNode => true,
        AlgNodeView::LineCommentNode(_) => true,
        AlgNodeView::GroupingNode(nodes, amount) => amount > i32::MIN && alg_eval_ok(
            p,
            nodes,
            fuel,
        ),
        AlgNodeView::CommutatorNode(a, b) => alg_eval_ok(p, a, fuel) && alg_eval_ok(p, b, fuel),
        AlgNodeView::ConjugateNode(a, b) => alg_eval_ok(p, a, fuel) && alg_eval_ok(p, b, fuel),
    }
}

/// Every node of a sequence that evaluates successfully does so itself.
pub proof fn alg_eval_ok_index(p: KPuzzle, nodes: Seq<AlgNodeView>, i: int, fuel: nat)
    requires
        alg_eval_ok(p, nodes, fuel),
        0 <= i < nodes.len(),
    ensures
        node_eval_ok(p, nodes[i], fuel),
    decreases nodes.len(),
{
    if i < nodes.len() - 1 {
        alg_eval_ok_index(p, nodes.drop_last(), i, fuel);
    }
}

/// How many nested derived-move definitions an evaluation will follow
/// before giving up. Construction rejects recursive definitions, so a
/// well-formed puzzle never reaches this bound.
fn derived_depth_budget(kpuzzle: &KPuzzle) -> (r: usize)
    ensures
        r as nat == depth_budget(*kpuzzle),
{
    match &kpuzzle.data.definition.derived_moves {
        Some(derived) => {
            let n = derived.len();
            if n < usize::MAX {
                n + 1
            } else {
                n
            }
        },
        None => 1,
    }
}

impl KPuzzle {
    /// Resolves a move against the primitive and derived tables and
    /// raises the found transformation to the resolved relative amount.
    /// Succeeds exactly when the move resolves within the puzzle's
    /// derived-definition depth budget (see [`move_eval_ok`]), and the
    /// result is then pinned by the evaluation relation [`move_evals_to`].
    pub fn transformation_from_move(&self, key_move: &Move) -> (r: Result<
        KTransformation,
        InvalidAlgError,
    >)
        requires
            self.wf(),
        ensures
            r matches Ok(t) ==> t.valid() && t.kpuzzle_spec() == *self,
            r is Ok <==> move_eval_ok(*self, key_move@, depth_budget(*self)),
            r matches Ok(t) ==> move_evals_to(*self, key_move@, t, depth_budget(*self)),
    {
        let fuel = derived_depth_budget(self);
        self.transformation_from_move_with_fuel(key_move, fuel)
    }

    /// Resolves and evaluates one move, following at most `fuel` nested
    /// derived definitions.
    #[verifier::loop_isolation(false)]
    fn transformation_from_move_with_fuel(&self, key_move: &Move, fuel: usize) -> (r: Result<
        KTransformation,
        InvalidAlgError,
    >)
        requires
            self.wf(),
        ensures
            r matches Ok(t) ==> t.valid() && t.kpuzzle_spec() == *self,
            r is Ok <==> move_eval_ok(*self, key_move@, fuel as nat),
            r matches Ok(t) ==> move_evals_to(*self, key_move@, t, fuel as nat),
        decreases fuel, 0int, 0int,
    {
        let resolution = lookup_move_indexed(&self.data.definition, key_move);
        match resolution {
            None => {
                let mut description = String::from_str("Move does not exist on this puzzle: ");
                let name = crate::alg::render::move_to_string(key_move);
                description.append(name.as_str());
                Err(InvalidAlgError::InvalidMove(InvalidMoveError { description }))
            },
            Some((is_derived, index, relative_amount)) => {
                if relative_amount == i32::MIN {
                    return Err(
                        InvalidAlgError::InvalidMove(
                            InvalidMoveError {
                                description: String::from_str(
                                    "Move amount is too large to resolve.",
                                ),
                            },
                        ),
                    );
                }
                if is_derived {
                    if fuel == 0 {
                        return Err(
                            InvalidAlgError::InvalidMove(
                                InvalidMoveError {
                                    description: String::from_str(
                                        "Derived move definitions are nested too deeply.",
                                    ),
                                },
                            ),
                        );
                    }
                    let derived = match &self.data.definition.derived_moves {
                        Some(derived) => derived,
                        None => {
                            return Err(
                                InvalidAlgError::InvalidMove(
                                    InvalidMoveError {
                                        description: String::from_str(
                                            "Move does not exist on this puzzle.",
                                        ),
                                    },
                                ),
                            );
                        },
                    };
                    let inner = match self.transformation_from_alg_with_fuel(
                        &derived[index].1,
                        fuel - 1,
                    ) {
                        Ok(inner) => inner,
                        Err(e) => {
                            return Err(e);
                        },
                    };
                    let t = inner.self_multiply(relative_amount);
                    proof {
                        assert(inner.valid());
                        assert(move_evals_to(*self, key_move@, t, fuel as nat));
                    }
                    Ok(t)
                } else {
                    let base = match KTransformation::try_from_data(
                        self,
                        &self.data.definition.moves[index].1,
                    ) {
                        Ok(base) => base,
                        Err(_) => {
                            return Err(
                                InvalidAlgError::InvalidMove(
                                    InvalidMoveError {
                                        description: String::from_str(
                                            "Raw move data does not match the puzzle's orbits.",
                                        ),
                                    },
                                ),
                            );
                        },
                    };
                    let t = base.self_multiply(relative_amount);
                    proof {
                        assert(base.valid());
                        assert(move_evals_to(*self, key_move@, t, fuel as nat));
                    }
                    Ok(t)
                }
            },
        }
    }

    /// Folds an alg into one net transformation by left-to-right
    /// composition: moves resolve through the tables, pauses, newlines
    /// and comments contribute the identity, groupings raise their
    /// contents to a power, commutators give `A B A' B'` and conjugates
    /// `A B A'`. An empty alg gives the identity. Succeeds exactly when
    /// every move resolves within the derived-definition depth budget
    /// (see [`alg_eval_ok`]); the result is then pinned by the evaluation
    /// relation [`alg_evals_to`].
    pub fn transformation_from_alg(&self, alg: &Alg) -> (r: Result<
        KTransformation,
        InvalidAlgError,
    >)
        requires
            self.wf(),
        ensures
            r matches Ok(t) ==> t.valid() && t.kpuzzle_spec() == *self,
            r is Ok <==> alg_eval_ok(*self, alg@, depth_budget(*self)),
            r matches Ok(t) ==> alg_evals_to(*self, alg@, t, depth_budget(*self)),
            alg.nodes@.len() == 0 ==> (r matches Ok(t) && t.is_identity()),
    {
        let fuel = derived_depth_budget(self);
        self.transformation_from_alg_with_fuel(alg, fuel)
    }

    /// Folds an alg with a derived-definition depth budget.
    #[verifier::loop_isolation(false)]
    fn transformation_from_alg_with_fuel(&self, alg: &Alg, fuel: usize) -> (r: Result<
        KTransformation,
        InvalidAlgError,
    >)
        requires
            self.wf(),
        ensures
            r matches Ok(t) ==> t.valid() && t.kpuzzle_spec() == *self,
            r is Ok <==> alg_eval_ok(*self, alg@, fuel as nat),
            r matches Ok(t) ==> alg_evals_to(*self, alg@, t, fuel as nat),
            alg.nodes@.len() == 0 ==> (r matches Ok(t) && t.is_identity()),
        decreases fuel, 1int + alg_nodes_size(alg.nodes@), 0int,
    {
        let ghost vs = nodes_view(alg.nodes@);
        proof {
            nodes_view_len(alg.nodes@);
            assert(vs.take(0) =~= Seq::<AlgNodeView>::empty());
        }
        let mut t = self.identity_transformation();
        let n = alg.nodes.len();
        let mut k: usize = 0;
        while k < n
            invariant
                0 <= k <= n,
                t.valid(),
                t.kpuzzle_spec() == *self,
                alg_evals_to(*self, vs.take(k as int), t, fuel as nat),
                alg_eval_ok(*self, vs.take(k as int), fuel as nat),
            decreases n - k,
        {
            proof {
                alg_nodes_size_index(alg.nodes@, k as int);
                node_size_pos(alg.nodes@[k as int]);
                nodes_view_index(alg.nodes@, k as int);
            }
            let node_transformation = match self.transformation_from_node(&alg.nodes[k], fuel) {
                Ok(node_transformation) => node_transformation,
                Err(e) => {
                    proof {
                        if alg_eval_ok(*self, vs, fuel as nat) {
                            alg_eval_ok_index(*self, vs, k as int, fuel as nat);
                        }
                    }
                    return Err(e);
                },
            };
            let ghost t_before = t;
            t = t.apply_transformation(&node_transformation);
            proof {
                assert(vs.take(k + 1).drop_last() =~= vs.take(k as int));
                assert(vs.take(k + 1).last() == vs[k as int]);
                assert(t_before.valid());
                assert(node_transformation.valid());
                assert(alg_evals_to(*self, vs.take(k + 1), t, fuel as nat));
            }
            k = k + 1;
        }
        proof {
            assert(vs.take(n as int) =~= vs);
        }
        Ok(t)
    }

    /// Evaluates one node of an alg into a transformation.
    #[verifier::rlimit(60)]
    #[verifier::loop_isolation(false)]
    fn transformation_from_node(&self, node: &AlgNode, fuel: usize) -> (r: Result<
        KTransformation,
        InvalidAlgError,
    >)
        requires
            self.wf(),
        ensures
            r matches Ok(t) ==> t.valid() && t.kpuzzle_spec() == *self,
            r is Ok <==> node_eval_ok(*self, node@, fuel as nat),
            r matches Ok(t) ==> node_evals_to(*self, node@, t, fuel as nat),
        decreases fuel, node_size(*node), 1int,
    {
        match node {
            AlgNode::MoveNode(key_move) => self.transformation_from_move_with_fuel(key_move, fuel),
            AlgNode::PauseNode(_) => Ok(self.identity_transformation()),
            AlgNode::NewlineNode(_) => Ok(self.identity_transformation()),
            AlgNode::LineCommentNode(_) => Ok(self.identity_transformation()),
            AlgNode::GroupingNode(grouping) => {
                proof {
                    assert(decreases_to!(*node => *grouping));
                    assert(decreases_to!(*grouping => grouping.alg));
                    alg_nodes_size_nonneg(grouping.alg.nodes@);
                }
                if grouping.amount == i32::MIN {
                    return Err(
                        InvalidAlgError::InvalidMove(
                            InvalidMoveError {
                                description: String::from_str(
                                    "Grouping amount is too large to resolve.",
                                ),
                            },
                        ),
                    );
                }
                let inner = match self.transformation_from_alg_with_fuel(&grouping.alg, fuel) {
                    Ok(inner) => inner,
                    Err(e) => {
                        return Err(e);
                    },
                };
                let t = inner.self_multiply(grouping.amount);
                proof {
                    assert(inner.valid());
                    assert(node_evals_to(*self, node@, t, fuel as nat));
                }
                Ok(t)
            },
            AlgNode::CommutatorNode(commutator) => {
                proof {
                    assert(decreases_to!(*node => *commutator));
                    assert(decreases_to!(*commutator => commutator.a));
                    assert(decreases_to!(*commutator => commutator.b));
                    alg_nodes_size_nonneg(commutator.a.nodes@);
                    alg_nodes_size_nonneg(commutator.b.nodes@);
                }
                let a = match self.transformation_from_alg_with_fuel(&commutator.a, fuel) {
                    Ok(a) => a,
                    Err(e) => {
                        return Err(e);
                    },
                };
                let b = match self.transformation_from_alg_with_fuel(&commutator.b, fuel) {
                    Ok(b) => b,
                    Err(e) => {
                        return Err(e);
                    },
                };
                let a_prime = a.invert();
                let b_prime = b.invert();
                let tab = a.apply_transformation(&b);
                let taba = tab.apply_transformation(&a_prime);
                let t = taba.apply_transformation(&b_prime);
                proof {
                    assert(a.valid() && b.valid() && a_prime.valid() && b_prime.valid()
                        && tab.valid() && taba.valid());
                    assert(is_inversion_result(a_prime, a));
                    assert(is_inversion_result(b_prime, b));
                    assert(node_evals_to(*self, node@, t, fuel as nat));
                }
                Ok(t)
            },
            AlgNode::ConjugateNode(conjugate) => {
                proof {
                    assert(decreases_to!(*node => *conjugate));
                    assert(decreases_to!(*conjugate => conjugate.a));
                    assert(decreases_to!(*conjugate => conjugate.b));
                    alg_nodes_size_nonneg(conjugate.a.nodes@);
                    alg_nodes_size_nonneg(conjugate.b.nodes@);
                }
                let a = match self.transformation_from_alg_with_fuel(&conjugate.a, fuel) {
                    Ok(a) => a,
                    Err(e) => {
                        return Err(e);
                    },
                };
                let b = match self.transformation_from_alg_with_fuel(&conjugate.b, fuel) {
                    Ok(b) => b,
                    Err(e) => {
                        return Err(e);
                    },
                };
                let a_prime = a.invert();
                let tab = a.apply_transformation(&b);
                let t = tab.apply_transformation(&a_prime);
                proof {
                    assert(a.valid() && b.valid() && a_prime.valid() && tab.valid());
                    assert(is_inversion_result(a_prime, a));
                    assert(node_evals_to(*self, node@, t, fuel as nat));
                }
                Ok(t)
            },
        }
    }
}

impl KPattern {
    /// Applies the net transformation of one move to this pattern.
    /// Succeeds exactly when the move resolves on this pattern's puzzle,
    /// and the result is then the application of the resolved move's
    /// transformation.
    pub fn apply_move(&self, m: &Move) -> (r: Result<KPattern, InvalidAlgError>)
        requires
            self.valid_pattern(),
        ensures
            r matches Ok(pat) ==> pat.valid_pattern() && pat.kpuzzle_spec() == self.kpuzzle_spec(),
            r is Ok <==> move_eval_ok(self.kpuzzle_spec(), m@, depth_budget(self.kpuzzle_spec())),
            r matches Ok(pat) ==> exists|t: KTransformation|
                {
                    &&& #[trigger] t.valid()
                    &&& t.kpuzzle_spec() == self.kpuzzle_spec()
                    &&& move_evals_to(self.kpuzzle_spec(), m@, t, depth_budget(self.kpuzzle_spec()))
                    &&& is_pattern_application(pat, *self, t)
                },
    {
        let transformation = match self.packed_orbit_data.kpuzzle.transformation_from_move(m) {
            Ok(transformation) => transformation,
            Err(e) => {
                return Err(e);
            },
        };
        let r = self.apply_transformation(&transformation);
        proof {
            assert(transformation.valid());
        }
        Ok(r)
    }

    /// Applies the net transformation of a whole alg to this pattern.
    /// Succeeds exactly when every move of the alg resolves on this
    /// pattern's puzzle, and the result is then the application of the
    /// alg's evaluated transformation.
    pub fn apply_alg(&self, alg: &Alg) -> (r: Result<KPattern, InvalidAlgError>)
        requires
            self.valid_pattern(),
        ensures
            r matches Ok(pat) ==> pat.valid_pattern() && pat.kpuzzle_spec() == self.kpuzzle_spec(),
            r is Ok <==> alg_eval_ok(
                self.kpuzzle_spec(),
                alg@,
                depth_budget(self.kpuzzle_spec()),
            ),
            r matches Ok(pat) ==> exists|t: KTransformation|
                {
                    &&& #[trigger] t.valid()
                    &&& t.kpuzzle_spec() == self.kpuzzle_spec()
                    &&& alg_evals_to(
                        self.kpuzzle_spec(),
                        alg@,
                        t,
                        depth_budget(self.kpuzzle_spec()),
                    )
                    &&& is_pattern_application(pat, *self, t)
                },
            alg.nodes@.len() == 0 ==> (r matches Ok(pat) && pat.bytes() == self.bytes()),
    {
        let transformation = match self.packed_orbit_data.kpuzzle.transformation_from_alg(alg) {
            Ok(transformation) => transformation,
            Err(e) => {
                return Err(e);
            },
        };
        let r = self.apply_transformation(&transformation);
        proof {
            assert(transformation.valid());
            if alg.nodes@.len() == 0 {
                crate::kpuzzle::laws::lemma_pattern_apply_identity(*self, transformation, r);
            }
        }
        Ok(r)
    }
}

impl KPuzzle {
    /// Parses notation text and evaluates it in one step: on success the
    /// result is the evaluation of some successfully evaluated alg value
    /// (the one the parser produced).
    pub fn transformation_from_str(&self, alg_str: &str) -> (r: Result<
        KTransformation,
        InvalidAlgError,
    >)
        requires
            self.wf(),
        ensures
            r matches Ok(t) ==> t.valid() && t.kpuzzle_spec() == *self,
            r matches Ok(t) ==> exists|nodes: Seq<AlgNodeView>|
                #[trigger] alg_evals_to(*self, nodes, t, depth_budget(*self)) && alg_eval_ok(
                    *self,
                    nodes,
                    depth_budget(*self),
                ),
    {
        let alg = match crate::alg::parse::parse_alg_string(alg_str) {
            Ok(alg) => alg,
            Err(e) => {
                return Err(InvalidAlgError::AlgParse(e));
            },
        };
        let r = self.transformation_from_alg(&alg);
        proof {
            if r is Ok {
                assert(alg_evals_to(*self, alg@, r->Ok_0, depth_budget(*self)));
            }
        }
        r
    }
}

/// A grouping with amount zero evaluates to the identity, whatever its
/// contents: the inner transformation is raised to the zeroth power.
pub proof fn lemma_grouping_zero_evaluates_to_identity(
    p: KPuzzle,
    inner_nodes: Seq<AlgNodeView>,
    t: KTransformation,
    fuel: nat,
)
    requires
        node_evals_to(p, AlgNodeView::GroupingNode(inner_nodes, 0), t, fuel),
    ensures
        t.is_identity(),
{
    let inner = choose|inner: KTransformation|
        {
            &&& #[trigger] inner.valid()
            &&& inner.kpuzzle_spec() == p
            &&& alg_evals_to(p, inner_nodes, inner, fuel)
            &&& is_signed_power(t, inner, 0)
            &&& t.valid()
            &&& t.kpuzzle_spec() == p
        };
    lemma_power_zero_identity(t, inner);
}

/// An alg that is one grouping with amount zero evaluates to the
/// identity, whatever the grouping holds.
pub proof fn lemma_grouping_zero_alg_evaluates_to_identity(
    p: KPuzzle,
    nodes: Seq<AlgNodeView>,
    inner_nodes: Seq<AlgNodeView>,
    t: KTransformation,
    fuel: nat,
)
    requires
        p.wf(),
        nodes == seq![AlgNodeView::GroupingNode(inner_nodes, 0)],
        alg_evals_to(p, nodes, t, fuel),
    ensures
        t.is_identity(),
{
    assert(nodes.len() == 1);
    let (t1, t2) = choose|t1: KTransformation, t2: KTransformation|
        #![trigger t1.valid(), t2.valid()]
        {
            &&& t1.valid()
            &&& t2.valid()
            &&& alg_evals_to(p, nodes.drop_last(), t1, fuel)
            &&& node_evals_to(p, nodes.last(), t2, fuel)
            &&& is_composition(t, t1, t2)
            &&& t.valid()
            &&& t.kpuzzle_spec() == p
        };
    assert(nodes.drop_last() =~= Seq::<AlgNodeView>::empty());
    assert(nodes.last() == AlgNodeView::GroupingNode(inner_nodes, 0));
    assert(t1.is_identity());
    lemma_grouping_zero_evaluates_to_identity(p, inner_nodes, t2, fuel);
    assert(t.wf());
    assert forall|o: int, i: int| t.in_range(o, i) implies #[trigger] t.perm_at(o, i) == i by {
        assert(t1.in_range(o, i));
        assert(t2.perm_at(o, i) == i);
        assert(t.perm_at(o, i) == t1.perm_at(o, t2.perm_at(o, i)));
        assert(t1.perm_at(o, i) == i);
    }
    assert forall|o: int, i: int| t.in_range(o, i) implies #[trigger] t.delta_at(o, i) == 0 by {
        assert(t1.in_range(o, i));
        assert(t2.perm_at(o, i) == i);
        assert(t2.delta_at(o, i) == 0);
        assert(t1.delta_at(o, i) == 0);
        assert(1 <= t1.num_or(o));
        assert(t.delta_at(o, i) == (t1.delta_at(o, t2.perm_at(o, i)) + t2.delta_at(o, i)) % t1.num_or(o));
    }
}

} // verus!
