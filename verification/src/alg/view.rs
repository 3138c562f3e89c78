use vstd::prelude::*;

use crate::alg::quantum_move::MovePrefix;

verus! {

/// The mathematical value of a [`crate::alg::QuantumMove`]: its family name
/// as a character sequence plus its optional layer prefix.
pub struct QuantumMoveView {
    pub family: Seq<char>,
    pub prefix: Option<MovePrefix>,
}

/// The mathematical value of a [`crate::alg::Move`].
pub struct MoveView {
    pub quantum: QuantumMoveView,
    pub amount: int,
}

/// The mathematical value of one node of an alg. An alg's value is a
/// sequence of these.
pub enum AlgNodeView {
    MoveNode(MoveView),
    PauseNode,
    NewlineNode,
    LineCommentNode(Seq<char>),
    GroupingNode(Seq<AlgNodeView>, int),
    CommutatorNode(Seq<AlgNodeView>, Seq<AlgNodeView>),
    ConjugateNode(Seq<AlgNodeView>, Seq<AlgNodeView>),
}

/// The family name that marks a Square-1 slash move, whose inverse is itself.
pub open spec fn slash_family() -> Seq<char> {
    "_SLASH_"@
}

/// The quantum of the top move of a Square-1 tuple.
pub open spec fn u_sq_view() -> QuantumMoveView {
    QuantumMoveView { family: "U_SQ_"@, prefix: None }
}

/// The quantum of the bottom move of a Square-1 tuple.
pub open spec fn d_sq_view() -> QuantumMoveView {
    QuantumMoveView { family: "D_SQ_"@, prefix: None }
}

/// The inverse of a single move: the amount is negated, except for the
/// Square-1 slash, which is its own inverse.
pub open spec fn invert_move_view(m: MoveView) -> MoveView {
    if m.quantum.family == slash_family() && m.quantum.prefix is None {
        m
    } else {
        MoveView { quantum: m.quantum, amount: -m.amount }
    }
}

/// Whether a grouping's contents are a Square-1 tuple `(a, b)`: exactly a
/// top move and a bottom move, with the grouping at amount 1.
pub open spec fn is_square1_tuple(nodes: Seq<AlgNodeView>, amount: int) -> bool {
    &&& amount == 1
    &&& nodes.len() == 2
    &&& nodes[0] matches AlgNodeView::MoveNode(m0) && m0.quantum == u_sq_view()
    &&& nodes[1] matches AlgNodeView::MoveNode(m1) && m1.quantum == d_sq_view()
}

/// The inverse of one alg node.
pub open spec fn invert_node_view(n: AlgNodeView) -> AlgNodeView
    decreases n,
{
    match n {
        AlgNodeView::MoveNode(m) => AlgNodeView::MoveNode(invert_move_view(m)),
        AlgNodeView::PauseNode => AlgNodeView::PauseNode,
        AlgNodeView::NewlineNode => AlgNodeView::NewlineNode,
        AlgNodeView::LineCommentNode(text) => AlgNodeView::LineCommentNode(text),
        AlgNodeView::GroupingNode(nodes, amount) => {
            if is_square1_tuple(nodes, amount) {
                AlgNodeView::GroupingNode(
                    Seq::empty().push(invert_node_view(nodes[0])).push(invert_node_view(nodes[1])),
                    1,
                )
            } else {
                AlgNodeView::GroupingNode(nodes, -amount)
            }
        },
        AlgNodeView::CommutatorNode(a, b) => AlgNodeView::CommutatorNode(b, a),
        AlgNodeView::ConjugateNode(a, b) => AlgNodeView::ConjugateNode(a, invert_nodes_view(b)),
    }
}

/// The inverse of an alg: the nodes reversed, each inverted.
pub open spec fn invert_nodes_view(nodes: Seq<AlgNodeView>) -> Seq<AlgNodeView>
    decreases nodes,
{
    if nodes.len() == 0 {
        Seq::empty()
    } else {
        invert_nodes_view(nodes.drop_first()).push(invert_node_view(nodes.first()))
    }
}

pub proof fn invert_nodes_view_len(nodes: Seq<AlgNodeView>)
    ensures
        invert_nodes_view(nodes).len() == nodes.len(),
    decreases nodes.len(),
{
    if nodes.len() > 0 {
        invert_nodes_view_len(nodes.drop_first());
    }
}

/// Whether every amount in the node's value is above `i32::MIN`, so that
/// inverting can negate each without overflow.
pub open spec fn invertible_node(n: AlgNodeView) -> bool
    decreases n,
{
    match n {
        AlgNodeView::MoveNode(m) => m.amount > i32::MIN,
        AlgNodeView::PauseNode => true,
        AlgNodeView::NewlineNode => true,
        AlgNodeView::LineCommentNode(_) => true,
        AlgNodeView::GroupingNode(nodes, amount) => amount > i32::MIN && invertible_nodes(nodes),
        AlgNodeView::CommutatorNode(a, b) => invertible_nodes(a) && invertible_nodes(b),
        AlgNodeView::ConjugateNode(a, b) => invertible_nodes(a) && invertible_nodes(b),
    }
}

/// Whether every amount in the sequence's value is above `i32::MIN`.
pub open spec fn invertible_nodes(nodes: Seq<AlgNodeView>) -> bool
    decreases nodes,
{
    nodes.len() == 0 || (invertible_nodes(nodes.drop_last()) && invertible_node(nodes.last()))
}

pub proof fn invertible_nodes_index(nodes: Seq<AlgNodeView>, i: int)
    requires
        invertible_nodes(nodes),
        0 <= i < nodes.len(),
    ensures
        invertible_node(nodes[i]),
    decreases nodes.len(),
{
    if i < nodes.len() - 1 {
        invertible_nodes_index(nodes.drop_last(), i);
    }
}

} // verus!
