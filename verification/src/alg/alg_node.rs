use vstd::prelude::*;

use crate::alg::commutator::Commutator;
use crate::alg::conjugate::Conjugate;
use crate::alg::grouping::Grouping;
use crate::alg::line_comment::LineComment;
use crate::alg::mv::Move;
use crate::alg::newline::Newline;
use crate::alg::pause::Pause;
use crate::alg::view::AlgNodeView;
use crate::alg::view::invert_node_view;
use crate::alg::view::invertible_node;

verus! {

/// One node of an alg: a move, a pause, a newline, a comment, or a nested
/// grouping, commutator or conjugate.
#[derive(Debug, PartialEq)]
pub enum AlgNode {
    MoveNode(Move),
    PauseNode(Pause),
    NewlineNode(Newline),
    LineCommentNode(LineComment),
    GroupingNode(Grouping),
    CommutatorNode(Commutator),
    ConjugateNode(Conjugate),
}

/// The value of one node.
pub open spec fn node_view(n: AlgNode) -> AlgNodeView
    decreases n,
{
    match n {
        AlgNode::MoveNode(m) => AlgNodeView::MoveNode(m@),
        AlgNode::PauseNode(_) => AlgNodeView::PauseNode,
        AlgNode::NewlineNode(_) => AlgNodeView::NewlineNode,
        AlgNode::LineCommentNode(c) => AlgNodeView::LineCommentNode(c@),
        AlgNode::GroupingNode(g) => AlgNodeView::GroupingNode(
            crate::alg::sequence::nodes_view(g.alg.nodes@),
            g.amount as int,
        ),
        AlgNode::CommutatorNode(c) => AlgNodeView::CommutatorNode(
            crate::alg::sequence::nodes_view(c.a.nodes@),
            crate::alg::sequence::nodes_view(c.b.nodes@),
        ),
        AlgNode::ConjugateNode(c) => AlgNodeView::ConjugateNode(
            crate::alg::sequence::nodes_view(c.a.nodes@),
            crate::alg::sequence::nodes_view(c.b.nodes@),
        ),
    }
}

impl View for AlgNode {
    type V = AlgNodeView;

    open spec fn view(&self) -> AlgNodeView {
        node_view(*self)
    }
}

/// The inverse of one node.
pub fn invert_alg_node(n: &AlgNode) -> (r: AlgNode)
    requires
        invertible_node(n@),
    ensures
        r@ == invert_node_view(n@),
    decreases *n,
{
    match n {
        AlgNode::MoveNode(m) => AlgNode::MoveNode(m.invert()),
        AlgNode::PauseNode(p) => AlgNode::PauseNode(p.invert()),
        AlgNode::NewlineNode(nl) => AlgNode::NewlineNode(nl.invert()),
        AlgNode::LineCommentNode(c) => AlgNode::LineCommentNode(c.invert()),
        AlgNode::GroupingNode(g) => AlgNode::GroupingNode(g.invert()),
        AlgNode::CommutatorNode(c) => AlgNode::CommutatorNode(c.invert()),
        AlgNode::ConjugateNode(c) => {
            proof {
                assert(decreases_to!(*n => *c));
            }
            AlgNode::ConjugateNode(c.invert())
        },
    }
}

/// Clones one node; the clone has the same value.
pub fn clone_node(n: &AlgNode) -> (r: AlgNode)
    ensures
        r@ == n@,
    decreases *n,
{
    match n {
        AlgNode::MoveNode(m) => AlgNode::MoveNode(m.clone()),
        AlgNode::PauseNode(p) => AlgNode::PauseNode(*p),
        AlgNode::NewlineNode(nl) => AlgNode::NewlineNode(*nl),
        AlgNode::LineCommentNode(c) => AlgNode::LineCommentNode(c.clone()),
        AlgNode::GroupingNode(g) => {
            proof {
                assert(decreases_to!(*n => *g));
                assert(decreases_to!(*g => g.alg));
            }
            let r = AlgNode::GroupingNode(
                Grouping { alg: Box::new(crate::alg::sequence::clone_alg(&g.alg)), amount: g.amount },
            );
            proof {
                assert(r@ =~~= n@);
            }
            r
        },
        AlgNode::CommutatorNode(c) => {
            proof {
                assert(decreases_to!(*n => *c));
                assert(decreases_to!(*c => c.a));
                assert(decreases_to!(*c => c.b));
            }
            let r = AlgNode::CommutatorNode(
                Commutator {
                    a: Box::new(crate::alg::sequence::clone_alg(&c.a)),
                    b: Box::new(crate::alg::sequence::clone_alg(&c.b)),
                },
            );
            proof {
                assert(r@ =~~= n@);
            }
            r
        },
        AlgNode::ConjugateNode(c) => {
            proof {
                assert(decreases_to!(*n => *c));
                assert(decreases_to!(*c => c.a));
                assert(decreases_to!(*c => c.b));
            }
            let r = AlgNode::ConjugateNode(
                Conjugate {
                    a: Box::new(crate::alg::sequence::clone_alg(&c.a)),
                    b: Box::new(crate::alg::sequence::clone_alg(&c.b)),
                },
            );
            proof {
                assert(r@ =~~= n@);
            }
            r
        },
    }
}

impl AlgNode {
    /// The inverse of this node.
    pub fn invert(&self) -> (r: AlgNode)
        requires
            invertible_node(self@),
        ensures
            r@ == invert_node_view(self@),
    {
        invert_alg_node(self)
    }
}

impl Clone for AlgNode {
    fn clone(&self) -> (r: Self)
        ensures
            r@ == self@,
    {
        clone_node(self)
    }
}

impl From<Move> for AlgNode {
    fn from(input: Move) -> (r: Self) {
        AlgNode::MoveNode(input)
    }
}

impl vstd::std_specs::convert::FromSpecImpl<Move> for AlgNode {
    open spec fn obeys_from_spec() -> bool {
        true
    }

    open spec fn from_spec(input: Move) -> Self {
        AlgNode::MoveNode(input)
    }
}

impl From<Pause> for AlgNode {
    fn from(input: Pause) -> (r: Self) {
        AlgNode::PauseNode(input)
    }
}

impl vstd::std_specs::convert::FromSpecImpl<Pause> for AlgNode {
    open spec fn obeys_from_spec() -> bool {
        true
    }

    open spec fn from_spec(input: Pause) -> Self {
        AlgNode::PauseNode(input)
    }
}

impl From<Newline> for AlgNode {
    fn from(input: Newline) -> (r: Self) {
        AlgNode::NewlineNode(input)
    }
}

impl vstd::std_specs::convert::FromSpecImpl<Newline> for AlgNode {
    open spec fn obeys_from_spec() -> bool {
        true
    }

    open spec fn from_spec(input: Newline) -> Self {
        AlgNode::NewlineNode(input)
    }
}

impl From<LineComment> for AlgNode {
    fn from(input: LineComment) -> (r: Self) {
        AlgNode::LineCommentNode(input)
    }
}

impl vstd::std_specs::convert::FromSpecImpl<LineComment> for AlgNode {
    open spec fn obeys_from_spec() -> bool {
        true
    }

    open spec fn from_spec(input: LineComment) -> Self {
        AlgNode::LineCommentNode(input)
    }
}

impl From<Grouping> for AlgNode {
    fn from(input: Grouping) -> (r: Self) {
        AlgNode::GroupingNode(input)
    }
}

impl vstd::std_specs::convert::FromSpecImpl<Grouping> for AlgNode {
    open spec fn obeys_from_spec() -> bool {
        true
    }

    open spec fn from_spec(input: Grouping) -> Self {
        AlgNode::GroupingNode(input)
    }
}

impl From<Commutator> for AlgNode {
    fn from(input: Commutator) -> (r: Self) {
        AlgNode::CommutatorNode(input)
    }
}

impl vstd::std_specs::convert::FromSpecImpl<Commutator> for AlgNode {
    open spec fn obeys_from_spec() -> bool {
        true
    }

    open spec fn from_spec(input: Commutator) -> Self {
        AlgNode::CommutatorNode(input)
    }
}

impl From<Conjugate> for AlgNode {
    fn from(input: Conjugate) -> (r: Self) {
        AlgNode::ConjugateNode(input)
    }
}

impl vstd::std_specs::convert::FromSpecImpl<Conjugate> for AlgNode {
    open spec fn obeys_from_spec() -> bool {
        true
    }

    open spec fn from_spec(input: Conjugate) -> Self {
        AlgNode::ConjugateNode(input)
    }
}

} // verus!
