use vstd::prelude::*;

use crate::alg::alg_node::AlgNode;
use crate::alg::mv::Move;
use crate::alg::sequence::Alg;
use crate::alg::sequence::clone_alg;
use crate::alg::sequence::nodes_view;
use crate::alg::sequence::nodes_view_index;
use crate::alg::sequence::nodes_view_len;
use crate::alg::special_notation::is_square1_top;
use crate::alg::special_notation::is_square1_bottom;
use crate::alg::view::AlgNodeView;
use crate::alg::view::invert_node_view;
use crate::alg::view::invertible_node;
use crate::alg::view::is_square1_tuple;

verus! {

/// A grouped sub-alg raised to an amount, written `(A)n`.
#[derive(Debug, PartialEq)]
pub struct Grouping {
    pub alg: Box<Alg>,
    pub amount: i32,
}

impl View for Grouping {
    type V = AlgNodeView;

    open spec fn view(&self) -> AlgNodeView {
        AlgNodeView::GroupingNode(nodes_view(self.alg.nodes@), self.amount as int)
    }
}

impl Grouping {
    /// The inverse grouping. A Square-1 tuple `(a, b)` inverts to
    /// `(-a, -b)`; any other grouping keeps its alg and negates its amount.
    pub fn invert(&self) -> (r: Grouping)
        requires
            invertible_node(self@),
        ensures
            r@ == invert_node_view(self@),
    {
        match self.square1_tuple() {
            Some((move_0, move_1)) => {
                proof {
                    nodes_view_index(self.alg.nodes@, 0);
                    nodes_view_index(self.alg.nodes@, 1);
                    crate::alg::view::invertible_nodes_index(nodes_view(self.alg.nodes@), 0);
                    crate::alg::view::invertible_nodes_index(nodes_view(self.alg.nodes@), 1);
                }
                let inv_0 = move_0.invert();
                let inv_1 = move_1.invert();
                let mut nodes: Vec<AlgNode> = Vec::new();
                nodes.push(AlgNode::MoveNode(inv_0));
                nodes.push(AlgNode::MoveNode(inv_1));
                let r = Grouping { alg: Box::new(Alg { nodes }), amount: 1 };
                proof {
                    let gnodes = r.alg.nodes@;
                    assert(gnodes.len() == 2);
                    assert(gnodes.drop_last() =~= gnodes.subrange(0, 1));
                    assert(gnodes.subrange(0, 1).drop_last() =~= Seq::<AlgNode>::empty());
                    assert(nodes_view(Seq::<AlgNode>::empty()) == Seq::<AlgNodeView>::empty());
                    assert(nodes_view(gnodes.subrange(0, 1)) == Seq::<AlgNodeView>::empty().push(
                        crate::alg::alg_node::node_view(gnodes[0]),
                    ));
                    assert(nodes_view(gnodes) == nodes_view(gnodes.subrange(0, 1)).push(
                        crate::alg::alg_node::node_view(gnodes[1]),
                    ));
                    let nv = nodes_view(self.alg.nodes@);
                    assert(invert_node_view(nv[0]) == AlgNodeView::MoveNode(
                        crate::alg::view::invert_move_view(move_0@),
                    ));
                    assert(invert_node_view(nv[1]) == AlgNodeView::MoveNode(
                        crate::alg::view::invert_move_view(move_1@),
                    ));
                    assert(r@ =~~= invert_node_view(self@));
                }
                r
            },
            None => {
                let r = Grouping { alg: Box::new(clone_alg(&self.alg)), amount: -self.amount };
                proof {
                    assert(r@ =~~= invert_node_view(self@));
                }
                r
            },
        }
    }

    /// The two moves of a Square-1 tuple grouping, if this is one: amount 1
    /// and exactly a top move followed by a bottom move.
    pub fn square1_tuple(&self) -> (r: Option<(&Move, &Move)>)
        ensures
            r matches Some((m0, m1)) ==> {
                &&& is_square1_tuple(nodes_view(self.alg.nodes@), self.amount as int)
                &&& self.alg.nodes@.len() == 2
                &&& self.alg.nodes@[0] == AlgNode::MoveNode(*m0)
                &&& self.alg.nodes@[1] == AlgNode::MoveNode(*m1)
            },
            r is None ==> !is_square1_tuple(nodes_view(self.alg.nodes@), self.amount as int),
    {
        proof {
            nodes_view_len(self.alg.nodes@);
            if self.alg.nodes@.len() == 2 {
                nodes_view_index(self.alg.nodes@, 0);
                nodes_view_index(self.alg.nodes@, 1);
            }
        }
        if self.alg.nodes.len() == 2 && self.amount == 1 {
            if let AlgNode::MoveNode(move_0) = &self.alg.nodes[0] {
                if is_square1_top(&move_0.quantum) {
                    if let AlgNode::MoveNode(move_1) = &self.alg.nodes[1] {
                        if is_square1_bottom(&move_1.quantum) {
                            return Some((move_0, move_1));
                        }
                    }
                }
            }
        }
        None
    }
}

impl Clone for Grouping {
    fn clone(&self) -> (r: Self)
        ensures
            r@ == self@,
    {
        let r = Grouping { alg: Box::new(clone_alg(&self.alg)), amount: self.amount };
        proof {
            assert(r@ =~~= self@);
        }
        r
    }
}

} // verus!
