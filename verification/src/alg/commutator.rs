use vstd::prelude::*;

use crate::alg::sequence::Alg;
use crate::alg::sequence::clone_alg;
use crate::alg::sequence::nodes_view;
use crate::alg::view::AlgNodeView;
use crate::alg::view::invert_node_view;

verus! {

/// A commutator `[A, B]`, meaning `A B A' B'`.
#[derive(Debug, PartialEq)]
pub struct Commutator {
    pub a: Box<Alg>,
    pub b: Box<Alg>,
}

impl View for Commutator {
    type V = AlgNodeView;

    open spec fn view(&self) -> AlgNodeView {
        AlgNodeView::CommutatorNode(nodes_view(self.a.nodes@), nodes_view(self.b.nodes@))
    }
}

impl Commutator {
    /// The inverse commutator: `[A, B]' == [B, A]`.
    pub fn invert(&self) -> (r: Commutator)
        ensures
            r@ == invert_node_view(self@),
    {
        let r = Commutator {
            a: Box::new(clone_alg(&self.b)),
            b: Box::new(clone_alg(&self.a)),
        };
        proof {
            assert(r@ =~~= invert_node_view(self@));
        }
        r
    }
}

impl Clone for Commutator {
    fn clone(&self) -> (r: Self)
        ensures
            r@ == self@,
    {
        let r = Commutator {
            a: Box::new(clone_alg(&self.a)),
            b: Box::new(clone_alg(&self.b)),
        };
        proof {
            assert(r@ =~~= self@);
        }
        r
    }
}

} // verus!
