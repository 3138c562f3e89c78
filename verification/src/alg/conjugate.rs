use vstd::prelude::*;

use crate::alg::sequence::Alg;
use crate::alg::sequence::clone_alg;
use crate::alg::sequence::nodes_view;
use crate::alg::view::AlgNodeView;
use crate::alg::view::invert_node_view;
use crate::alg::view::invertible_node;
use crate::alg::view::invertible_nodes;

verus! {

/// A conjugate `[A: B]`, meaning `A B A'`.
#[derive(Debug, PartialEq)]
pub struct Conjugate {
    pub a: Box<Alg>,
    pub b: Box<Alg>,
}

impl View for Conjugate {
    type V = AlgNodeView;

    open spec fn view(&self) -> AlgNodeView {
        AlgNodeView::ConjugateNode(nodes_view(self.a.nodes@), nodes_view(self.b.nodes@))
    }
}

impl Conjugate {
    /// The inverse conjugate: `[A: B]' == [A: B']`.
    pub fn invert(&self) -> (r: Conjugate)
        requires
            invertible_node(self@),
        ensures
            r@ == invert_node_view(self@),
        decreases *self,
    {
        proof {
            assert(decreases_to!(*self => self.b));
            assert(invertible_nodes(nodes_view(self.b.nodes@)));
        }
        let r = Conjugate {
            a: Box::new(clone_alg(&self.a)),
            b: Box::new(self.b.invert()),
        };
        proof {
            assert(r@ =~~= invert_node_view(self@));
        }
        r
    }
}

impl Clone for Conjugate {
    fn clone(&self) -> (r: Self)
        ensures
            r@ == self@,
    {
        let r = Conjugate {
            a: Box::new(clone_alg(&self.a)),
            b: Box::new(clone_alg(&self.b)),
        };
        proof {
            assert(r@ =~~= self@);
        }
        r
    }
}

} // verus!
