use vstd::prelude::*;

use crate::alg::alg_node::AlgNode;
use crate::alg::alg_node::clone_node;
use crate::alg::sequence::Alg;
use crate::alg::sequence::clone_alg;
use crate::alg::sequence::nodes_view;
use crate::alg::sequence::nodes_view_push;
use crate::alg::view::AlgNodeView;

verus! {

/// One piece handed to an [`AlgBuilder`]: either a whole alg, whose nodes
/// are spliced in, or a single node.
pub enum AlgFragment {
    Alg(Alg),
    AlgNode(AlgNode),
}

/// The node values a fragment contributes to the built alg.
pub open spec fn fragment_nodes(f: AlgFragment) -> Seq<AlgNodeView> {
    match f {
        AlgFragment::Alg(a) => a@,
        AlgFragment::AlgNode(n) => seq![n@],
    }
}

impl<'a> From<&'a Alg> for AlgFragment {
    fn from(alg: &'a Alg) -> (r: AlgFragment) {
        AlgFragment::Alg(clone_alg(alg))
    }
}

impl<'a> vstd::std_specs::convert::FromSpecImpl<&'a Alg> for AlgFragment {
    open spec fn obeys_from_spec() -> bool {
        false
    }

    open spec fn from_spec(alg: &'a Alg) -> Self {
        AlgFragment::Alg(*alg)
    }
}

impl<'a> From<&'a AlgNode> for AlgFragment {
    fn from(alg_node: &'a AlgNode) -> (r: AlgFragment) {
        AlgFragment::AlgNode(clone_node(alg_node))
    }
}

impl<'a> vstd::std_specs::convert::FromSpecImpl<&'a AlgNode> for AlgFragment {
    open spec fn obeys_from_spec() -> bool {
        false
    }

    open spec fn from_spec(alg_node: &'a AlgNode) -> Self {
        AlgFragment::AlgNode(*alg_node)
    }
}

/// Collects fragments and concatenates them into one alg.
pub struct AlgBuilder {
    fragments: Vec<AlgFragment>,
}

impl View for AlgBuilder {
    type V = Seq<AlgNodeView>;

    closed spec fn view(&self) -> Seq<AlgNodeView> {
        fragments_nodes(self.fragments@)
    }
}

/// The node values of a fragment sequence, in order.
pub open spec fn fragments_nodes(s: Seq<AlgFragment>) -> Seq<AlgNodeView>
    decreases s,
{
    if s.len() == 0 {
        Seq::empty()
    } else {
        fragments_nodes(s.drop_last()) + fragment_nodes(s.last())
    }
}

impl AlgBuilder {
    /// An empty builder.
    pub fn new() -> (r: AlgBuilder)
        ensures
            r@ == Seq::<AlgNodeView>::empty(),
    {
        AlgBuilder { fragments: Vec::new() }
    }

    /// Appends a fragment.
    pub fn push(&mut self, fragment: AlgFragment)
        ensures
            final(self)@ == old(self)@ + fragment_nodes(fragment),
    {
        let ghost before = self.fragments@;
        self.fragments.push(fragment);
        proof {
            assert(self.fragments@.drop_last() =~= before);
        }
    }

    /// Concatenates every pushed fragment, in order, into one alg.
    pub fn to_alg(self) -> (r: Alg)
        ensures
            r@ == self@,
    {
        let AlgBuilder { fragments } = self;
        let mut nodes: Vec<AlgNode> = Vec::new();
        let n = fragments.len();
        let mut k: usize = 0;
        for k in 0..n
            invariant
                n == fragments@.len(),
                nodes_view(nodes@) == fragments_nodes(fragments@.subrange(0, k as int)),
        {
            proof {
                assert(fragments@.subrange(0, k + 1).drop_last() =~= fragments@.subrange(
                    0,
                    k as int,
                ));
                assert(fragments@.subrange(0, k + 1).last() == fragments@[k as int]);
            }
            match &fragments[k] {
                AlgFragment::Alg(a) => {
                    let m = a.nodes.len();
                    for j in 0..m
                        invariant
                            m == a.nodes@.len(),
                            nodes_view(nodes@) == fragments_nodes(
                                fragments@.subrange(0, k as int),
                            ) + nodes_view(a.nodes@.subrange(0, j as int)),
                    {
                        let c = clone_node(&a.nodes[j]);
                        let ghost before = nodes@;
                        nodes.push(c);
                        proof {
                            nodes_view_push(before, c);
                            assert(a.nodes@.subrange(0, j + 1).drop_last() =~= a.nodes@.subrange(
                                0,
                                j as int,
                            ));
                            assert(a.nodes@.subrange(0, j + 1).last() == a.nodes@[j as int]);
                        }
                    }
                    proof {
                        assert(a.nodes@.subrange(0, m as int) =~= a.nodes@);
                    }
                },
                AlgFragment::AlgNode(node) => {
                    let c = clone_node(node);
                    let ghost before = nodes@;
                    nodes.push(c);
                    proof {
                        nodes_view_push(before, c);
                    }
                },
            }
        }
        proof {
            assert(fragments@.subrange(0, n as int) =~= fragments@);
        }
        Alg { nodes }
    }
}

impl Default for AlgBuilder {
    fn default() -> (r: Self)
        ensures
            r@ == Seq::<AlgNodeView>::empty(),
    {
        AlgBuilder::new()
    }
}

} // verus!
