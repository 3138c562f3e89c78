use vstd::prelude::*;

use crate::alg::alg_node::AlgNode;
use crate::alg::alg_node::clone_node;
use crate::alg::alg_node::invert_alg_node;
use crate::alg::alg_node::node_view;
use crate::alg::view::AlgNodeView;
use crate::alg::view::invert_node_view;
use crate::alg::view::invert_nodes_view;
use crate::alg::view::invertible_nodes;
use crate::alg::view::invertible_nodes_index;

verus! {

/// An alg: a sequence of nodes (moves, pauses, comments, groupings,
/// commutators, conjugates), applied left to right.
#[derive(Debug, Default, PartialEq)]
pub struct Alg {
    pub nodes: Vec<AlgNode>,
}

/// The value of a node sequence: each node's value, in order.
pub open spec fn nodes_view(s: Seq<AlgNode>) -> Seq<AlgNodeView>
    decreases s,
{
    if s.len() == 0 {
        Seq::empty()
    } else {
        nodes_view(s.drop_last()).push(node_view(s.last()))
    }
}

pub proof fn nodes_view_len(s: Seq<AlgNode>)
    ensures
        nodes_view(s).len() == s.len(),
    decreases s.len(),
{
    if s.len() > 0 {
        nodes_view_len(s.drop_last());
    }
}

pub proof fn nodes_view_index(s: Seq<AlgNode>, i: int)
    requires
        0 <= i < s.len(),
    ensures
        nodes_view(s).len() == s.len(),
        nodes_view(s)[i] == s[i]@,
    decreases s.len(),
{
    nodes_view_len(s);
    if i < s.len() - 1 {
        nodes_view_index(s.drop_last(), i);
    } else {
        nodes_view_len(s.drop_last());
    }
}

pub proof fn nodes_view_push(s: Seq<AlgNode>, n: AlgNode)
    ensures
        nodes_view(s.push(n)) == nodes_view(s).push(n@),
{
    assert(s.push(n).drop_last() =~= s);
    assert(s.push(n).last() == n);
}

impl View for Alg {
    type V = Seq<AlgNodeView>;

    open spec fn view(&self) -> Seq<AlgNodeView> {
        nodes_view(self.nodes@)
    }
}

impl Alg {
    /// The inverse alg: the nodes in reverse order, each inverted.
    pub fn invert(&self) -> (r: Alg)
        requires
            invertible_nodes(self@),
        ensures
            r@ == invert_nodes_view(self@),
        decreases *self,
    {
        let ghost va = nodes_view(self.nodes@);
        let n = self.nodes.len();
        let mut nodes: Vec<AlgNode> = Vec::new();
        proof {
            nodes_view_len(self.nodes@);
        }
        let mut k: usize = 0;
        while k < n
            invariant
                0 <= k <= n,
                n == self.nodes@.len(),
                va == nodes_view(self.nodes@),
                va.len() == n,
                invertible_nodes(va),
                nodes@.len() == k,
                nodes_view(nodes@) == invert_nodes_view(va.subrange(n - k, n as int)),
            decreases n - k,
        {
            let i = n - 1 - k;
            proof {
                assert(decreases_to!(*self => self.nodes));
                assert(decreases_to!(self.nodes => self.nodes@));
                assert(decreases_to!(self.nodes@ => self.nodes@[i as int]));
                nodes_view_index(self.nodes@, i as int);
                invertible_nodes_index(va, i as int);
            }
            let inverted = invert_alg_node(&self.nodes[i]);
            let ghost before = nodes@;
            nodes.push(inverted);
            proof {
                nodes_view_push(before, inverted);
                let tail = va.subrange(n - k, n as int);
                let tail1 = va.subrange(i as int, n as int);
                assert(tail1.drop_first() =~= tail);
                assert(tail1.first() == va[i as int]);
                assert(invert_nodes_view(tail1) == invert_nodes_view(tail).push(
                    invert_node_view(va[i as int]),
                ));
            }
            k = k + 1;
        }
        proof {
            assert(va.subrange(0, n as int) =~= va);
        }
        Alg { nodes }
    }
}

/// Clones an alg; the clone has the same value, node by node.
pub fn clone_alg(a: &Alg) -> (r: Alg)
    ensures
        r@ == a@,
        r.nodes@.len() == a.nodes@.len(),
        forall|i: int| 0 <= i < a.nodes@.len() ==> r.nodes@[i]@ == #[trigger] a.nodes@[i]@,
    decreases *a,
{
    let n = a.nodes.len();
    let mut nodes: Vec<AlgNode> = Vec::new();
    let mut k: usize = 0;
    while k < n
        invariant
            0 <= k <= n,
            n == a.nodes@.len(),
            nodes@.len() == k,
            forall|i: int| 0 <= i < k ==> nodes@[i]@ == #[trigger] a.nodes@[i]@,
        decreases n - k,
    {
        proof {
            assert(decreases_to!(*a => a.nodes));
            assert(decreases_to!(a.nodes => a.nodes@));
            assert(decreases_to!(a.nodes@ => a.nodes@[k as int]));
        }
        let c = clone_node(&a.nodes[k]);
        nodes.push(c);
        k = k + 1;
    }
    let r = Alg { nodes };
    proof {
        nodes_views_equal(r.nodes@, a.nodes@);
    }
    r
}

/// Two node sequences whose nodes have pairwise equal values have equal
/// values.
pub proof fn nodes_views_equal(s1: Seq<AlgNode>, s2: Seq<AlgNode>)
    requires
        s1.len() == s2.len(),
        forall|i: int| 0 <= i < s1.len() ==> s1[i]@ == #[trigger] s2[i]@,
    ensures
        nodes_view(s1) == nodes_view(s2),
    decreases s1.len(),
{
    if s1.len() > 0 {
        nodes_views_equal(s1.drop_last(), s2.drop_last());
        assert(s1[s1.len() - 1]@ == s2[s1.len() - 1]@);
        assert(nodes_view(s1) =~= nodes_view(s2));
    } else {
        assert(nodes_view(s1) =~= nodes_view(s2));
    }
}

impl Clone for Alg {
    fn clone(&self) -> (r: Self)
        ensures
            r@ == self@,
    {
        clone_alg(self)
    }
}


impl Alg {
    /// Whether every move amount in the alg can be negated without
    /// overflow, so that [`Alg::invert`] applies.
    pub fn is_invertible(&self) -> (r: bool)
        ensures
            r == invertible_nodes(self@),
        decreases *self,
    {
        let n = self.nodes.len();
        let mut k: usize = 0;
        let mut ok = true;
        proof {
            nodes_view_len(self.nodes@);
            assert(nodes_view(self.nodes@).subrange(0, 0) =~= Seq::<AlgNodeView>::empty());
        }
        while k < n
            invariant
                0 <= k <= n,
                n == self.nodes@.len(),
                nodes_view(self.nodes@).len() == n,
                ok == invertible_nodes(nodes_view(self.nodes@).subrange(0, k as int)),
            decreases n - k,
        {
            proof {
                assert(decreases_to!(*self => self.nodes));
                assert(decreases_to!(self.nodes => self.nodes@));
                assert(decreases_to!(self.nodes@ => self.nodes@[k as int]));
                nodes_view_index(self.nodes@, k as int);
            }
            let node_ok = node_is_invertible(&self.nodes[k]);
            proof {
                let va = nodes_view(self.nodes@);
                assert(va.subrange(0, k as int + 1).drop_last() =~= va.subrange(0, k as int));
                assert(va.subrange(0, k as int + 1).last() == va[k as int]);
            }
            ok = ok && node_ok;
            k = k + 1;
        }
        proof {
            assert(nodes_view(self.nodes@).subrange(0, n as int) =~= nodes_view(self.nodes@));
        }
        ok
    }
}

/// Whether one node's amounts can all be negated without overflow.
pub fn node_is_invertible(node: &AlgNode) -> (r: bool)
    ensures
        r == crate::alg::view::invertible_node(node@),
    decreases *node,
{
    match node {
        AlgNode::MoveNode(m) => m.amount > i32::MIN,
        AlgNode::PauseNode(_) => true,
        AlgNode::NewlineNode(_) => true,
        AlgNode::LineCommentNode(_) => true,
        AlgNode::GroupingNode(g) => {
            proof {
                assert(decreases_to!(*node => *g));
                assert(decreases_to!(*g => g.alg));
            }
            g.amount > i32::MIN && g.alg.is_invertible()
        },
        AlgNode::CommutatorNode(c) => {
            proof {
                assert(decreases_to!(*node => *c));
                assert(decreases_to!(*c => c.a));
                assert(decreases_to!(*c => c.b));
            }
            c.a.is_invertible() && c.b.is_invertible()
        },
        AlgNode::ConjugateNode(c) => {
            proof {
                assert(decreases_to!(*node => *c));
                assert(decreases_to!(*c => c.a));
                assert(decreases_to!(*c => c.b));
            }
            c.a.is_invertible() && c.b.is_invertible()
        },
    }
}

} // verus!
