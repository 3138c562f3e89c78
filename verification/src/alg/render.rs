use vstd::prelude::*;

use crate::alg::alg_node::AlgNode;
use crate::alg::amount::Amount;
use crate::alg::grouping::Grouping;
use crate::alg::mv::Move;
use crate::alg::sequence::Alg;
use crate::alg::sequence::nodes_view;
use crate::alg::view::is_square1_tuple;
use crate::alg::quantum_move::MoveLayer;
use crate::alg::quantum_move::MovePrefix;
use crate::alg::quantum_move::MoveRange;
use crate::alg::quantum_move::QuantumMove;
use crate::alg::view::MoveView;
use crate::alg::view::QuantumMoveView;
use crate::alg::view::slash_family;

verus! {

/// Whether two strings hold the same characters.
pub fn str_eq_str(a: &str, b: &str) -> (r: bool)
    ensures
        r == (a@ == b@),
{
    let a_len = a.unicode_len();
    let b_len = b.unicode_len();
    if a_len != b_len {
        return false;
    }
    let mut i: usize = 0;
    while i < a_len
        invariant
            0 <= i <= a_len,
            a_len == a@.len(),
            a_len == b@.len(),
            forall|j: int| 0 <= j < i ==> a@[j] == b@[j],
        decreases a_len - i,
    {
        if a.get_char(i) != b.get_char(i) {
            return false;
        }
        i = i + 1;
    }
    proof {
        assert(a@ =~= b@);
    }
    true
}

/// The character for one decimal digit.
pub open spec fn digit_char(d: int) -> char {
    if d == 0 {
        '0'
    } else if d == 1 {
        '1'
    } else if d == 2 {
        '2'
    } else if d == 3 {
        '3'
    } else if d == 4 {
        '4'
    } else if d == 5 {
        '5'
    } else if d == 6 {
        '6'
    } else if d == 7 {
        '7'
    } else if d == 8 {
        '8'
    } else {
        '9'
    }
}

/// The decimal representation of a nonnegative integer, most significant
/// digit first.
pub open spec fn dec_rep(n: int) -> Seq<char>
    decreases n,
{
    if n < 10 {
        seq![digit_char(n)]
    } else {
        dec_rep(n / 10).push(digit_char(n % 10))
    }
}

/// One decimal digit as a string slice.
fn digit_str(d: u32) -> (r: &'static str)
    requires
        d < 10,
    ensures
        r@ == seq![digit_char(d as int)],
{
    let digits = "0123456789";
    proof {
        reveal_strlit("0123456789");
    }
    let r = digits.substring_ascii(d as usize, d as usize + 1);
    proof {
        assert(r@ =~= seq![digit_char(d as int)]);
    }
    r
}

/// The decimal representation of a `u32`.
pub fn u32_dec_string(n: u32) -> (r: String)
    ensures
        r@ == dec_rep(n as int),
    decreases n,
{
    if n < 10 {
        digit_str(n).to_owned()
    } else {
        let mut s = u32_dec_string(n / 10);
        s.append(digit_str(n % 10));
        proof {
            assert(s@ =~= dec_rep(n as int));
        }
        s
    }
}

/// The rendered form of an amount suffix: nothing for 1, `'` for -1,
/// the digits for other positive amounts, the digits and `'` for other
/// negative amounts.
pub open spec fn amount_suffix(a: int) -> Seq<char> {
    if a == 1 {
        Seq::empty()
    } else if a == -1 {
        seq!['\'']
    } else if a < 0 {
        dec_rep(-a) + seq!['\'']
    } else {
        dec_rep(a)
    }
}

/// The absolute value of an amount, as a `u32`.
fn amount_abs(amount: Amount) -> (r: u32)
    ensures
        r as int == if amount < 0 {
            -(amount as int)
        } else {
            amount as int
        },
{
    let wide: i64 = amount as i64;
    let abs: i64 = if wide < 0 {
        -wide
    } else {
        wide
    };
    abs as u32
}

/// Renders the amount suffix of a move or grouping (`2`, `'`, `3'`, or
/// nothing for amount 1).
pub fn fmt_amount(amount: Amount) -> (r: String)
    ensures
        r@ == amount_suffix(amount as int),
{
    if amount == 1 {
        let r = String::new();
        r
    } else if amount == -1 {
        let r = prime_str().to_owned();
        r
    } else if amount < 0 {
        let mut s = u32_dec_string(amount_abs(amount));
        s.append(prime_str());
        s
    } else {
        u32_dec_string(amount_abs(amount))
    }
}

/// The `'` marker that inverts a move or grouping.
fn prime_str() -> (r: &'static str)
    ensures
        r@ == seq!['\''],
{
    let r = "'";
    proof {
        reveal_strlit("'");
        assert(r@ =~= seq!['\'']);
    }
    r
}

/// Whether `s` ends with `suffix`.
pub open spec fn ends_with_spec(s: Seq<char>, suffix: Seq<char>) -> bool {
    s.len() >= suffix.len() && s.subrange(s.len() - suffix.len(), s.len() as int) == suffix
}

/// Whether one string ends with another.
pub fn str_ends_with(s: &str, suffix: &str) -> (r: bool)
    ensures
        r == ends_with_spec(s@, suffix@),
{
    let s_len = s.unicode_len();
    let suffix_len = suffix.unicode_len();
    if s_len < suffix_len {
        return false;
    }
    let start = s_len - suffix_len;
    let mut i: usize = 0;
    while i < suffix_len
        invariant
            0 <= i <= suffix_len,
            s_len == s@.len(),
            suffix_len == suffix@.len(),
            start == s_len - suffix_len,
            forall|j: int| 0 <= j < i ==> s@[start + j] == suffix@[j],
        decreases suffix_len - i,
    {
        if s.get_char(start + i) != suffix.get_char(i) {
            proof {
                assert(s@.subrange(start as int, s_len as int)[i as int] != suffix@[i as int]);
            }
            return false;
        }
        i = i + 1;
    }
    proof {
        assert(s@.subrange(start as int, s_len as int) =~= suffix@);
    }
    true
}

/// The rendered characters of a layer or range prefix.
pub open spec fn prefix_chars(prefix: Option<MovePrefix>) -> Seq<char> {
    match prefix {
        None => Seq::empty(),
        Some(MovePrefix::Layer(l)) => dec_rep(l.layer as int),
        Some(MovePrefix::Range(r)) => dec_rep(r.outer_layer as int) + seq!['-'] + dec_rep(
            r.inner_layer as int,
        ),
    }
}

/// The rendered characters of a quantum: its prefix, then its family.
pub open spec fn quantum_chars(family: Seq<char>, prefix: Option<MovePrefix>) -> Seq<char> {
    prefix_chars(prefix) + family
}

/// The rendered characters of a move. Pochmann (`R++`) and clock (`R2+`)
/// notation are stored with a marker suffix on the family and rendered
/// back to their surface form; a family that is exactly the slash marker
/// renders as `/` at amount 1.
pub open spec fn move_chars(m: MoveView) -> Seq<char> {
    let fam = m.quantum.family;
    if fam == slash_family() && m.amount == 1 {
        seq!['/']
    } else if ends_with_spec(fam, "_PLUS_"@) {
        quantum_chars(fam.subrange(0, fam.len() - 6), m.quantum.prefix) + dec_rep(
            if m.amount < 0 {
                -m.amount
            } else {
                m.amount
            },
        ) + seq![
            if m.amount < 0 {
                '-'
            } else {
                '+'
            },
        ]
    } else if ends_with_spec(fam, "_PLUSPLUS_"@) && (m.amount == 1 || m.amount == -1) {
        quantum_chars(fam.subrange(0, fam.len() - 10), m.quantum.prefix) + (if m.amount == 1 {
            seq!['+', '+']
        } else {
            seq!['-', '-']
        })
    } else {
        quantum_chars(fam, m.quantum.prefix) + amount_suffix(m.amount)
    }
}

/// The dash between the layers of a range prefix.
fn dash_str() -> (r: &'static str)
    ensures
        r@ == seq!['-'],
{
    let r = "-";
    proof {
        reveal_strlit("-");
        assert(r@ =~= seq!['-']);
    }
    r
}

/// Renders a layer or range prefix.
pub fn prefix_to_string(prefix: &Option<MovePrefix>) -> (r: String)
    ensures
        r@ == prefix_chars(*prefix),
{
    match prefix {
        None => String::new(),
        Some(MovePrefix::Layer(l)) => u32_dec_string(l.layer),
        Some(MovePrefix::Range(range)) => {
            let mut s = u32_dec_string(range.outer_layer);
            s.append(dash_str());
            let inner = u32_dec_string(range.inner_layer);
            s.append(inner.as_str());
            s
        },
    }
}

/// Renders a quantum move: its prefix, then its family.
pub fn quantum_to_string(q: &QuantumMove) -> (r: String)
    ensures
        r@ == quantum_chars(q.family@, q.prefix),
{
    let mut s = prefix_to_string(&q.prefix);
    s.append(q.family.as_str());
    s
}

/// Renders a move back to its surface notation.
pub fn move_to_string(m: &Move) -> (r: String)
    ensures
        r@ == move_chars(m@),
{
    let fam = m.quantum.family.as_str();
    if str_eq_str(fam, "_SLASH_") && m.amount == 1 {
        let slash = "/";
        proof {
            reveal_strlit("/");
            assert(slash@ =~= seq!['/']);
        }
        return slash.to_owned();
    }
    let fam_len = fam.unicode_len();
    if str_ends_with(fam, "_PLUS_") {
        proof {
            reveal_strlit("_PLUS_");
        }
        let base = fam.substring_char(0, fam_len - 6);
        let mut s = prefix_to_string(&m.quantum.prefix);
        s.append(base);
        let digits = u32_dec_string(amount_abs(m.amount));
        s.append(digits.as_str());
        if m.amount < 0 {
            s.append(dash_str());
        } else {
            let plus = "+";
            proof {
                reveal_strlit("+");
                assert(plus@ =~= seq!['+']);
            }
            s.append(plus);
        }
        return s;
    }
    if str_ends_with(fam, "_PLUSPLUS_") && (m.amount == 1 || m.amount == -1) {
        proof {
            reveal_strlit("_PLUSPLUS_");
        }
        let base = fam.substring_char(0, fam_len - 10);
        let mut s = prefix_to_string(&m.quantum.prefix);
        s.append(base);
        if m.amount == 1 {
            let pp = "++";
            proof {
                reveal_strlit("++");
                assert(pp@ =~= seq!['+', '+']);
            }
            s.append(pp);
        } else {
            let mm = "--";
            proof {
                reveal_strlit("--");
                assert(mm@ =~= seq!['-', '-']);
            }
            s.append(mm);
        }
        return s;
    }
    let mut s = quantum_to_string(&m.quantum);
    let suffix = fmt_amount(m.amount);
    s.append(suffix.as_str());
    s
}


/// The size of one node's tree, for termination of rendering.
pub open spec fn render_node_size(n: AlgNode) -> int
    decreases n,
{
    match n {
        AlgNode::GroupingNode(g) => 2 + render_nodes_size(g.alg.nodes@),
        AlgNode::CommutatorNode(c) => 2 + render_nodes_size(c.a.nodes@) + render_nodes_size(
            c.b.nodes@,
        ),
        AlgNode::ConjugateNode(c) => 2 + render_nodes_size(c.a.nodes@) + render_nodes_size(
            c.b.nodes@,
        ),
        _ => 1,
    }
}

pub open spec fn render_nodes_size(s: Seq<AlgNode>) -> int
    decreases s,
{
    if s.len() == 0 {
        0
    } else {
        render_nodes_size(s.drop_last()) + render_node_size(s.last())
    }
}

pub proof fn render_node_size_pos(n: AlgNode)
    ensures
        render_node_size(n) >= 1,
    decreases n,
{
    match n {
        AlgNode::GroupingNode(g) => {
            render_nodes_size_nonneg(g.alg.nodes@);
        },
        AlgNode::CommutatorNode(c) => {
            render_nodes_size_nonneg(c.a.nodes@);
            render_nodes_size_nonneg(c.b.nodes@);
        },
        AlgNode::ConjugateNode(c) => {
            render_nodes_size_nonneg(c.a.nodes@);
            render_nodes_size_nonneg(c.b.nodes@);
        },
        _ => {
        },
    }
}

pub proof fn render_nodes_size_nonneg(s: Seq<AlgNode>)
    ensures
        render_nodes_size(s) >= 0,
    decreases s,
{
    if s.len() > 0 {
        render_nodes_size_nonneg(s.drop_last());
        render_node_size_pos(s.last());
    }
}

pub proof fn render_nodes_size_index(s: Seq<AlgNode>, i: int)
    requires
        0 <= i < s.len(),
    ensures
        render_node_size(s[i]) <= render_nodes_size(s),
    decreases s,
{
    render_node_size_pos(s.last());
    render_nodes_size_nonneg(s.drop_last());
    if i < s.len() - 1 {
        render_nodes_size_index(s.drop_last(), i);
        render_node_size_pos(s[i]);
    }
}

/// The decimal form of a signed amount: a minus sign for negatives, then
/// the digits.
pub open spec fn signed_dec(a: int) -> Seq<char> {
    if a < 0 {
        seq!['-'] + dec_rep(-a)
    } else {
        dec_rep(a)
    }
}

/// The separator written between two adjacent nodes: nothing around
/// newlines, a newline after a comment, a space otherwise.
pub open spec fn sep_chars(prev: AlgNode, cur: AlgNode) -> Seq<char> {
    match (prev, cur) {
        (AlgNode::LineCommentNode(_), AlgNode::NewlineNode(_)) => Seq::empty(),
        (AlgNode::LineCommentNode(_), _) => seq!['\n'],
        (AlgNode::NewlineNode(_), _) => Seq::empty(),
        (_, AlgNode::NewlineNode(_)) => Seq::empty(),
        (_, _) => seq![' '],
    }
}

/// Whether a grouping renders as a Square-1 tuple `(a, b)`.
pub open spec fn renders_as_square1_tuple(g: Grouping) -> bool {
    is_square1_tuple(nodes_view(g.alg.nodes@), g.amount as int)
}

/// The rendered characters of an alg: its nodes, separated per
/// `sep_chars`.
pub open spec fn alg_chars(a: Alg) -> Seq<char>
    decreases 1int + render_nodes_size(a.nodes@), a.nodes@.len() + 1int,
{
    if a.nodes@.len() == 0 {
        Seq::empty()
    } else {
        proof {
            render_nodes_size_index(a.nodes@, 0);
            render_node_size_pos(a.nodes@[0]);
            render_nodes_size_nonneg(a.nodes@);
        }
        node_chars(a.nodes@[0]) + rest_chars(a.nodes@, 1)
    }
}

/// The rendered characters of the nodes from `i` on, each preceded by its
/// separator from the previous node.
pub open spec fn rest_chars(s: Seq<AlgNode>, i: int) -> Seq<char>
    decreases 1int + render_nodes_size(s), s.len() - i,
{
    if i < 1 || i >= s.len() {
        Seq::empty()
    } else {
        proof {
            render_nodes_size_index(s, i);
            render_node_size_pos(s[i]);
            render_nodes_size_nonneg(s);
        }
        sep_chars(s[i - 1], s[i]) + node_chars(s[i]) + rest_chars(s, i + 1)
    }
}

/// The rendered characters of one node.
pub open spec fn node_chars(n: AlgNode) -> Seq<char>
    decreases render_node_size(n), 1int,
{
    match n {
        AlgNode::MoveNode(m) => move_chars(m@),
        AlgNode::PauseNode(_) => seq!['.'],
        AlgNode::NewlineNode(_) => seq!['\n'],
        AlgNode::LineCommentNode(c) => seq!['/', '/'] + c@,
        AlgNode::GroupingNode(g) => grouping_chars(g),
        AlgNode::CommutatorNode(c) => {
            proof {
                render_nodes_size_nonneg(c.a.nodes@);
                render_nodes_size_nonneg(c.b.nodes@);
            }
            seq!['['] + alg_chars(*c.a) + seq![',', ' '] + alg_chars(*c.b) + seq![']']
        },
        AlgNode::ConjugateNode(c) => {
            proof {
                render_nodes_size_nonneg(c.a.nodes@);
                render_nodes_size_nonneg(c.b.nodes@);
            }
            seq!['['] + alg_chars(*c.a) + seq![':', ' '] + alg_chars(*c.b) + seq![']']
        },
    }
}

/// The rendered characters of a grouping: a Square-1 tuple renders as
/// `(a, b)`; a grouping of a single commutator or conjugate omits its
/// parentheses; anything else is parenthesised, with its amount suffix.
pub open spec fn grouping_chars(g: Grouping) -> Seq<char>
    decreases 2int + render_nodes_size(g.alg.nodes@), 0int,
{
    proof {
        render_nodes_size_nonneg(g.alg.nodes@);
    }
    if renders_as_square1_tuple(g) {
        match (g.alg.nodes@[0], g.alg.nodes@[1]) {
            (AlgNode::MoveNode(m0), AlgNode::MoveNode(m1)) => seq!['('] + signed_dec(
                m0.amount as int,
            ) + seq![',', ' '] + signed_dec(m1.amount as int) + seq![')'],
            _ => Seq::empty(),
        }
    } else if g.alg.nodes@.len() == 1 && (g.alg.nodes@[0] matches AlgNode::CommutatorNode(_)
        || g.alg.nodes@[0] matches AlgNode::ConjugateNode(_)) {
        alg_chars(*g.alg) + amount_suffix(g.amount as int)
    } else {
        seq!['('] + alg_chars(*g.alg) + seq![')'] + amount_suffix(g.amount as int)
    }
}

/// Renders a signed amount.
pub fn signed_dec_string(a: Amount) -> (r: String)
    ensures
        r@ == signed_dec(a as int),
{
    if a < 0 {
        let mut s = dash_str().to_owned();
        let digits = u32_dec_string(amount_abs(a));
        s.append(digits.as_str());
        s
    } else {
        u32_dec_string(amount_abs(a))
    }
}

impl Alg {
    /// Renders the alg back to notation text.
    pub fn to_string(&self) -> (r: String)
        ensures
            r@ == alg_chars(*self),
        decreases 1int + render_nodes_size(self.nodes@), self.nodes@.len() + 1int, 0int,
    {
        let mut s = String::new();
        let n = self.nodes.len();
        if n == 0 {
            return s;
        }
        proof {
            render_nodes_size_index(self.nodes@, 0);
            render_node_size_pos(self.nodes@[0]);
            render_nodes_size_nonneg(self.nodes@);
        }
        let first = alg_node_to_string(&self.nodes[0]);
        s.append(first.as_str());
        let mut k: usize = 1;
        while k < n
            invariant
                1 <= k <= n,
                n == self.nodes@.len(),
                s@ == node_chars(self.nodes@[0]) + rest_upto(self.nodes@, k as int),
            decreases n - k,
        {
            proof {
                render_nodes_size_index(self.nodes@, k as int);
                render_node_size_pos(self.nodes@[k as int]);
                render_nodes_size_nonneg(self.nodes@);
            }
            let sep = separator_string(&self.nodes[k - 1], &self.nodes[k]);
            s.append(sep);
            let rendered = alg_node_to_string(&self.nodes[k]);
            s.append(rendered.as_str());
            proof {
                lemma_rest_upto_step(self.nodes@, k as int);
            }
            k = k + 1;
        }
        proof {
            lemma_rest_upto_all(self.nodes@);
        }
        s
    }
}

/// The rendered characters of the nodes strictly before `i`, separators
/// included, not counting node 0 itself.
pub open spec fn rest_upto(s: Seq<AlgNode>, i: int) -> Seq<char>
    decreases i,
{
    if i <= 1 {
        Seq::empty()
    } else {
        rest_upto(s, i - 1) + sep_chars(s[i - 2], s[i - 1]) + node_chars(s[i - 1])
    }
}

pub proof fn lemma_rest_upto_step(s: Seq<AlgNode>, k: int)
    requires
        1 <= k < s.len(),
    ensures
        rest_upto(s, k + 1) == rest_upto(s, k) + sep_chars(s[k - 1], s[k]) + node_chars(s[k]),
{
}

/// Read forward or backward, the tail renderings agree: the backward
/// accumulation `rest_upto` reaches the same text as the forward
/// definition `rest_chars`.
pub proof fn lemma_rest_upto_all(s: Seq<AlgNode>)
    ensures
        s.len() >= 1 ==> rest_upto(s, s.len() as int) == rest_chars(s, 1),
{
    if s.len() >= 1 {
        lemma_rest_agree(s, s.len() as int);
    }
}

pub proof fn lemma_rest_agree(s: Seq<AlgNode>, i: int)
    requires
        1 <= i <= s.len(),
    ensures
        rest_upto(s, i) + rest_chars(s, i) == rest_chars(s, 1),
    decreases i,
{
    if i == 1 {
        assert(rest_upto(s, 1) + rest_chars(s, 1) =~= rest_chars(s, 1));
    } else {
        lemma_rest_agree(s, i - 1);
        assert(rest_chars(s, i - 1) == sep_chars(s[i - 2], s[i - 1]) + node_chars(s[i - 1])
            + rest_chars(s, i));
        assert(rest_upto(s, i) + rest_chars(s, i) =~= rest_upto(s, i - 1) + rest_chars(s, i - 1));
    }
}

/// Renders the separator between two adjacent nodes.
pub fn separator_string(prev: &AlgNode, cur: &AlgNode) -> (r: &'static str)
    ensures
        r@ == sep_chars(*prev, *cur),
{
    let newline = "\n";
    let space = " ";
    let empty = "";
    proof {
        reveal_strlit("\n");
        reveal_strlit(" ");
        reveal_strlit("");
        assert(newline@ =~= seq!['\n']);
        assert(space@ =~= seq![' ']);
        assert(empty@ =~= Seq::<char>::empty());
    }
    match (prev, cur) {
        (AlgNode::LineCommentNode(_), AlgNode::NewlineNode(_)) => empty,
        (AlgNode::LineCommentNode(_), _) => newline,
        (AlgNode::NewlineNode(_), _) => empty,
        (_, AlgNode::NewlineNode(_)) => empty,
        (_, _) => space,
    }
}

/// Renders one node.
pub fn alg_node_to_string(node: &AlgNode) -> (r: String)
    ensures
        r@ == node_chars(*node),
    decreases render_node_size(*node), 1int, 0int,
{
    match node {
        AlgNode::MoveNode(m) => move_to_string(m),
        AlgNode::PauseNode(_) => {
            let dot = ".";
            proof {
                reveal_strlit(".");
                assert(dot@ =~= seq!['.']);
            }
            dot.to_owned()
        },
        AlgNode::NewlineNode(_) => {
            let newline = "\n";
            proof {
                reveal_strlit("\n");
                assert(newline@ =~= seq!['\n']);
            }
            newline.to_owned()
        },
        AlgNode::LineCommentNode(c) => {
            let slashes = "//";
            proof {
                reveal_strlit("//");
                assert(slashes@ =~= seq!['/', '/']);
            }
            let mut s = slashes.to_owned();
            s.append(c.text());
            s
        },
        AlgNode::GroupingNode(g) => {
            proof {
                assert(decreases_to!(*node => *g));
            }
            g.to_string()
        },
        AlgNode::CommutatorNode(c) => {
            proof {
                assert(decreases_to!(*node => *c));
                assert(decreases_to!(*c => c.a));
                assert(decreases_to!(*c => c.b));
                render_nodes_size_nonneg(c.a.nodes@);
                render_nodes_size_nonneg(c.b.nodes@);
                reveal_strlit("[");
                reveal_strlit(", ");
                reveal_strlit("]");
            }
            let open = "[";
            let mid = ", ";
            let close = "]";
            proof {
                assert(open@ =~= seq!['[']);
                assert(mid@ =~= seq![',', ' ']);
                assert(close@ =~= seq![']']);
            }
            let mut s = open.to_owned();
            let a = c.a.to_string();
            s.append(a.as_str());
            s.append(mid);
            let b = c.b.to_string();
            s.append(b.as_str());
            s.append(close);
            s
        },
        AlgNode::ConjugateNode(c) => {
            proof {
                assert(decreases_to!(*node => *c));
                assert(decreases_to!(*c => c.a));
                assert(decreases_to!(*c => c.b));
                render_nodes_size_nonneg(c.a.nodes@);
                render_nodes_size_nonneg(c.b.nodes@);
                reveal_strlit("[");
                reveal_strlit(": ");
                reveal_strlit("]");
            }
            let open = "[";
            let mid = ": ";
            let close = "]";
            proof {
                assert(open@ =~= seq!['[']);
                assert(mid@ =~= seq![':', ' ']);
                assert(close@ =~= seq![']']);
            }
            let mut s = open.to_owned();
            let a = c.a.to_string();
            s.append(a.as_str());
            s.append(mid);
            let b = c.b.to_string();
            s.append(b.as_str());
            s.append(close);
            s
        },
    }
}

impl Grouping {
    /// Renders the grouping: a Square-1 tuple as `(a, b)`, a single
    /// commutator or conjugate without parentheses, anything else in
    /// parentheses with its amount suffix.
    pub fn to_string(&self) -> (r: String)
        ensures
            r@ == grouping_chars(*self),
        decreases 2int + render_nodes_size(self.alg.nodes@), 0int, 0int,
    {
        proof {
            assert(decreases_to!(*self => self.alg));
            render_nodes_size_nonneg(self.alg.nodes@);
        }
        match self.square1_tuple() {
            Some((move_0, move_1)) => {
                let open = "(";
                let mid = ", ";
                let close = ")";
                proof {
                    reveal_strlit("(");
                    reveal_strlit(", ");
                    reveal_strlit(")");
                    assert(open@ =~= seq!['(']);
                    assert(mid@ =~= seq![',', ' ']);
                    assert(close@ =~= seq![')']);
                }
                let mut s = open.to_owned();
                let a = signed_dec_string(move_0.amount);
                s.append(a.as_str());
                s.append(mid);
                let b = signed_dec_string(move_1.amount);
                s.append(b.as_str());
                s.append(close);
                s
            },
            None => {
                let single_bracketed = self.alg.nodes.len() == 1 && match &self.alg.nodes[0] {
                    AlgNode::CommutatorNode(_) => true,
                    AlgNode::ConjugateNode(_) => true,
                    _ => false,
                };
                if single_bracketed {
                    let mut s = self.alg.to_string();
                    let suffix = fmt_amount(self.amount);
                    s.append(suffix.as_str());
                    s
                } else {
                    let open = "(";
                    let close = ")";
                    proof {
                        reveal_strlit("(");
                        reveal_strlit(")");
                        assert(open@ =~= seq!['(']);
                        assert(close@ =~= seq![')']);
                    }
                    let mut s = open.to_owned();
                    let inner = self.alg.to_string();
                    s.append(inner.as_str());
                    s.append(close);
                    let suffix = fmt_amount(self.amount);
                    s.append(suffix.as_str());
                    s
                }
            },
        }
    }
}

} // verus!
