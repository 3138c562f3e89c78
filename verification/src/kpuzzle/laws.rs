use vstd::prelude::*;

use crate::kpuzzle::kpuzzle::KPuzzle;
use crate::kpuzzle::kpuzzle::KPuzzleOrbitInfo;
use crate::kpuzzle::kpuzzle::orient_segment;
use crate::kpuzzle::kpuzzle::perm_segment;
use crate::kpuzzle::kpuzzle::prefix_bytes;
use crate::kpuzzle::kpuzzle::prefix_bytes_monotone;
use crate::kpuzzle::kpattern::KPattern;
use crate::kpuzzle::kpattern::is_pattern_application;
use crate::kpuzzle::kpattern::lemma_pattern_code_valid;
use crate::kpuzzle::ktransformation::KTransformation;
use crate::kpuzzle::ktransformation::is_composition;
use crate::kpuzzle::ktransformation::is_inverse_of;
use crate::kpuzzle::ktransformation::is_power;
use crate::kpuzzle::ktransformation::lemma_valid_bounds;
use crate::kpuzzle::ktransformation::lemma_wf_orbit;
use crate::kpuzzle::ktransformation::pow_perm;
use crate::kpuzzle::ktransformation::pow_delta;

verus! {

/// The orbit whose two segments hold buffer byte `j`.
pub proof fn byte_orbit_of(infos: Seq<KPuzzleOrbitInfo>, k: int, j: int) -> (o: int)
    requires
        0 <= k <= infos.len(),
        0 <= j < prefix_bytes(infos, k),
    ensures
        0 <= o < k,
        prefix_bytes(infos, o) <= j < prefix_bytes(infos, o) + 2 * infos[o].num_pieces as int,
    decreases k,
{
    if k > 0 && j < prefix_bytes(infos, k - 1) {
        byte_orbit_of(infos, k - 1, j)
    } else {
        k - 1
    }
}

/// Whether two buffers agree on orbit `o`'s two segments.
pub open spec fn same_orbit_segments(p: KPuzzle, xb: Seq<u8>, yb: Seq<u8>, o: int) -> bool {
    &&& perm_segment(p, xb, o) == perm_segment(p, yb, o)
    &&& orient_segment(p, xb, o) == orient_segment(p, yb, o)
}

/// Two buffers of a puzzle with equal per-orbit segments are equal, byte
/// for byte: the segments tile the whole buffer.
pub proof fn lemma_bytes_determined(p: KPuzzle, xb: Seq<u8>, yb: Seq<u8>)
    requires
        p.wf(),
        xb.len() == p.num_bytes_spec(),
        yb.len() == p.num_bytes_spec(),
        forall|o: int| 0 <= o < p.num_orbits() ==> #[trigger] same_orbit_segments(p, xb, yb, o),
    ensures
        xb == yb,
{
    assert forall|j: int| 0 <= j < xb.len() implies xb[j] == yb[j] by {
        let o = byte_orbit_of(p.infos(), p.num_orbits(), j);
        p.lemma_orbit_in_bounds(o);
        assert(same_orbit_segments(p, xb, yb, o));
        let off = p.orbit(o).pieces_or_permutations_offset as int;
        let np = p.orbit(o).num_pieces as int;
        assert(off == prefix_bytes(p.infos(), o));
        if j < off + np {
            assert(perm_segment(p, xb, o)[j - off] == xb[j]);
            assert(perm_segment(p, yb, o)[j - off] == yb[j]);
        } else {
            let ooff = p.orbit(o).orientations_offset as int;
            assert(orient_segment(p, xb, o)[j - ooff] == xb[j]);
            assert(orient_segment(p, yb, o)[j - ooff] == yb[j]);
        }
    }
    assert(xb =~= yb);
}

/// Two transformations of one puzzle with the same entries everywhere
/// are byte-equal.
pub proof fn lemma_transformations_determined(x: KTransformation, y: KTransformation)
    requires
        x.wf(),
        y.wf(),
        x.same_puzzle(y),
        forall|o: int, i: int|
            x.in_range(o, i) ==> #[trigger] x.perm_at(o, i) == #[trigger] y.perm_at(o, i),
        forall|o: int, i: int|
            x.in_range(o, i) ==> #[trigger] x.delta_at(o, i) == #[trigger] y.delta_at(o, i),
    ensures
        x.bytes() == y.bytes(),
{
    let p = x.kpuzzle_spec();
    assert forall|o: int| 0 <= o < p.num_orbits() implies #[trigger] same_orbit_segments(
        p,
        x.bytes(),
        y.bytes(),
        o,
    ) by {
        p.lemma_orbit_in_bounds(o);
        assert forall|i: int|
            0 <= i < p.orbit(o).num_pieces as int implies perm_segment(p, x.bytes(), o)[i]
            == perm_segment(p, y.bytes(), o)[i] && orient_segment(p, x.bytes(), o)[i]
            == orient_segment(p, y.bytes(), o)[i] by {
            assert(x.in_range(o, i));
            assert(x.perm_at(o, i) == y.perm_at(o, i));
            assert(x.delta_at(o, i) == y.delta_at(o, i));
        }
        assert(perm_segment(p, x.bytes(), o) =~= perm_segment(p, y.bytes(), o));
        assert(orient_segment(p, x.bytes(), o) =~= orient_segment(p, y.bytes(), o));
    }
    lemma_bytes_determined(p, x.bytes(), y.bytes());
}

/// Applying the identity on the right changes nothing: the composition of
/// `t` then the identity is byte-equal to `t`.
pub proof fn lemma_apply_identity_right(t: KTransformation, id: KTransformation, r: KTransformation)
    requires
        t.valid(),
        id.is_identity(),
        t.same_puzzle(id),
        is_composition(r, t, id),
        r.bytes().len() == t.kpuzzle_spec().num_bytes_spec(),
    ensures
        r.bytes() == t.bytes(),
{
    assert forall|o: int, i: int| t.in_range(o, i) implies #[trigger] r.perm_at(o, i)
        == #[trigger] t.perm_at(o, i) by {
        assert(id.perm_at(o, i) == i);
    }
    assert forall|o: int, i: int| t.in_range(o, i) implies #[trigger] r.delta_at(o, i)
        == #[trigger] t.delta_at(o, i) by {
        lemma_wf_orbit(t.kpuzzle_spec(), o);
        lemma_valid_bounds(t, o, i);
        assert(id.perm_at(o, i) == i);
        assert(id.delta_at(o, i) == 0);
        vstd::arithmetic::div_mod::lemma_small_mod(t.delta_at(o, i) as nat, t.num_or(o) as nat);
    }
    lemma_transformations_determined(r, t);
}

/// Applying the identity on the left changes nothing either.
pub proof fn lemma_apply_identity_left(id: KTransformation, t: KTransformation, r: KTransformation)
    requires
        t.valid(),
        id.is_identity(),
        id.same_puzzle(t),
        is_composition(r, id, t),
        r.bytes().len() == t.kpuzzle_spec().num_bytes_spec(),
    ensures
        r.bytes() == t.bytes(),
{
    assert forall|o: int, i: int| t.in_range(o, i) implies #[trigger] r.perm_at(o, i)
        == #[trigger] t.perm_at(o, i) by {
        lemma_valid_bounds(t, o, i);
        assert(id.perm_at(o, t.perm_at(o, i)) == t.perm_at(o, i));
    }
    assert forall|o: int, i: int| t.in_range(o, i) implies #[trigger] r.delta_at(o, i)
        == #[trigger] t.delta_at(o, i) by {
        lemma_wf_orbit(t.kpuzzle_spec(), o);
        lemma_valid_bounds(t, o, i);
        assert(id.delta_at(o, t.perm_at(o, i)) == 0);
        vstd::arithmetic::div_mod::lemma_small_mod(t.delta_at(o, i) as nat, t.num_or(o) as nat);
    }
    lemma_transformations_determined(r, t);
}

/// A transformation composed with its inverse gives the identity.
#[verifier::rlimit(100)]
pub proof fn lemma_apply_inverse_right(t: KTransformation, inv: KTransformation, r: KTransformation)
    requires
        t.valid(),
        t.bijective(),
        is_inverse_of(inv, t),
        is_composition(r, t, inv),
        r.bytes().len() == t.kpuzzle_spec().num_bytes_spec(),
    ensures
        r.is_identity(),
{
    let p = t.kpuzzle_spec();
    assert forall|o: int, i: int|
        #![trigger r.perm_at(o, i)]
        #![trigger r.delta_at(o, i)]
        r.in_range(o, i) implies r.perm_at(o, i) == i && r.delta_at(o, i) == 0 by {
        lemma_wf_orbit(p, o);
        assert(t.in_range(o, i));
        let w = choose|w: int| t.in_range(o, w) && #[trigger] t.perm_at(o, w) == i;
        assert(t.perm_at(o, w) == i);
        assert(inv.perm_at(o, t.perm_at(o, w)) == w);
        assert(r.perm_at(o, i) == t.perm_at(o, inv.perm_at(o, i)));
        assert(r.perm_at(o, i) == i);
        lemma_valid_bounds(t, o, w);
        let n = t.num_or(o);
        let d = t.delta_at(o, w);
        assert(inv.delta_at(o, i) == (n - d) % n);
        assert(r.delta_at(o, i) == (d + (n - d) % n) % n);
        if d == 0 {
            vstd::arithmetic::div_mod::lemma_mod_self_0(n);
            vstd::arithmetic::div_mod::lemma_small_mod(0nat, n as nat);
        } else {
            vstd::arithmetic::div_mod::lemma_small_mod((n - d) as nat, n as nat);
            vstd::arithmetic::div_mod::lemma_mod_self_0(n);
        }
    }
}

/// The inverse composed with its transformation also gives the identity;
/// this direction needs no bijectivity.
#[verifier::rlimit(100)]
pub proof fn lemma_apply_inverse_left(t: KTransformation, inv: KTransformation, r: KTransformation)
    requires
        t.valid(),
        is_inverse_of(inv, t),
        is_composition(r, inv, t),
        inv.kpuzzle_spec() == t.kpuzzle_spec(),
        r.bytes().len() == t.kpuzzle_spec().num_bytes_spec(),
    ensures
        r.is_identity(),
{
    let p = t.kpuzzle_spec();
    assert forall|o: int, i: int|
        #![trigger r.perm_at(o, i)]
        #![trigger r.delta_at(o, i)]
        r.in_range(o, i) implies r.perm_at(o, i) == i && r.delta_at(o, i) == 0 by {
        lemma_wf_orbit(p, o);
        assert(t.in_range(o, i));
        lemma_valid_bounds(t, o, i);
        assert(inv.perm_at(o, t.perm_at(o, i)) == i);
        assert(r.perm_at(o, i) == inv.perm_at(o, t.perm_at(o, i)));
        let n = t.num_or(o);
        let d = t.delta_at(o, i);
        assert(inv.delta_at(o, t.perm_at(o, i)) == (n - d) % n);
        assert(r.delta_at(o, i) == ((n - d) % n + d) % n);
        if d == 0 {
            vstd::arithmetic::div_mod::lemma_mod_self_0(n);
            vstd::arithmetic::div_mod::lemma_small_mod(0nat, n as nat);
        } else {
            vstd::arithmetic::div_mod::lemma_small_mod((n - d) as nat, n as nat);
            vstd::arithmetic::div_mod::lemma_mod_self_0(n);
        }
    }
}

/// The zeroth power of anything is the identity, whatever it holds.
pub proof fn lemma_power_zero_identity(r: KTransformation, t: KTransformation)
    requires
        is_power(r, t, 0),
    ensures
        r.is_identity(),
{
    assert forall|o: int, i: int|
        #![trigger r.perm_at(o, i)]
        #![trigger r.delta_at(o, i)]
        r.in_range(o, i) implies r.perm_at(o, i) == i && r.delta_at(o, i) == 0 by {
        assert(t.in_range(o, i));
        assert(pow_perm(t, o, i, 0) == i);
        assert(pow_delta(t, o, i, 0) == 0);
    }
}

/// The first power of a valid transformation is byte-equal to it.
pub proof fn lemma_power_one_is_self(r: KTransformation, t: KTransformation)
    requires
        t.valid(),
        is_power(r, t, 1),
        r.bytes().len() == t.kpuzzle_spec().num_bytes_spec(),
    ensures
        r.bytes() == t.bytes(),
{
    crate::kpuzzle::ktransformation::lemma_power_once(t);
    assert forall|o: int, i: int| r.in_range(o, i) implies #[trigger] r.perm_at(o, i)
        == #[trigger] t.perm_at(o, i) by {
        assert(t.in_range(o, i));
    }
    assert forall|o: int, i: int| r.in_range(o, i) implies #[trigger] r.delta_at(o, i)
        == #[trigger] t.delta_at(o, i) by {
        assert(t.in_range(o, i));
    }
    lemma_transformations_determined(r, t);
}

/// Powers of one transformation compose by adding their exponents:
/// `t.self_multiply(m).apply_transformation(t.self_multiply(k))` equals
/// `t.self_multiply(m + k)`, byte for byte, for nonnegative exponents.
pub proof fn lemma_self_multiply_add(
    t: KTransformation,
    a: KTransformation,
    b: KTransformation,
    ab: KTransformation,
    c: KTransformation,
    m: nat,
    k: nat,
)
    requires
        t.valid(),
        is_power(a, t, m),
        is_power(b, t, k),
        is_composition(ab, a, b),
        a.kpuzzle_spec() == t.kpuzzle_spec(),
        ab.bytes().len() == t.kpuzzle_spec().num_bytes_spec(),
        ab.kpuzzle_spec() == t.kpuzzle_spec(),
        is_power(c, t, (m + k) as nat),
        c.bytes().len() == t.kpuzzle_spec().num_bytes_spec(),
    ensures
        ab.bytes() == c.bytes(),
{
    crate::kpuzzle::ktransformation::lemma_power_compose(t, a, b, ab, m, k);
    assert forall|o: int, i: int| ab.in_range(o, i) implies #[trigger] ab.perm_at(o, i)
        == #[trigger] c.perm_at(o, i) by {
        assert(t.in_range(o, i));
    }
    assert forall|o: int, i: int| ab.in_range(o, i) implies #[trigger] ab.delta_at(o, i)
        == #[trigger] c.delta_at(o, i) by {
        assert(t.in_range(o, i));
    }
    lemma_transformations_determined(ab, c);
}


/// Two patterns of one puzzle with the same entries everywhere are
/// byte-equal.
pub proof fn lemma_patterns_determined(x: KPattern, y: KPattern)
    requires
        x.wf(),
        y.wf(),
        x.kpuzzle_spec() == y.kpuzzle_spec(),
        forall|o: int, i: int|
            x.in_range(o, i) ==> #[trigger] x.piece_at(o, i) == #[trigger] y.piece_at(o, i),
        forall|o: int, i: int|
            x.in_range(o, i) ==> #[trigger] x.ori_code_at(o, i) == #[trigger] y.ori_code_at(o, i),
    ensures
        x.bytes() == y.bytes(),
{
    let p = x.kpuzzle_spec();
    assert forall|o: int| 0 <= o < p.num_orbits() implies #[trigger] same_orbit_segments(
        p,
        x.bytes(),
        y.bytes(),
        o,
    ) by {
        p.lemma_orbit_in_bounds(o);
        assert forall|i: int|
            0 <= i < p.orbit(o).num_pieces as int implies perm_segment(p, x.bytes(), o)[i]
            == perm_segment(p, y.bytes(), o)[i] && orient_segment(p, x.bytes(), o)[i]
            == orient_segment(p, y.bytes(), o)[i] by {
            assert(x.in_range(o, i));
            assert(x.piece_at(o, i) == y.piece_at(o, i));
            assert(x.ori_code_at(o, i) == y.ori_code_at(o, i));
        }
        assert(perm_segment(p, x.bytes(), o) =~= perm_segment(p, y.bytes(), o));
        assert(orient_segment(p, x.bytes(), o) =~= orient_segment(p, y.bytes(), o));
    }
    lemma_bytes_determined(p, x.bytes(), y.bytes());
}

/// Applying the identity transformation leaves a pattern byte-identical.
pub proof fn lemma_pattern_apply_identity(pat: KPattern, id: KTransformation, r: KPattern)
    requires
        pat.valid_pattern(),
        id.is_identity(),
        pat.same_puzzle_as(id),
        is_pattern_application(r, pat, id),
        r.bytes().len() == pat.kpuzzle_spec().num_bytes_spec(),
    ensures
        r.bytes() == pat.bytes(),
{
    let p = pat.kpuzzle_spec();
    assert forall|o: int, i: int| r.in_range(o, i) implies #[trigger] r.piece_at(o, i)
        == #[trigger] pat.piece_at(o, i) by {
        assert(pat.in_range(o, i));
        assert(id.perm_at(o, i) == i);
    }
    assert forall|o: int, i: int| r.in_range(o, i) implies #[trigger] r.ori_code_at(o, i)
        == #[trigger] pat.ori_code_at(o, i) by {
        assert(pat.in_range(o, i));
        assert(id.perm_at(o, i) == i);
        assert(id.delta_at(o, i) == 0);
        lemma_wf_orbit(p, o);
        lemma_pattern_code_valid(pat, o, i);
        p.orbit(o).orientation_packer.lemma_transform_zero(pat.ori_code_at(o, i));
    }
    lemma_patterns_determined(r, pat);
}

/// Pattern application is a left action: applying `a` then `b` to a
/// pattern equals applying the composition of `a` then `b` once:
/// `p.apply(a).apply(b) == p.apply(a.apply_transformation(b))`.
#[verifier::rlimit(100)]
pub proof fn lemma_pattern_action(
    pat: KPattern,
    a: KTransformation,
    b: KTransformation,
    pa: KPattern,
    pab: KPattern,
    ab: KTransformation,
    pc: KPattern,
)
    requires
        pat.valid_pattern(),
        a.valid(),
        b.valid(),
        pat.same_puzzle_as(a),
        pat.same_puzzle_as(b),
        is_pattern_application(pa, pat, a),
        pa.valid_pattern(),
        is_pattern_application(pab, pa, b),
        is_composition(ab, a, b),
        ab.valid(),
        ab.kpuzzle_spec() == pat.kpuzzle_spec(),
        is_pattern_application(pc, pat, ab),
        pab.bytes().len() == pat.kpuzzle_spec().num_bytes_spec(),
        pc.bytes().len() == pat.kpuzzle_spec().num_bytes_spec(),
    ensures
        pab.bytes() == pc.bytes(),
{
    let p = pat.kpuzzle_spec();
    assert forall|o: int, i: int| pab.in_range(o, i) implies #[trigger] pab.piece_at(o, i)
        == #[trigger] pc.piece_at(o, i) by {
        assert(pat.in_range(o, i));
        lemma_valid_bounds(b, o, i);
        assert(pa.in_range(o, b.perm_at(o, i)));
        assert(pab.piece_at(o, i) == pa.piece_at(o, b.perm_at(o, i)));
        assert(pa.piece_at(o, b.perm_at(o, i)) == pat.piece_at(o, a.perm_at(o, b.perm_at(o, i))));
        assert(pc.piece_at(o, i) == pat.piece_at(o, ab.perm_at(o, i)));
        assert(ab.perm_at(o, i) == a.perm_at(o, b.perm_at(o, i)));
    }
    assert forall|o: int, i: int| pab.in_range(o, i) implies #[trigger] pab.ori_code_at(o, i)
        == #[trigger] pc.ori_code_at(o, i) by {
        lemma_wf_orbit(p, o);
        assert(pat.in_range(o, i));
        lemma_valid_bounds(b, o, i);
        let j = b.perm_at(o, i);
        assert(pa.in_range(o, j));
        lemma_valid_bounds(a, o, j);
        let w = a.perm_at(o, j);
        assert(pat.in_range(o, w));
        lemma_pattern_code_valid(pat, o, w);
        let packer = p.orbit(o).orientation_packer;
        let c0 = pat.ori_code_at(o, w);
        let d1 = a.delta_at(o, j);
        let d2 = b.delta_at(o, i);
        assert(pab.ori_code_at(o, i) == packer.transform_code(pa.ori_code_at(o, j), d2));
        assert(pa.ori_code_at(o, j) == packer.transform_code(c0, d1));
        assert(pc.ori_code_at(o, i) == packer.transform_code(c0, ab.delta_at(o, i)));
        assert(ab.delta_at(o, i) == (d1 + d2) % a.num_or(o));
        packer.lemma_transform_transform(c0, d1, d2);
    }
    lemma_patterns_determined(pab, pc);
}


/// A bijective transformation has exactly one inverse: any two
/// transformations that invert it are byte-equal. Together with
/// `is_power` at exponent 1, this pins `self_multiply(-1)` to
/// `invert()`.
#[verifier::rlimit(100)]
pub proof fn lemma_inverse_unique(t: KTransformation, i1: KTransformation, i2: KTransformation)
    requires
        t.valid(),
        t.bijective(),
        is_inverse_of(i1, t),
        is_inverse_of(i2, t),
        i1.wf(),
        i2.wf(),
    ensures
        i1.bytes() == i2.bytes(),
{
    assert forall|o: int, f: int| i1.in_range(o, f) implies #[trigger] i1.perm_at(o, f)
        == #[trigger] i2.perm_at(o, f) by {
        assert(t.in_range(o, f));
        let w = choose|w: int| t.in_range(o, w) && #[trigger] t.perm_at(o, w) == f;
        assert(i1.perm_at(o, t.perm_at(o, w)) == w);
        assert(i2.perm_at(o, t.perm_at(o, w)) == w);
    }
    assert forall|o: int, f: int| i1.in_range(o, f) implies #[trigger] i1.delta_at(o, f)
        == #[trigger] i2.delta_at(o, f) by {
        assert(t.in_range(o, f));
        let w = choose|w: int| t.in_range(o, w) && #[trigger] t.perm_at(o, w) == f;
        assert(i1.delta_at(o, t.perm_at(o, w)) == (t.num_or(o) - t.delta_at(o, w)) % t.num_or(o));
        assert(i2.delta_at(o, t.perm_at(o, w)) == (t.num_or(o) - t.delta_at(o, w)) % t.num_or(o));
    }
    lemma_transformations_determined(i1, i2);
}

} // verus!
