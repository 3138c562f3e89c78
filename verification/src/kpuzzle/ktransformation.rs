use vstd::prelude::*;

use crate::alg::Amount;
use crate::kpuzzle::definition::KTransformationData;
use crate::kpuzzle::definition::KTransformationOrbitData;
use crate::kpuzzle::definition::KPuzzleOrbitName;
use crate::kpuzzle::definition::transformation_data_lookup;
use crate::kpuzzle::errors::ConversionError;
use crate::kpuzzle::errors::InvalidKTransformationDataError;
use crate::kpuzzle::kpuzzle::KPuzzle;
use crate::kpuzzle::kpuzzle::KPuzzleOrbitInfo;
use crate::kpuzzle::kpuzzle::orient_segment;
use crate::kpuzzle::kpuzzle::perm_segment;
use crate::kpuzzle::kpuzzle::prefix_bytes;
use crate::kpuzzle::packed_orbit_data::PackedOrbitData;

verus! {

/// The net effect of a move or move sequence: per orbit, slot `i` takes
/// its piece from slot `permutation[i]` and gains `orientation_delta[i]`
/// orientations. Identity: `permutation[i] == i`, all deltas 0.
#[derive(Debug)]
pub struct KTransformation {
    pub packed_orbit_data: PackedOrbitData,
}

impl KTransformation {
    /// The puzzle this transformation belongs to.
    pub open spec fn kpuzzle_spec(self) -> KPuzzle {
        self.packed_orbit_data.kpuzzle
    }

    /// The packed buffer contents.
    pub open spec fn bytes(self) -> Seq<u8> {
        self.packed_orbit_data.bytes@
    }

    pub open spec fn wf(self) -> bool {
        self.packed_orbit_data.wf()
    }

    /// Whether `(o, i)` names a slot: orbit `o`, piece index `i`.
    pub open spec fn in_range(self, o: int, i: int) -> bool {
        0 <= o < self.kpuzzle_spec().num_orbits() && 0 <= i < self.kpuzzle_spec().orbit(
            o,
        ).num_pieces as int
    }

    /// Which slot this slot takes its piece from.
    pub open spec fn perm_at(self, o: int, i: int) -> int {
        perm_segment(self.kpuzzle_spec(), self.bytes(), o)[i] as int
    }

    /// The orientation change this slot applies.
    pub open spec fn delta_at(self, o: int, i: int) -> int {
        orient_segment(self.kpuzzle_spec(), self.bytes(), o)[i] as int
    }

    /// The orientation count of orbit `o`.
    pub open spec fn num_or(self, o: int) -> int {
        self.kpuzzle_spec().orbit(o).num_orientations as int
    }

    /// Every entry in range: permutation targets are slots of the orbit,
    /// deltas are below the orbit's orientation count.
    pub open spec fn valid(self) -> bool {
        &&& self.wf()
        &&& forall|o: int, i: int|
            #![trigger self.perm_at(o, i)]
            self.in_range(o, i) ==> 0 <= self.perm_at(o, i) < self.kpuzzle_spec().orbit(
                o,
            ).num_pieces as int
        &&& forall|o: int, i: int|
            #![trigger self.delta_at(o, i)]
            self.in_range(o, i) ==> 0 <= self.delta_at(o, i) < self.num_or(o)
    }

    /// Each orbit's permutation is injective.
    pub open spec fn injective(self) -> bool {
        forall|o: int, i1: int, i2: int|
            self.in_range(o, i1) && self.in_range(o, i2) && #[trigger] self.perm_at(o, i1)
                == #[trigger] self.perm_at(o, i2) ==> i1 == i2
    }

    /// Each orbit's permutation is a bijection on its slots.
    pub open spec fn bijective(self) -> bool {
        self.injective() && forall|o: int, j: int|
            self.in_range(o, j) ==> exists|i: int|
                self.in_range(o, i) && #[trigger] self.perm_at(o, i) == j
    }

    /// The identity transformation's contents: each slot keeps its piece
    /// and orientation.
    pub open spec fn is_identity(self) -> bool {
        &&& self.wf()
        &&& forall|o: int, i: int|
            self.in_range(o, i) ==> #[trigger] self.perm_at(o, i) == i
        &&& forall|o: int, i: int|
            self.in_range(o, i) ==> #[trigger] self.delta_at(o, i) == 0
    }

    pub open spec fn same_puzzle(self, other: KTransformation) -> bool {
        self.kpuzzle_spec() == other.kpuzzle_spec()
    }
}

/// Whether `r` holds the composition of `a` then `b`: per orbit and slot
/// `i`, `r.permutation[i] == a.permutation[b.permutation[i]]` and
/// `r.orientation_delta[i] == (a.orientation_delta[b.permutation[i]]
/// + b.orientation_delta[i]) mod num_orientations`.
pub open spec fn is_composition(r: KTransformation, a: KTransformation, b: KTransformation) -> bool {
    &&& r.wf()
    &&& r.kpuzzle_spec() == a.kpuzzle_spec()
    &&& forall|o: int, i: int|
        a.in_range(o, i) ==> #[trigger] r.perm_at(o, i) == a.perm_at(o, b.perm_at(o, i))
    &&& forall|o: int, i: int|
        a.in_range(o, i) ==> #[trigger] r.delta_at(o, i) == (a.delta_at(o, b.perm_at(o, i))
            + b.delta_at(o, i)) % a.num_or(o)
}

/// Whether `inv` inverts `t`: the slot `t` fills from `i` maps back to
/// `i`, with the opposite orientation change.
pub open spec fn is_inverse_of(inv: KTransformation, t: KTransformation) -> bool {
    &&& inv.wf()
    &&& inv.kpuzzle_spec() == t.kpuzzle_spec()
    &&& forall|o: int, i: int|
        t.in_range(o, i) ==> #[trigger] inv.perm_at(o, t.perm_at(o, i)) == i
    &&& forall|o: int, i: int|
        t.in_range(o, i) ==> #[trigger] inv.delta_at(o, t.perm_at(o, i)) == (t.num_or(o)
            - t.delta_at(o, i)) % t.num_or(o)
}

/// Where slot `i` takes its piece from after `k` applications of `t`.
pub open spec fn pow_perm(t: KTransformation, o: int, i: int, k: nat) -> int
    decreases k,
{
    if k == 0 {
        i
    } else {
        t.perm_at(o, pow_perm(t, o, i, (k - 1) as nat))
    }
}

/// The orientation change slot `i` gains after `k` applications of `t`.
pub open spec fn pow_delta(t: KTransformation, o: int, i: int, k: nat) -> int
    decreases k,
{
    if k == 0 {
        0
    } else {
        (t.delta_at(o, pow_perm(t, o, i, (k - 1) as nat)) + pow_delta(t, o, i, (k - 1) as nat))
            % t.num_or(o)
    }
}

/// Whether `r` is `t` applied `k` times.
pub open spec fn is_power(r: KTransformation, t: KTransformation, k: nat) -> bool {
    &&& r.wf()
    &&& r.kpuzzle_spec() == t.kpuzzle_spec()
    &&& forall|o: int, i: int|
        t.in_range(o, i) ==> #[trigger] r.perm_at(o, i) == pow_perm(t, o, i, k)
    &&& forall|o: int, i: int|
        t.in_range(o, i) ==> #[trigger] r.delta_at(o, i) == pow_delta(t, o, i, k)
}

/// Whether `r` is `base` raised to the (possibly negative) power `rel`:
/// for a nonnegative `rel`, `base` applied `rel` times; for a negative
/// one, an inverse of `base` applied `-rel` times. A base whose
/// permutation is not injective has no true inverse; its "inverse" is
/// then only pinned to be some valid transformation of the same puzzle,
/// as the inversion routine produces.
pub open spec fn is_signed_power(r: KTransformation, base: KTransformation, rel: int) -> bool {
    if rel >= 0 {
        is_power(r, base, rel as nat)
    } else {
        exists|inv: KTransformation|
            {
                &&& #[trigger] inv.valid()
                &&& inv.kpuzzle_spec() == base.kpuzzle_spec()
                &&& (base.injective() ==> is_inverse_of(inv, base))
                &&& is_power(r, inv, (-rel) as nat)
            }
    }
}

/// Whether the transformation's contents equal the externally supplied
/// data, orbit by orbit (looked up by the orbit's name).
pub open spec fn matches_transformation_data(
    t: KTransformation,
    p: KPuzzle,
    data: Seq<(KPuzzleOrbitName, KTransformationOrbitData)>,
) -> bool {
    forall|o: int|
        0 <= o < p.num_orbits() ==> {
            let entry = transformation_data_lookup(data, (#[trigger] p.orbit(o)).name@);
            &&& entry is Some
            &&& forall|i: int|
                0 <= i < p.orbit(o).num_pieces as int ==> t.perm_at(o, i)
                    == entry->Some_0.permutation@[i] as int && t.delta_at(o, i)
                    == entry->Some_0.orientation_delta@[i] as int
        }
}

/// Whether one orbit's supplied data is well-shaped for its orbit: right
/// lengths, permutation targets in range, deltas below the orientation
/// count.
pub open spec fn transformation_orbit_data_ok(info: KPuzzleOrbitInfo, d: KTransformationOrbitData) -> bool {
    &&& d.permutation@.len() == info.num_pieces as int
    &&& d.orientation_delta@.len() == info.num_pieces as int
    &&& forall|i: int|
        0 <= i < info.num_pieces as int ==> (#[trigger] d.permutation@[i] as int)
            < info.num_pieces as int
    &&& forall|i: int|
        0 <= i < info.num_pieces as int ==> (#[trigger] d.orientation_delta@[i] as int)
            < info.num_orientations as int
}

/// Whether a byte sequence is a permutation of `0 .. len`.
pub open spec fn seq_is_permutation(s: Seq<u8>) -> bool {
    &&& forall|i1: int, i2: int|
        0 <= i1 < s.len() && 0 <= i2 < s.len() && #[trigger] s[i1] == #[trigger] s[i2] ==> i1 == i2
    &&& forall|j: u8|
        (j as int) < s.len() ==> #[trigger] s.contains(j)
}

/// Slot numbers `0, 1, ...` as a permutation segment: the identity.
pub open spec fn id_perm_vals(np: nat) -> Seq<u8> {
    Seq::new(np, |k: int| k as u8)
}

/// An all-zero orientation segment.
pub open spec fn zero_vals(np: nat) -> Seq<u8> {
    Seq::new(np, |k: int| 0u8)
}

/// Orbit `o2` of `bytes` holds the identity: each permutation byte names
/// its own slot, each orientation byte is 0.
pub open spec fn identity_orbit(p: KPuzzle, bytes: Seq<u8>, o2: int) -> bool {
    &&& perm_segment(p, bytes, o2) == id_perm_vals(p.orbit(o2).num_pieces as nat)
    &&& orient_segment(p, bytes, o2) == zero_vals(p.orbit(o2).num_pieces as nat)
}

/// The first `o` orbits of `bytes` hold the identity.
pub open spec fn identity_upto(p: KPuzzle, bytes: Seq<u8>, o: int) -> bool {
    forall|o2: int| 0 <= o2 < o ==> #[trigger] identity_orbit(p, bytes, o2)
}

pub proof fn lemma_identity_extend(p: KPuzzle, oi: int, done: Seq<u8>, full: Seq<u8>)
    requires
        p.wf(),
        0 <= oi < p.num_orbits(),
        done.len() == prefix_bytes(p.infos(), oi),
        identity_upto(p, done, oi),
        full == done + id_perm_vals(p.orbit(oi).num_pieces as nat) + zero_vals(
            p.orbit(oi).num_pieces as nat,
        ),
    ensures
        identity_upto(p, full, oi + 1),
        full.len() == prefix_bytes(p.infos(), oi + 1),
{
    let np = p.orbit(oi).num_pieces as nat;
    p.lemma_extend_orbit_segments(oi, done, id_perm_vals(np), zero_vals(np), full);
    assert forall|o2: int| 0 <= o2 < oi + 1 implies #[trigger] identity_orbit(p, full, o2) by {
        if o2 < oi {
            assert(identity_orbit(p, done, o2));
        }
    }
}

pub proof fn lemma_identity_complete(p: KPuzzle, r: KTransformation)
    requires
        p.wf(),
        r.kpuzzle_spec() == p,
        r.bytes().len() == p.num_bytes_spec(),
        identity_upto(p, r.bytes(), p.num_orbits()),
    ensures
        r.is_identity(),
        r.valid(),
{
    assert forall|o2: int, i2: int| r.in_range(o2, i2) implies #[trigger] r.perm_at(o2, i2)
        == i2 by {
        assert(identity_orbit(p, r.bytes(), o2));
        assert(id_perm_vals(p.orbit(o2).num_pieces as nat)[i2] == i2 as u8);
    }
    assert forall|o2: int, i2: int| r.in_range(o2, i2) implies #[trigger] r.delta_at(o2, i2)
        == 0 by {
        assert(identity_orbit(p, r.bytes(), o2));
        assert(zero_vals(p.orbit(o2).num_pieces as nat)[i2] == 0u8);
    }
}

impl KPuzzle {
    /// The identity transformation: every slot keeps its piece and
    /// orientation.
    #[verifier::loop_isolation(false)]
    pub fn identity_transformation(&self) -> (r: KTransformation)
        requires
            self.wf(),
        ensures
            r.is_identity(),
            r.valid(),
            r.kpuzzle_spec() == *self,
    {
        let num_orbits = self.num_orbit_infos();
        let mut bytes: Vec<u8> = Vec::new();
        let mut o: usize = 0;
        while o < num_orbits
            invariant
                0 <= o <= num_orbits,
                self.wf(),
                num_orbits as int == self.num_orbits(),
                bytes@.len() == prefix_bytes(self.infos(), o as int),
                identity_upto(*self, bytes@, o as int),
            decreases num_orbits - o,
        {
            let ghost done = bytes@;
            let info = self.orbit_info_at(o);
            let num_pieces = info.num_pieces;
            let ghost np = num_pieces as int;
            let mut i: u8 = 0;
            while i < num_pieces
                invariant
                    0 <= i <= num_pieces,
                    bytes@ == done + id_perm_vals(i as nat),
                decreases num_pieces - i,
            {
                bytes.push(i);
                proof {
                    assert(bytes@ =~= done + id_perm_vals(i as nat + 1));
                }
                i = i + 1;
            }
            let ghost perm_part = id_perm_vals(np as nat);
            let mut i: u8 = 0;
            while i < num_pieces
                invariant
                    0 <= i <= num_pieces,
                    np == num_pieces as int,
                    perm_part == id_perm_vals(np as nat),
                    bytes@ == done + perm_part + zero_vals(i as nat),
                decreases num_pieces - i,
            {
                bytes.push(0);
                proof {
                    assert(bytes@ =~= done + perm_part + zero_vals(i as nat + 1));
                }
                i = i + 1;
            }
            proof {
                lemma_identity_extend(*self, o as int, done, bytes@);
            }
            o = o + 1;
        }
        let r = KTransformation {
            packed_orbit_data: PackedOrbitData { kpuzzle: self.clone(), bytes },
        };
        proof {
            lemma_identity_complete(*self, r);
        }
        r
    }
}


/// The permutation segment of the composition of `a` then `b` at orbit
/// `o`: slot `i` takes its piece from `a.permutation[b.permutation[i]]`.
pub open spec fn composed_perm_vals(a: KTransformation, b: KTransformation, o: int) -> Seq<u8> {
    Seq::new(
        a.kpuzzle_spec().orbit(o).num_pieces as nat,
        |i: int| a.perm_at(o, b.perm_at(o, i)) as u8,
    )
}

/// The orientation segment of the composition of `a` then `b` at orbit
/// `o`: `(a.orientation_delta[b.permutation[i]] + b.orientation_delta[i])
/// mod num_orientations`.
pub open spec fn composed_delta_vals(a: KTransformation, b: KTransformation, o: int) -> Seq<u8> {
    Seq::new(
        a.kpuzzle_spec().orbit(o).num_pieces as nat,
        |i: int| ((a.delta_at(o, b.perm_at(o, i)) + b.delta_at(o, i)) % a.num_or(o)) as u8,
    )
}

/// Orbit `o2` of `bytes` holds the composition of `a` then `b`.
pub open spec fn composed_orbit(
    p: KPuzzle,
    a: KTransformation,
    b: KTransformation,
    bytes: Seq<u8>,
    o2: int,
) -> bool {
    &&& perm_segment(p, bytes, o2) == composed_perm_vals(a, b, o2)
    &&& orient_segment(p, bytes, o2) == composed_delta_vals(a, b, o2)
}

/// The first `o` orbits of `bytes` hold the composition of `a` then `b`.
pub open spec fn composed_upto(
    p: KPuzzle,
    a: KTransformation,
    b: KTransformation,
    bytes: Seq<u8>,
    o: int,
) -> bool {
    forall|o2: int| 0 <= o2 < o ==> #[trigger] composed_orbit(p, a, b, bytes, o2)
}

/// A subrange below an untouched bound is unchanged.
#[verifier::spinoff_prover]
pub proof fn lemma_subrange_unchanged(
    bytes1: Seq<u8>,
    bytes2: Seq<u8>,
    lo: int,
    hi: int,
    bound: int,
)
    requires
        bytes2.len() == bytes1.len(),
        0 <= lo <= hi <= bound <= bytes1.len(),
        forall|j: int| 0 <= j < bytes1.len() && j < bound ==> #[trigger] bytes2[j] == bytes1[j],
    ensures
        bytes2.subrange(lo, hi) == bytes1.subrange(lo, hi),
{
    assert(bytes2.subrange(lo, hi) =~= bytes1.subrange(lo, hi));
}

/// Writes confined to byte positions at or past orbit `o`'s region
/// leave every earlier orbit's two segments unchanged.
#[verifier::rlimit(100)]
#[verifier::spinoff_prover]
pub proof fn lemma_window_preserves_earlier_orbits(
    p: KPuzzle,
    bytes1: Seq<u8>,
    bytes2: Seq<u8>,
    o: int,
)
    requires
        p.wf(),
        0 <= o < p.num_orbits(),
        bytes1.len() == p.num_bytes_spec(),
        bytes2.len() == bytes1.len(),
        forall|j: int|
            0 <= j < bytes1.len() && j < prefix_bytes(p.infos(), o) ==> #[trigger] bytes2[j]
                == bytes1[j],
    ensures
        forall|o2: int|
            0 <= o2 < o ==> #[trigger] perm_segment(p, bytes2, o2) == perm_segment(p, bytes1, o2),
        forall|o2: int|
            0 <= o2 < o ==> #[trigger] orient_segment(p, bytes2, o2) == orient_segment(
                p,
                bytes1,
                o2,
            ),
{
    assert forall|o2: int|
        0 <= o2 < o implies #[trigger] perm_segment(p, bytes2, o2) == perm_segment(
        p,
        bytes1,
        o2,
    ) by {
        assert(p.infos()[o2] == p.orbit(o2));
        p.lemma_orbit_in_bounds(o2);
        crate::kpuzzle::kpuzzle::prefix_bytes_monotone(p.infos(), o2 + 1, o);
        crate::kpuzzle::kpuzzle::prefix_bytes_monotone(p.infos(), o, p.num_orbits());
        let off = p.orbit(o2).pieces_or_permutations_offset as int;
        let np2 = p.orbit(o2).num_pieces as int;
        assert(prefix_bytes(p.infos(), o2 + 1) == prefix_bytes(p.infos(), o2) + 2 * np2);
        lemma_subrange_unchanged(bytes1, bytes2, off, off + np2, prefix_bytes(p.infos(), o));
    }
    assert forall|o2: int|
        0 <= o2 < o implies #[trigger] orient_segment(p, bytes2, o2) == orient_segment(
        p,
        bytes1,
        o2,
    ) by {
        assert(p.infos()[o2] == p.orbit(o2));
        p.lemma_orbit_in_bounds(o2);
        crate::kpuzzle::kpuzzle::prefix_bytes_monotone(p.infos(), o2 + 1, o);
        crate::kpuzzle::kpuzzle::prefix_bytes_monotone(p.infos(), o, p.num_orbits());
        let ooff = p.orbit(o2).orientations_offset as int;
        let np2 = p.orbit(o2).num_pieces as int;
        assert(prefix_bytes(p.infos(), o2 + 1) == prefix_bytes(p.infos(), o2) + 2 * np2);
        lemma_subrange_unchanged(bytes1, bytes2, ooff, ooff + np2, prefix_bytes(p.infos(), o));
    }
}

pub proof fn lemma_composed_complete(a: KTransformation, b: KTransformation, r: KTransformation)
    requires
        a.kpuzzle_spec().wf(),
        r.kpuzzle_spec() == a.kpuzzle_spec(),
        r.bytes().len() == a.kpuzzle_spec().num_bytes_spec(),
        composed_upto(a.kpuzzle_spec(), a, b, r.bytes(), a.kpuzzle_spec().num_orbits()),
    ensures
        is_composition(r, a, b),
{
    let p = a.kpuzzle_spec();
    assert forall|o2: int, i2: int| a.in_range(o2, i2) implies #[trigger] r.perm_at(o2, i2)
        == a.perm_at(o2, b.perm_at(o2, i2)) by {
        assert(composed_orbit(p, a, b, r.bytes(), o2));
        assert(composed_perm_vals(a, b, o2)[i2] == a.perm_at(o2, b.perm_at(o2, i2)) as u8);
        assert(r.perm_at(o2, i2) == perm_segment(p, r.bytes(), o2)[i2] as int);
    }
    assert forall|o2: int, i2: int| a.in_range(o2, i2) implies #[trigger] r.delta_at(o2, i2) == (
    a.delta_at(o2, b.perm_at(o2, i2)) + b.delta_at(o2, i2)) % a.num_or(o2) by {
        assert(composed_orbit(p, a, b, r.bytes(), o2));
        assert(composed_delta_vals(a, b, o2)[i2] == ((a.delta_at(o2, b.perm_at(o2, i2))
            + b.delta_at(o2, i2)) % a.num_or(o2)) as u8);
        assert(r.delta_at(o2, i2) == orient_segment(p, r.bytes(), o2)[i2] as int);
        assert(0 <= (a.delta_at(o2, b.perm_at(o2, i2)) + b.delta_at(o2, i2)) % a.num_or(o2)
            < 256) by {
            assert(p.infos()[o2] == p.orbit(o2));
        }
    }
}

/// Any entry of a valid transformation is in its orbit's ranges.
pub proof fn lemma_valid_bounds(t: KTransformation, o: int, i: int)
    requires
        t.valid(),
        t.in_range(o, i),
    ensures
        0 <= t.perm_at(o, i) < t.kpuzzle_spec().orbit(o).num_pieces as int,
        0 <= t.delta_at(o, i) < t.num_or(o),
        t.in_range(o, t.perm_at(o, i)),
{
}

/// The facts a well-formed puzzle gives about one orbit's layout entry.
pub proof fn lemma_wf_orbit(p: KPuzzle, o: int)
    requires
        p.wf(),
        0 <= o < p.num_orbits(),
    ensures
        1 <= p.orbit(o).num_orientations <= 107,
        p.orbit(o).orientation_packer.wf(),
        p.orbit(o).orientation_packer.num_orientations_spec() == p.orbit(
            o,
        ).num_orientations as int,
        p.orbit(o).pieces_or_permutations_offset as int == prefix_bytes(p.infos(), o),
        p.orbit(o).orientations_offset as int == prefix_bytes(p.infos(), o) + p.orbit(
            o,
        ).num_pieces as int,
{
    assert(p.infos()[o] == p.orbit(o));
}

impl KTransformation {
    /// The puzzle this transformation belongs to.
    pub fn kpuzzle(&self) -> (r: &KPuzzle)
        ensures
            r == &self.packed_orbit_data.kpuzzle,
    {
        &self.packed_orbit_data.kpuzzle
    }

    /// The raw packed bytes, in the puzzle's fixed layout.
    pub fn byte_slice(&self) -> (r: &[u8])
        ensures
            r@ == self.bytes(),
    {
        self.packed_orbit_data.byte_slice()
    }

    /// One byte of the permutation segment, by orbit index.
    pub(crate) fn perm_byte(&self, o: usize, i: usize) -> (r: u8)
        requires
            self.wf(),
            0 <= o < self.kpuzzle_spec().num_orbits(),
            0 <= i < self.kpuzzle_spec().orbit(o as int).num_pieces as int,
        ensures
            r as int == self.perm_at(o as int, i as int),
    {
        proof {
            self.kpuzzle_spec().lemma_orbit_in_bounds(o as int);
        }
        let info = self.packed_orbit_data.kpuzzle.orbit_info_at(o);
        let r = self.packed_orbit_data.bytes[info.pieces_or_permutations_offset + i];
        proof {
            assert(perm_segment(self.kpuzzle_spec(), self.bytes(), o as int)[i as int] == r);
        }
        r
    }

    /// One byte of the orientation segment, by orbit index.
    pub(crate) fn delta_byte(&self, o: usize, i: usize) -> (r: u8)
        requires
            self.wf(),
            0 <= o < self.kpuzzle_spec().num_orbits(),
            0 <= i < self.kpuzzle_spec().orbit(o as int).num_pieces as int,
        ensures
            r as int == self.delta_at(o as int, i as int),
    {
        proof {
            self.kpuzzle_spec().lemma_orbit_in_bounds(o as int);
        }
        let info = self.packed_orbit_data.kpuzzle.orbit_info_at(o);
        let r = self.packed_orbit_data.bytes[info.orientations_offset + i];
        proof {
            assert(orient_segment(self.kpuzzle_spec(), self.bytes(), o as int)[i as int] == r);
        }
        r
    }

    /// Which slot `i` of the orbit takes its piece from.
    pub fn get_permutation_idx(&self, orbit_info: &KPuzzleOrbitInfo, i: u8) -> (r: u8)
        requires
            self.wf(),
            self.kpuzzle_spec().has_orbit_info(*orbit_info),
            (i as int) < orbit_info.num_pieces as int,
        ensures
            forall|o: int|
                0 <= o < self.kpuzzle_spec().num_orbits() && #[trigger] self.kpuzzle_spec().orbit(o)
                    == *orbit_info ==> r as int == self.perm_at(o, i as int),
    {
        proof {
            let o = choose|o: int|
                0 <= o < self.kpuzzle_spec().num_orbits() && self.kpuzzle_spec().orbit(o)
                    == *orbit_info;
            self.kpuzzle_spec().lemma_orbit_in_bounds(o);
        }
        let r = self.packed_orbit_data.bytes[orbit_info.pieces_or_permutations_offset + (
        i as usize)];
        proof {
            lemma_read_perm_byte(*self, *orbit_info, i as int, r);
        }
        r
    }

    /// The orientation change slot `i` of the orbit applies.
    pub fn get_orientation_delta(&self, orbit_info: &KPuzzleOrbitInfo, i: u8) -> (r: u8)
        requires
            self.wf(),
            self.kpuzzle_spec().has_orbit_info(*orbit_info),
            (i as int) < orbit_info.num_pieces as int,
        ensures
            forall|o: int|
                0 <= o < self.kpuzzle_spec().num_orbits() && #[trigger] self.kpuzzle_spec().orbit(o)
                    == *orbit_info ==> r as int == self.delta_at(o, i as int),
    {
        proof {
            let o = choose|o: int|
                0 <= o < self.kpuzzle_spec().num_orbits() && self.kpuzzle_spec().orbit(o)
                    == *orbit_info;
            self.kpuzzle_spec().lemma_orbit_in_bounds(o);
        }
        let r = self.packed_orbit_data.bytes[orbit_info.orientations_offset + (i as usize)];
        proof {
            lemma_read_orient_byte(*self, *orbit_info, i as int, r);
        }
        r
    }

    /// Writes which slot `i` of the orbit takes its piece from: exactly
    /// the byte at the orbit's permutation offset plus `i` changes, to
    /// `value`.
    pub fn set_permutation_idx(&mut self, orbit_info: &KPuzzleOrbitInfo, i: u8, value: u8)
        requires
            old(self).wf(),
            old(self).kpuzzle_spec().has_orbit_info(*orbit_info),
            (i as int) < orbit_info.num_pieces as int,
        ensures
            final(self).kpuzzle_spec() == old(self).kpuzzle_spec(),
            final(self).wf(),
            final(self).bytes() == old(self).bytes().update(
                orbit_info.pieces_or_permutations_offset + i as int,
                value,
            ),
    {
        proof {
            let o = choose|o: int|
                0 <= o < self.kpuzzle_spec().num_orbits() && self.kpuzzle_spec().orbit(o)
                    == *orbit_info;
            self.kpuzzle_spec().lemma_orbit_in_bounds(o);
        }
        self.packed_orbit_data.bytes.set(
            orbit_info.pieces_or_permutations_offset + (i as usize),
            value,
        );
    }

    /// Writes the orientation change slot `i` of the orbit applies:
    /// exactly the byte at the orbit's orientation offset plus `i`
    /// changes, to `orientation_delta`, which must be below the orbit's
    /// orientation count.
    pub fn set_orientation_delta(
        &mut self,
        orbit_info: &KPuzzleOrbitInfo,
        i: u8,
        orientation_delta: u8,
    )
        requires
            old(self).wf(),
            old(self).kpuzzle_spec().has_orbit_info(*orbit_info),
            (i as int) < orbit_info.num_pieces as int,
            (orientation_delta as int) < orbit_info.num_orientations as int,
        ensures
            final(self).kpuzzle_spec() == old(self).kpuzzle_spec(),
            final(self).wf(),
            final(self).bytes() == old(self).bytes().update(
                orbit_info.orientations_offset + i as int,
                orientation_delta,
            ),
    {
        proof {
            let o = choose|o: int|
                0 <= o < self.kpuzzle_spec().num_orbits() && self.kpuzzle_spec().orbit(o)
                    == *orbit_info;
            self.kpuzzle_spec().lemma_orbit_in_bounds(o);
        }
        self.packed_orbit_data.bytes.set(
            orbit_info.orientations_offset + (i as usize),
            orientation_delta,
        );
    }

    /// Applies `transformation` after `self`, producing the composition:
    /// `result.permutation[i] == self.permutation[transformation.permutation[i]]`,
    /// with orientation changes added modulo the orbit's count.
    #[verifier::loop_isolation(false)]
    pub fn apply_transformation(&self, transformation: &KTransformation) -> (r: KTransformation)
        requires
            self.valid(),
            transformation.valid(),
            self.same_puzzle(*transformation),
        ensures
            is_composition(r, *self, *transformation),
            r.valid(),
            r.kpuzzle_spec() == self.kpuzzle_spec(),
    {
        let p = self.packed_orbit_data.kpuzzle.clone();
        let num_orbits = p.num_orbit_infos();
        let mut bytes: Vec<u8> = Vec::new();
        let mut o: usize = 0;
        while o < num_orbits
            invariant
                0 <= o <= num_orbits,
                self.valid(),
                transformation.valid(),
                self.same_puzzle(*transformation),
                p == self.kpuzzle_spec(),
                p.wf(),
                num_orbits as int == p.num_orbits(),
                bytes@.len() == prefix_bytes(p.infos(), o as int),
                composed_upto(p, *self, *transformation, bytes@, o as int),
            decreases num_orbits - o,
        {
            let ghost done = bytes@;
            let perm_part = compose_orbit_perm(self, transformation, o);
            let delta_part = compose_orbit_delta(self, transformation, o);
            let mut k: usize = 0;
            while k < perm_part.len()
                invariant
                    0 <= k <= perm_part@.len(),
                    bytes@ == done + perm_part@.subrange(0, k as int),
                decreases perm_part@.len() - k,
            {
                bytes.push(perm_part[k]);
                proof {
                    assert(bytes@ =~= done + perm_part@.subrange(0, k as int + 1));
                }
                k = k + 1;
            }
            let mut k: usize = 0;
            while k < delta_part.len()
                invariant
                    0 <= k <= delta_part@.len(),
                    bytes@ == done + perm_part@ + delta_part@.subrange(0, k as int),
                    perm_part@.subrange(0, perm_part@.len() as int) == perm_part@,
                decreases delta_part@.len() - k,
            {
                bytes.push(delta_part[k]);
                proof {
                    assert(bytes@ =~= done + perm_part@ + delta_part@.subrange(0, k as int + 1));
                }
                k = k + 1;
            }
            proof {
                assert(perm_part@.subrange(0, perm_part@.len() as int) =~= perm_part@);
                assert(delta_part@.subrange(0, delta_part@.len() as int) =~= delta_part@);
                p.lemma_extend_orbit_segments(o as int, done, perm_part@, delta_part@, bytes@);
                assert forall|o2: int| 0 <= o2 < o as int + 1 implies #[trigger] composed_orbit(
                    p,
                    *self,
                    *transformation,
                    bytes@,
                    o2,
                ) by {
                    if o2 < o as int {
                        assert(composed_orbit(p, *self, *transformation, done, o2));
                    }
                }
            }
            o = o + 1;
        }
        let r = KTransformation { packed_orbit_data: PackedOrbitData { kpuzzle: p, bytes } };
        proof {
            lemma_composed_complete(*self, *transformation, r);
            lemma_composition_valid(*self, *transformation, r);
        }
        r
    }
}

/// One orbit's permutation segment of the composition of `a` then `b`.
#[verifier::loop_isolation(false)]
fn compose_orbit_perm(a: &KTransformation, b: &KTransformation, o: usize) -> (r: Vec<u8>)
    requires
        a.valid(),
        b.valid(),
        a.same_puzzle(*b),
        0 <= (o as int) < a.kpuzzle_spec().num_orbits(),
    ensures
        r@ == composed_perm_vals(*a, *b, o as int),
{
    let ghost pvals = composed_perm_vals(*a, *b, o as int);
    let info = a.packed_orbit_data.kpuzzle.orbit_info_at(o);
    let num_pieces = info.num_pieces;
    let ghost np = num_pieces as int;
    let mut r: Vec<u8> = Vec::new();
    let mut i: usize = 0;
    while i < num_pieces as usize
        invariant
            0 <= i <= np,
            np == a.kpuzzle_spec().orbit(o as int).num_pieces as int,
            r@ == pvals.subrange(0, i as int),
        decreases np - i,
    {
        proof {
            assert(b.in_range(o as int, i as int));
            lemma_valid_bounds(*b, o as int, i as int);
        }
        let from_idx = b.perm_byte(o, i);
        let v = a.perm_byte(o, from_idx as usize);
        r.push(v);
        proof {
            assert(pvals[i as int] == a.perm_at(o as int, b.perm_at(o as int, i as int)) as u8);
            assert(r@ =~= pvals.subrange(0, i as int + 1));
        }
        i = i + 1;
    }
    proof {
        assert(pvals.subrange(0, np) =~= pvals);
    }
    r
}

/// One orbit's orientation segment of the composition of `a` then `b`.
#[verifier::loop_isolation(false)]
fn compose_orbit_delta(a: &KTransformation, b: &KTransformation, o: usize) -> (r: Vec<u8>)
    requires
        a.valid(),
        b.valid(),
        a.same_puzzle(*b),
        0 <= (o as int) < a.kpuzzle_spec().num_orbits(),
    ensures
        r@ == composed_delta_vals(*a, *b, o as int),
{
    let ghost dvals = composed_delta_vals(*a, *b, o as int);
    let info = a.packed_orbit_data.kpuzzle.orbit_info_at(o);
    let num_pieces = info.num_pieces;
    let n = info.num_orientations;
    let ghost np = num_pieces as int;
    proof {
        lemma_wf_orbit(a.kpuzzle_spec(), o as int);
    }
    let mut r: Vec<u8> = Vec::new();
    let mut i: usize = 0;
    while i < num_pieces as usize
        invariant
            0 <= i <= np,
            np == a.kpuzzle_spec().orbit(o as int).num_pieces as int,
            n == a.kpuzzle_spec().orbit(o as int).num_orientations,
            1 <= n <= 107,
            r@ == dvals.subrange(0, i as int),
        decreases np - i,
    {
        proof {
            assert(b.in_range(o as int, i as int));
            lemma_valid_bounds(*b, o as int, i as int);
            assert(a.in_range(o as int, b.perm_at(o as int, i as int)));
            lemma_valid_bounds(*a, o as int, b.perm_at(o as int, i as int));
        }
        let from_idx = b.perm_byte(o, i);
        let prev = a.delta_byte(o, from_idx as usize);
        let d = b.delta_byte(o, i);
        let v = (prev + d) % n;
        r.push(v);
        proof {
            assert(dvals[i as int] == ((a.delta_at(o as int, b.perm_at(o as int, i as int))
                + b.delta_at(o as int, i as int)) % a.num_or(o as int)) as u8);
            assert(r@ =~= dvals.subrange(0, i as int + 1));
        }
        i = i + 1;
    }
    proof {
        assert(dvals.subrange(0, np) =~= dvals);
    }
    r
}

/// The composition of two valid transformations of one puzzle is valid.
pub proof fn lemma_composition_valid(a: KTransformation, b: KTransformation, r: KTransformation)
    requires
        a.valid(),
        b.valid(),
        a.same_puzzle(b),
        is_composition(r, a, b),
    ensures
        r.valid(),
{
    assert forall|o: int, i: int|
        #![trigger r.perm_at(o, i)]
        r.in_range(o, i) implies 0 <= r.perm_at(o, i) < r.kpuzzle_spec().orbit(
        o,
    ).num_pieces as int by {
        assert(a.in_range(o, i));
        lemma_valid_bounds(b, o, i);
        lemma_valid_bounds(a, o, b.perm_at(o, i));
    }
    assert forall|o: int, i: int|
        #![trigger r.delta_at(o, i)]
        r.in_range(o, i) implies 0 <= r.delta_at(o, i) < r.num_or(o) by {
        assert(a.in_range(o, i));
        lemma_valid_bounds(b, o, i);
        lemma_valid_bounds(a, o, b.perm_at(o, i));
    }
}

/// Reading the byte at an orbit layout entry's permutation offset reads
/// that orbit's permutation entry, whichever index the entry has.
pub proof fn lemma_read_perm_byte(t: KTransformation, info: KPuzzleOrbitInfo, i: int, r: u8)
    requires
        t.wf(),
        0 <= i < info.num_pieces as int,
        info.pieces_or_permutations_offset + i < t.bytes().len(),
        r == t.bytes()[info.pieces_or_permutations_offset + i],
    ensures
        forall|o: int|
            0 <= o < t.kpuzzle_spec().num_orbits() && #[trigger] t.kpuzzle_spec().orbit(o) == info
                ==> r as int == t.perm_at(o, i),
{
    assert forall|o: int|
        0 <= o < t.kpuzzle_spec().num_orbits() && #[trigger] t.kpuzzle_spec().orbit(o)
            == info implies r as int == t.perm_at(o, i) by {
        t.kpuzzle_spec().lemma_orbit_in_bounds(o);
        assert(perm_segment(t.kpuzzle_spec(), t.bytes(), o)[i] == t.bytes()[info
            .pieces_or_permutations_offset + i]);
    }
}

/// Reading the byte at an orbit layout entry's orientation offset reads
/// that orbit's orientation entry, whichever index the entry has.
pub proof fn lemma_read_orient_byte(t: KTransformation, info: KPuzzleOrbitInfo, i: int, r: u8)
    requires
        t.wf(),
        0 <= i < info.num_pieces as int,
        info.orientations_offset + i < t.bytes().len(),
        r == t.bytes()[info.orientations_offset + i],
    ensures
        forall|o: int|
            0 <= o < t.kpuzzle_spec().num_orbits() && #[trigger] t.kpuzzle_spec().orbit(o) == info
                ==> r as int == t.delta_at(o, i),
{
    assert forall|o: int|
        0 <= o < t.kpuzzle_spec().num_orbits() && #[trigger] t.kpuzzle_spec().orbit(o)
            == info implies r as int == t.delta_at(o, i) by {
        t.kpuzzle_spec().lemma_orbit_in_bounds(o);
        assert(orient_segment(t.kpuzzle_spec(), t.bytes(), o)[i] == t.bytes()[info
            .orientations_offset + i]);
    }
}

/// The least slot at or past `f` that `t` fills slot `i`'s piece from,
/// in orbit `o`; `0` when no such slot exists.
pub open spec fn first_preimage_from(t: KTransformation, o: int, f: int, i: int) -> int
    decreases t.kpuzzle_spec().orbit(o).num_pieces as int - f,
{
    let np = t.kpuzzle_spec().orbit(o).num_pieces as int;
    if f < 0 || f >= np {
        0
    } else if t.perm_at(o, f) == i {
        f
    } else {
        first_preimage_from(t, o, f + 1, i)
    }
}

pub proof fn lemma_first_preimage_bounds(t: KTransformation, o: int, f: int, i: int)
    requires
        0 <= f,
        t.kpuzzle_spec().orbit(o).num_pieces as int >= 1,
    ensures
        0 <= first_preimage_from(t, o, f, i) < t.kpuzzle_spec().orbit(o).num_pieces as int,
    decreases t.kpuzzle_spec().orbit(o).num_pieces as int - f,
{
    let np = t.kpuzzle_spec().orbit(o).num_pieces as int;
    if f < np && t.perm_at(o, f) != i {
        lemma_first_preimage_bounds(t, o, f + 1, i);
    }
}

pub proof fn lemma_first_preimage_finds(t: KTransformation, o: int, f: int, i: int, w: int)
    requires
        0 <= f <= w < t.kpuzzle_spec().orbit(o).num_pieces as int,
        t.perm_at(o, w) == i,
    ensures
        t.perm_at(o, first_preimage_from(t, o, f, i)) == i,
    decreases w - f,
{
    if t.perm_at(o, f) != i {
        lemma_first_preimage_finds(t, o, f + 1, i, w);
    }
}

/// The permutation segment of the inverse of `t` at orbit `o`: slot `j`
/// maps back to the first slot that `t` fills slot `j` from.
pub open spec fn inverse_perm_vals(t: KTransformation, o: int) -> Seq<u8> {
    Seq::new(
        t.kpuzzle_spec().orbit(o).num_pieces as nat,
        |j: int| first_preimage_from(t, o, 0, j) as u8,
    )
}

/// The orientation segment of the inverse of `t` at orbit `o`: the
/// opposite of the change `t` applies on the way in.
pub open spec fn inverse_delta_vals(t: KTransformation, o: int) -> Seq<u8> {
    Seq::new(
        t.kpuzzle_spec().orbit(o).num_pieces as nat,
        |j: int|
            ((t.num_or(o) - t.delta_at(o, first_preimage_from(t, o, 0, j))) % t.num_or(o)) as u8,
    )
}

/// Orbit `o2` of `bytes` holds the inverse of `t`.
pub open spec fn inverse_orbit(p: KPuzzle, t: KTransformation, bytes: Seq<u8>, o2: int) -> bool {
    &&& perm_segment(p, bytes, o2) == inverse_perm_vals(t, o2)
    &&& orient_segment(p, bytes, o2) == inverse_delta_vals(t, o2)
}

/// The first `o` orbits of `bytes` hold the inverse of `t`.
pub open spec fn inverse_upto(p: KPuzzle, t: KTransformation, bytes: Seq<u8>, o: int) -> bool {
    forall|o2: int| 0 <= o2 < o ==> #[trigger] inverse_orbit(p, t, bytes, o2)
}

/// The first slot that `t` fills orbit `o`'s slot `j` from, or 0 when
/// `t`'s permutation never fills `j` (possible only when it is not a
/// permutation).
#[verifier::loop_isolation(false)]
fn first_preimage(t: &KTransformation, o: usize, j: u8) -> (r: u8)
    requires
        t.valid(),
        0 <= (o as int) < t.kpuzzle_spec().num_orbits(),
        (j as int) < t.kpuzzle_spec().orbit(o as int).num_pieces as int,
    ensures
        r as int == first_preimage_from(*t, o as int, 0, j as int),
        (r as int) < t.kpuzzle_spec().orbit(o as int).num_pieces as int,
{
    let info = t.packed_orbit_data.kpuzzle.orbit_info_at(o);
    let num_pieces = info.num_pieces;
    let ghost np = num_pieces as int;
    let mut w: u8 = 0;
    while w < num_pieces
        invariant
            0 <= w <= np,
            first_preimage_from(*t, o as int, 0, j as int) == first_preimage_from(
                *t,
                o as int,
                w as int,
                j as int,
            ),
        decreases np - w,
    {
        if t.perm_byte(o, w as usize) == j {
            proof {
                assert(first_preimage_from(*t, o as int, w as int, j as int) == w as int);
            }
            return w;
        }
        proof {
            assert(first_preimage_from(*t, o as int, w as int, j as int) == first_preimage_from(
                *t,
                o as int,
                w as int + 1,
                j as int,
            ));
        }
        w = w + 1;
    }
    proof {
        assert(first_preimage_from(*t, o as int, np, j as int) == 0);
    }
    0
}

/// One orbit's permutation segment of the inverse of `t`.
#[verifier::loop_isolation(false)]
fn invert_orbit_perm(t: &KTransformation, o: usize) -> (r: Vec<u8>)
    requires
        t.valid(),
        0 <= (o as int) < t.kpuzzle_spec().num_orbits(),
    ensures
        r@ == inverse_perm_vals(*t, o as int),
{
    let ghost vals = inverse_perm_vals(*t, o as int);
    let info = t.packed_orbit_data.kpuzzle.orbit_info_at(o);
    let num_pieces = info.num_pieces;
    let ghost np = num_pieces as int;
    let mut r: Vec<u8> = Vec::new();
    let mut j: usize = 0;
    while j < num_pieces as usize
        invariant
            0 <= j <= np,
            r@ == vals.subrange(0, j as int),
        decreases np - j,
    {
        let w = first_preimage(t, o, j as u8);
        r.push(w);
        proof {
            assert(vals[j as int] == first_preimage_from(*t, o as int, 0, j as int) as u8);
            assert(r@ =~= vals.subrange(0, j as int + 1));
        }
        j = j + 1;
    }
    proof {
        assert(vals.subrange(0, np) =~= vals);
    }
    r
}

/// One orbit's orientation segment of the inverse of `t`.
#[verifier::loop_isolation(false)]
fn invert_orbit_delta(t: &KTransformation, o: usize) -> (r: Vec<u8>)
    requires
        t.valid(),
        0 <= (o as int) < t.kpuzzle_spec().num_orbits(),
    ensures
        r@ == inverse_delta_vals(*t, o as int),
{
    let ghost vals = inverse_delta_vals(*t, o as int);
    let info = t.packed_orbit_data.kpuzzle.orbit_info_at(o);
    let num_pieces = info.num_pieces;
    let n = info.num_orientations;
    let ghost np = num_pieces as int;
    proof {
        lemma_wf_orbit(t.kpuzzle_spec(), o as int);
    }
    let mut r: Vec<u8> = Vec::new();
    let mut j: usize = 0;
    while j < num_pieces as usize
        invariant
            0 <= j <= np,
            1 <= n <= 107,
            n == t.kpuzzle_spec().orbit(o as int).num_orientations,
            r@ == vals.subrange(0, j as int),
        decreases np - j,
    {
        let w = first_preimage(t, o, j as u8);
        proof {
            assert(t.in_range(o as int, w as int));
            lemma_valid_bounds(*t, o as int, w as int);
        }
        let d = t.delta_byte(o, w as usize);
        let v = (n - d) % n;
        r.push(v);
        proof {
            assert(vals[j as int] == ((t.num_or(o as int) - t.delta_at(
                o as int,
                first_preimage_from(*t, o as int, 0, j as int),
            )) % t.num_or(o as int)) as u8);
            assert(r@ =~= vals.subrange(0, j as int + 1));
        }
        j = j + 1;
    }
    proof {
        assert(vals.subrange(0, np) =~= vals);
    }
    r
}

/// A buffer holding every orbit's inverse segments is the inverse
/// transformation: valid, and the true inverse whenever `t` is injective.
pub proof fn lemma_inverse_complete(t: KTransformation, r: KTransformation)
    requires
        t.valid(),
        r.kpuzzle_spec() == t.kpuzzle_spec(),
        r.bytes().len() == t.kpuzzle_spec().num_bytes_spec(),
        inverse_upto(t.kpuzzle_spec(), t, r.bytes(), t.kpuzzle_spec().num_orbits()),
    ensures
        r.valid(),
        t.injective() ==> is_inverse_of(r, t),
{
    let p = t.kpuzzle_spec();
    assert forall|o: int, i: int|
        #![trigger r.perm_at(o, i)]
        #![trigger r.delta_at(o, i)]
        r.in_range(o, i) implies 0 <= r.perm_at(o, i) < p.orbit(o).num_pieces as int && 0
        <= r.delta_at(o, i) < r.num_or(o) by {
        assert(inverse_orbit(p, t, r.bytes(), o));
        lemma_wf_orbit(p, o);
        lemma_first_preimage_bounds(t, o, 0, i);
        let fp = first_preimage_from(t, o, 0, i);
        assert(t.in_range(o, fp));
        lemma_valid_bounds(t, o, fp);
        assert(r.perm_at(o, i) == inverse_perm_vals(t, o)[i] as int);
        assert(r.delta_at(o, i) == inverse_delta_vals(t, o)[i] as int);
    }
    if t.injective() {
        assert forall|o: int, i: int|
            t.in_range(o, i) implies #[trigger] r.perm_at(o, t.perm_at(o, i)) == i && #[trigger] r
            .delta_at(o, t.perm_at(o, i)) == (t.num_or(o) - t.delta_at(o, i)) % t.num_or(o) by {
            assert(inverse_orbit(p, t, r.bytes(), o));
            lemma_valid_bounds(t, o, i);
            let j = t.perm_at(o, i);
            lemma_first_preimage_finds(t, o, 0, j, i);
            lemma_first_preimage_bounds(t, o, 0, j);
            let fp = first_preimage_from(t, o, 0, j);
            assert(t.in_range(o, fp));
            assert(t.perm_at(o, fp) == t.perm_at(o, i));
            assert(fp == i);
            assert(r.perm_at(o, j) == inverse_perm_vals(t, o)[j] as int);
            assert(r.delta_at(o, j) == inverse_delta_vals(t, o)[j] as int);
        }
    }
}

impl KTransformation {
    /// The transformation that undoes this one: each slot maps back to
    /// the slot it was filled from, with the opposite orientation
    /// change. Meaningful as an inverse only when the permutation is
    /// injective, as any transformation built from move data is.
    #[verifier::loop_isolation(false)]
    pub fn invert(&self) -> (r: KTransformation)
        requires
            self.valid(),
        ensures
            r.valid(),
            r.kpuzzle_spec() == self.kpuzzle_spec(),
            self.injective() ==> is_inverse_of(r, *self),
    {
        let p = self.packed_orbit_data.kpuzzle.clone();
        let num_orbits = p.num_orbit_infos();
        let mut bytes: Vec<u8> = Vec::new();
        let mut o: usize = 0;
        while o < num_orbits
            invariant
                0 <= o <= num_orbits,
                bytes@.len() == prefix_bytes(p.infos(), o as int),
                inverse_upto(p, *self, bytes@, o as int),
            decreases num_orbits - o,
        {
            let ghost done = bytes@;
            let perm_part = invert_orbit_perm(self, o);
            let delta_part = invert_orbit_delta(self, o);
            let mut k: usize = 0;
            while k < perm_part.len()
                invariant
                    0 <= k <= perm_part@.len(),
                    bytes@ == done + perm_part@.subrange(0, k as int),
                decreases perm_part@.len() - k,
            {
                bytes.push(perm_part[k]);
                proof {
                    assert(bytes@ =~= done + perm_part@.subrange(0, k as int + 1));
                }
                k = k + 1;
            }
            let mut k: usize = 0;
            while k < delta_part.len()
                invariant
                    0 <= k <= delta_part@.len(),
                    bytes@ == done + perm_part@ + delta_part@.subrange(0, k as int),
                decreases delta_part@.len() - k,
            {
                bytes.push(delta_part[k]);
                proof {
                    assert(bytes@ =~= done + perm_part@ + delta_part@.subrange(0, k as int + 1));
                }
                k = k + 1;
            }
            proof {
                assert(perm_part@.subrange(0, perm_part@.len() as int) =~= perm_part@);
                assert(delta_part@.subrange(0, delta_part@.len() as int) =~= delta_part@);
                p.lemma_extend_orbit_segments(o as int, done, perm_part@, delta_part@, bytes@);
                assert forall|o2: int| 0 <= o2 < o as int + 1 implies #[trigger] inverse_orbit(
                    p,
                    *self,
                    bytes@,
                    o2,
                ) by {
                    if o2 < o as int {
                        assert(inverse_orbit(p, *self, done, o2));
                    }
                }
            }
            o = o + 1;
        }
        let r = KTransformation { packed_orbit_data: PackedOrbitData { kpuzzle: p, bytes } };
        proof {
            lemma_inverse_complete(*self, r);
        }
        r
    }
}

impl Clone for KTransformation {
    /// The clone has the same puzzle and the same bytes.
    fn clone(&self) -> (r: Self)
        ensures
            r.kpuzzle_spec() == self.kpuzzle_spec(),
            r.bytes() == self.bytes(),
    {
        KTransformation { packed_orbit_data: self.packed_orbit_data.clone() }
    }
}

/// Writes one orbit of the composition of `a` then `b` into the
/// destination's buffer in place, touching only that orbit's region.
#[verifier::loop_isolation(false)]
fn compose_orbit_into(
    a: &KTransformation,
    b: &KTransformation,
    into_ktransformation: &mut KTransformation,
    o: usize,
)
    requires
        a.valid(),
        b.valid(),
        a.same_puzzle(*b),
        old(into_ktransformation).kpuzzle_spec() == a.kpuzzle_spec(),
        old(into_ktransformation).bytes().len() == a.kpuzzle_spec().num_bytes_spec(),
        0 <= (o as int) < a.kpuzzle_spec().num_orbits(),
    ensures
        final(into_ktransformation).kpuzzle_spec() == a.kpuzzle_spec(),
        final(into_ktransformation).bytes().len() == old(into_ktransformation).bytes().len(),
        perm_segment(a.kpuzzle_spec(), final(into_ktransformation).bytes(), o as int)
            == composed_perm_vals(*a, *b, o as int),
        orient_segment(a.kpuzzle_spec(), final(into_ktransformation).bytes(), o as int)
            == composed_delta_vals(*a, *b, o as int),
        forall|j: int|
            0 <= j < old(into_ktransformation).bytes().len() && j < prefix_bytes(
                a.kpuzzle_spec().infos(),
                o as int,
            ) ==> #[trigger] final(into_ktransformation).bytes()[j] == old(
                into_ktransformation,
            ).bytes()[j],
{
    let ghost p = a.kpuzzle_spec();
    let info = a.packed_orbit_data.kpuzzle.orbit_info_at(o);
    let num_pieces = info.num_pieces;
    let n = info.num_orientations;
    let ghost np = num_pieces as int;
    let ghost perm_off = info.pieces_or_permutations_offset as int;
    let ghost ori_off = info.orientations_offset as int;
    proof {
        assert(p.infos()[o as int] == p.orbit(o as int));
        p.lemma_orbit_in_bounds(o as int);
        lemma_wf_orbit(p, o as int);
    }
    let ghost pvals = composed_perm_vals(*a, *b, o as int);
    let ghost dvals = composed_delta_vals(*a, *b, o as int);
    let mut i: usize = 0;
    while i < num_pieces as usize
        invariant
            0 <= i <= np,
            into_ktransformation.kpuzzle_spec() == p,
            into_ktransformation.bytes().len() == old(into_ktransformation).bytes().len(),
            forall|j: int|
                0 <= j < old(into_ktransformation).bytes().len() && j < perm_off
                    ==> #[trigger] into_ktransformation.bytes()[j] == old(
                    into_ktransformation,
                ).bytes()[j],
            forall|j: int|
                0 <= j < i as int ==> #[trigger] into_ktransformation.bytes()[perm_off + j]
                    == pvals[j],
        decreases np - i,
    {
        proof {
            assert(b.in_range(o as int, i as int));
            lemma_valid_bounds(*b, o as int, i as int);
        }
        let from_idx = b.perm_byte(o, i);
        let v = a.perm_byte(o, from_idx as usize);
        into_ktransformation.packed_orbit_data.bytes.set(
            info.pieces_or_permutations_offset + i,
            v,
        );
        proof {
            assert(pvals[i as int] == a.perm_at(o as int, b.perm_at(o as int, i as int)) as u8);
        }
        i = i + 1;
    }
    let mut i: usize = 0;
    while i < num_pieces as usize
        invariant
            0 <= i <= np,
            into_ktransformation.kpuzzle_spec() == p,
            into_ktransformation.bytes().len() == old(into_ktransformation).bytes().len(),
            forall|j: int|
                0 <= j < old(into_ktransformation).bytes().len() && j < perm_off
                    ==> #[trigger] into_ktransformation.bytes()[j] == old(
                    into_ktransformation,
                ).bytes()[j],
            forall|j: int|
                0 <= j < np ==> #[trigger] into_ktransformation.bytes()[perm_off + j] == pvals[j],
            forall|j: int|
                0 <= j < i as int ==> #[trigger] into_ktransformation.bytes()[ori_off + j]
                    == dvals[j],
        decreases np - i,
    {
        proof {
            assert(b.in_range(o as int, i as int));
            lemma_valid_bounds(*b, o as int, i as int);
            assert(a.in_range(o as int, b.perm_at(o as int, i as int)));
            lemma_valid_bounds(*a, o as int, b.perm_at(o as int, i as int));
        }
        let from_idx = b.perm_byte(o, i);
        let prev = a.delta_byte(o, from_idx as usize);
        let d = b.delta_byte(o, i);
        let v = (prev + d) % n;
        into_ktransformation.packed_orbit_data.bytes.set(info.orientations_offset + i, v);
        proof {
            assert(dvals[i as int] == ((a.delta_at(o as int, b.perm_at(o as int, i as int))
                + b.delta_at(o as int, i as int)) % a.num_or(o as int)) as u8);
        }
        i = i + 1;
    }
    proof {
        let bytes_now = into_ktransformation.bytes();
        assert forall|k: int|
            0 <= k < np implies perm_segment(p, bytes_now, o as int)[k] == pvals[k] && orient_segment(
            p,
            bytes_now,
            o as int,
        )[k] == dvals[k] by {
            assert(bytes_now[perm_off + k] == pvals[k]);
            assert(bytes_now[ori_off + k] == dvals[k]);
        }
        assert(perm_segment(p, bytes_now, o as int) =~= pvals);
        assert(orient_segment(p, bytes_now, o as int) =~= dvals);
    }
}

impl KTransformation {
    /// Writes the composition of `self` then `transformation` into a
    /// caller-supplied destination of the same puzzle, overwriting its
    /// bytes in place: no allocation happens.
    #[verifier::loop_isolation(false)]
    pub fn apply_transformation_into(
        &self,
        transformation: &KTransformation,
        into_ktransformation: &mut KTransformation,
    )
        requires
            self.valid(),
            transformation.valid(),
            self.same_puzzle(*transformation),
            old(into_ktransformation).wf(),
            old(into_ktransformation).kpuzzle_spec() == self.kpuzzle_spec(),
        ensures
            is_composition(*final(into_ktransformation), *self, *transformation),
            final(into_ktransformation).valid(),
            final(into_ktransformation).kpuzzle_spec() == self.kpuzzle_spec(),
    {
        let ghost p = self.kpuzzle_spec();
        let num_orbits = self.packed_orbit_data.kpuzzle.num_orbit_infos();
        let mut o: usize = 0;
        while o < num_orbits
            invariant
                0 <= o <= num_orbits,
                into_ktransformation.kpuzzle_spec() == p,
                into_ktransformation.bytes().len() == p.num_bytes_spec(),
                composed_upto(p, *self, *transformation, into_ktransformation.bytes(), o as int),
            decreases num_orbits - o,
        {
            let ghost before = into_ktransformation.bytes();
            compose_orbit_into(self, transformation, into_ktransformation, o);
            proof {
                let after = into_ktransformation.bytes();
                lemma_window_preserves_earlier_orbits(p, before, after, o as int);
                assert forall|o2: int|
                    0 <= o2 < o as int + 1 implies #[trigger] composed_orbit(
                    p,
                    *self,
                    *transformation,
                    after,
                    o2,
                ) by {
                    if o2 < o as int {
                        assert(composed_orbit(p, *self, *transformation, before, o2));
                    }
                }
            }
            o = o + 1;
        }
        proof {
            lemma_composed_complete(*self, *transformation, *into_ktransformation);
            lemma_composition_valid(*self, *transformation, *into_ktransformation);
        }
    }
}

/// Each power's permutation entry stays in its orbit's range.
pub proof fn lemma_pow_in_range(t: KTransformation, o: int, i: int, k: nat)
    requires
        t.valid(),
        t.in_range(o, i),
    ensures
        t.in_range(o, pow_perm(t, o, i, k)),
        0 <= pow_perm(t, o, i, k) < t.kpuzzle_spec().orbit(o).num_pieces as int,
    decreases k,
{
    if k > 0 {
        lemma_pow_in_range(t, o, i, (k - 1) as nat);
        lemma_valid_bounds(t, o, pow_perm(t, o, i, (k - 1) as nat));
    }
}

/// Each power's orientation change is below the orbit's count.
pub proof fn lemma_pow_delta_range(t: KTransformation, o: int, i: int, k: nat)
    requires
        t.valid(),
        t.in_range(o, i),
    ensures
        0 <= pow_delta(t, o, i, k) < t.num_or(o),
    decreases k,
{
    lemma_wf_orbit(t.kpuzzle_spec(), o);
    if k > 0 {
        lemma_pow_delta_range(t, o, i, (k - 1) as nat);
    }
}

/// Iterating `m` more times after `k` times lands where iterating from
/// the `k`-fold image `m` times lands.
pub proof fn lemma_pow_perm_add(t: KTransformation, o: int, i: int, m: nat, k: nat)
    requires
        t.valid(),
        t.in_range(o, i),
    ensures
        pow_perm(t, o, i, (m + k) as nat) == pow_perm(t, o, pow_perm(t, o, i, k), m),
    decreases m,
{
    if m > 0 {
        lemma_pow_perm_add(t, o, i, (m - 1) as nat, k);
    }
}

/// Orientation changes of iterated applications add up modulo the
/// orbit's count.
pub proof fn lemma_pow_delta_add(t: KTransformation, o: int, i: int, m: nat, k: nat)
    requires
        t.valid(),
        t.in_range(o, i),
    ensures
        pow_delta(t, o, i, (m + k) as nat) == (pow_delta(t, o, pow_perm(t, o, i, k), m)
            + pow_delta(t, o, i, k)) % t.num_or(o),
    decreases m,
{
    let n = t.num_or(o);
    lemma_wf_orbit(t.kpuzzle_spec(), o);
    lemma_pow_in_range(t, o, i, k);
    let pk = pow_perm(t, o, i, k);
    if m == 0 {
        lemma_pow_delta_range(t, o, i, k);
        vstd::arithmetic::div_mod::lemma_small_mod(pow_delta(t, o, i, k) as nat, n as nat);
    } else {
        lemma_pow_delta_add(t, o, i, (m - 1) as nat, k);
        lemma_pow_perm_add(t, o, i, (m - 1) as nat, k);
        lemma_pow_in_range(t, o, i, ((m - 1) + k) as nat);
        lemma_valid_bounds(t, o, pow_perm(t, o, i, ((m - 1) + k) as nat));
        let a = t.delta_at(o, pow_perm(t, o, i, ((m - 1) + k) as nat));
        let b = pow_delta(t, o, pk, (m - 1) as nat);
        let c = pow_delta(t, o, i, k);
        assert(pow_delta(t, o, i, (m + k) as nat) == (a + (b + c) % n) % n);
        assert(pow_delta(t, o, pk, m) == (a + b) % n);
        vstd::arithmetic::div_mod::lemma_small_mod(a as nat, n as nat);
        vstd::arithmetic::div_mod::lemma_add_mod_noop(a, b + c, n);
        assert((a + (b + c) % n) % n == (a + b + c) % n) by {
            assert(a % n == a);
            assert(((a % n) + ((b + c) % n)) % n == (a + (b + c)) % n);
            assert((a % n + (b + c) % n) % n == (a + (b + c) % n) % n) by {
                vstd::arithmetic::div_mod::lemma_add_mod_noop(a, (b + c) % n, n);
                vstd::arithmetic::div_mod::lemma_mod_twice((b + c), n);
            }
        }
        assert(((a + b) % n + c) % n == (a + b + c) % n) by {
            vstd::arithmetic::div_mod::lemma_add_mod_noop((a + b) % n, c, n);
            vstd::arithmetic::div_mod::lemma_mod_twice((a + b), n);
            vstd::arithmetic::div_mod::lemma_add_mod_noop(a + b, c, n);
        }
    }
}

/// The first power of a transformation has its own entries.
pub proof fn lemma_power_once(t: KTransformation)
    requires
        t.valid(),
    ensures
        forall|o: int, i: int|
            t.in_range(o, i) ==> #[trigger] pow_perm(t, o, i, 1) == t.perm_at(o, i),
        forall|o: int, i: int|
            t.in_range(o, i) ==> #[trigger] pow_delta(t, o, i, 1) == t.delta_at(o, i),
{
    assert forall|o: int, i: int|
        t.in_range(o, i) implies #[trigger] pow_perm(t, o, i, 1) == t.perm_at(o, i) by {
        assert(pow_perm(t, o, i, 0) == i);
    }
    assert forall|o: int, i: int|
        t.in_range(o, i) implies #[trigger] pow_delta(t, o, i, 1) == t.delta_at(o, i) by {
        lemma_wf_orbit(t.kpuzzle_spec(), o);
        lemma_valid_bounds(t, o, i);
        assert(pow_perm(t, o, i, 0) == i);
        assert(pow_delta(t, o, i, 0) == 0);
        assert(pow_delta(t, o, i, 1) == (t.delta_at(o, i) + 0) % t.num_or(o));
        vstd::arithmetic::div_mod::lemma_small_mod(
            t.delta_at(o, i) as nat,
            t.num_or(o) as nat,
        );
        assert(t.delta_at(o, i) % t.num_or(o) == t.delta_at(o, i));
    }
}

/// Composing the `m`-th and `k`-th powers of one transformation gives
/// its `(m + k)`-th power.
pub proof fn lemma_power_compose(
    t: KTransformation,
    a: KTransformation,
    b: KTransformation,
    ab: KTransformation,
    m: nat,
    k: nat,
)
    requires
        t.valid(),
        is_power(a, t, m),
        is_power(b, t, k),
        is_composition(ab, a, b),
        a.kpuzzle_spec() == t.kpuzzle_spec(),
    ensures
        is_power(ab, t, (m + k) as nat),
{
    assert forall|o: int, i: int|
        t.in_range(o, i) implies #[trigger] ab.perm_at(o, i) == pow_perm(
        t,
        o,
        i,
        (m + k) as nat,
    ) by {
        lemma_pow_in_range(t, o, i, k);
        let pk = pow_perm(t, o, i, k);
        assert(a.in_range(o, i));
        assert(b.perm_at(o, i) == pk);
        assert(t.in_range(o, pk));
        assert(a.perm_at(o, pk) == pow_perm(t, o, pk, m));
        lemma_pow_perm_add(t, o, i, m, k);
        assert(ab.perm_at(o, i) == a.perm_at(o, b.perm_at(o, i)));
    }
    assert forall|o: int, i: int|
        t.in_range(o, i) implies #[trigger] ab.delta_at(o, i) == pow_delta(
        t,
        o,
        i,
        (m + k) as nat,
    ) by {
        lemma_pow_in_range(t, o, i, k);
        let pk = pow_perm(t, o, i, k);
        assert(a.in_range(o, i));
        assert(b.perm_at(o, i) == pk);
        assert(b.delta_at(o, i) == pow_delta(t, o, i, k));
        assert(t.in_range(o, pk));
        assert(a.delta_at(o, pk) == pow_delta(t, o, pk, m));
        lemma_pow_delta_add(t, o, i, m, k);
        assert(ab.delta_at(o, i) == (a.delta_at(o, b.perm_at(o, i)) + b.delta_at(o, i))
            % a.num_or(o));
    }
    assert(is_power(ab, t, (m + k) as nat));
}

impl KTransformation {
    /// `self` applied `k` times, for a nonnegative `k`.
    #[verifier::loop_isolation(false)]
    fn power_nonneg(&self, k: Amount) -> (r: KTransformation)
        requires
            self.valid(),
            k >= 0,
        ensures
            r.valid(),
            r.kpuzzle_spec() == self.kpuzzle_spec(),
            is_power(r, *self, k as nat),
        decreases k,
    {
        let mut r = self.packed_orbit_data.kpuzzle.identity_transformation();
        proof {
            assert forall|o: int, i: int|
                self.in_range(o, i) implies #[trigger] r.perm_at(o, i) == pow_perm(
                *self,
                o,
                i,
                0,
            ) && #[trigger] r.delta_at(o, i) == pow_delta(*self, o, i, 0) by {
                assert(r.in_range(o, i));
            }
        }
        let mut c: i32 = 0;
        while c < k
            invariant
                0 <= c <= k,
                r.valid(),
                r.kpuzzle_spec() == self.kpuzzle_spec(),
                is_power(r, *self, c as nat),
            decreases k - c,
        {
            let r2 = self.apply_transformation(&r);
            proof {
                assert forall|o: int, i: int|
                    self.in_range(o, i) implies #[trigger] r2.perm_at(o, i) == pow_perm(
                    *self,
                    o,
                    i,
                    (c + 1) as nat,
                ) && #[trigger] r2.delta_at(o, i) == pow_delta(*self, o, i, (c + 1) as nat) by {
                    lemma_pow_in_range(*self, o, i, c as nat);
                    assert(r.perm_at(o, i) == pow_perm(*self, o, i, c as nat));
                    assert(r.delta_at(o, i) == pow_delta(*self, o, i, c as nat));
                    assert(r2.perm_at(o, i) == self.perm_at(o, r.perm_at(o, i)));
                    assert(r2.delta_at(o, i) == (self.delta_at(o, r.perm_at(o, i)) + r.delta_at(
                        o,
                        i,
                    )) % self.num_or(o));
                }
            }
            r = r2;
            c = c + 1;
        }
        r
    }

    /// `self` applied `amount` times: the identity at zero, iterated
    /// composition for a positive amount, and the same power of the
    /// inverse for a negative one.
    pub fn self_multiply(&self, amount: Amount) -> (r: KTransformation)
        requires
            self.valid(),
            amount > i32::MIN,
        ensures
            r.valid(),
            r.kpuzzle_spec() == self.kpuzzle_spec(),
            is_signed_power(r, *self, amount as int),
    {
        if amount >= 0 {
            self.power_nonneg(amount)
        } else {
            let inv = self.invert();
            let r = inv.power_nonneg(-amount);
            proof {
                assert(inv.valid());
                assert(is_power(r, inv, (-(amount as int)) as nat));
            }
            r
        }
    }
}

/// Whether every orbit of the puzzle finds a well-shaped entry in the
/// supplied transformation data.
pub open spec fn transformation_data_ok(
    p: KPuzzle,
    data: Seq<(KPuzzleOrbitName, KTransformationOrbitData)>,
) -> bool {
    forall|o: int|
        0 <= o < p.num_orbits() ==> {
            let entry = transformation_data_lookup(data, (#[trigger] p.orbit(o)).name@);
            entry is Some && transformation_orbit_data_ok(p.orbit(o), entry->Some_0)
        }
}

/// Orbit `o2` of `bytes` equals the data entry for its name.
pub open spec fn from_data_orbit(
    p: KPuzzle,
    data: Seq<(KPuzzleOrbitName, KTransformationOrbitData)>,
    bytes: Seq<u8>,
    o2: int,
) -> bool {
    let entry = transformation_data_lookup(data, p.orbit(o2).name@);
    &&& entry is Some
    &&& perm_segment(p, bytes, o2) == entry->Some_0.permutation@
    &&& orient_segment(p, bytes, o2) == entry->Some_0.orientation_delta@
}

/// The first `o` orbits of `bytes` equal their data entries.
pub open spec fn from_data_upto(
    p: KPuzzle,
    data: Seq<(KPuzzleOrbitName, KTransformationOrbitData)>,
    bytes: Seq<u8>,
    o: int,
) -> bool {
    forall|o2: int| 0 <= o2 < o ==> #[trigger] from_data_orbit(p, data, bytes, o2)
}

/// A buffer holding every orbit's data entry is the transformation the
/// data describes: valid, and matching the data entry by entry.
pub proof fn lemma_from_data_complete(
    p: KPuzzle,
    data: Seq<(KPuzzleOrbitName, KTransformationOrbitData)>,
    r: KTransformation,
)
    requires
        p.wf(),
        r.kpuzzle_spec() == p,
        r.bytes().len() == p.num_bytes_spec(),
        from_data_upto(p, data, r.bytes(), p.num_orbits()),
        transformation_data_ok(p, data),
    ensures
        r.valid(),
        matches_transformation_data(r, p, data),
{
    assert forall|o: int|
        0 <= o < p.num_orbits() implies {
        let entry = transformation_data_lookup(data, (#[trigger] p.orbit(o)).name@);
        &&& entry is Some
        &&& forall|i: int|
            0 <= i < p.orbit(o).num_pieces as int ==> r.perm_at(o, i)
                == entry->Some_0.permutation@[i] as int && r.delta_at(o, i)
                == entry->Some_0.orientation_delta@[i] as int
    } by {
        assert(from_data_orbit(p, data, r.bytes(), o));
        let entry = transformation_data_lookup(data, p.orbit(o).name@);
        assert forall|i: int|
            0 <= i < p.orbit(o).num_pieces as int implies r.perm_at(o, i)
            == entry->Some_0.permutation@[i] as int && r.delta_at(o, i)
            == entry->Some_0.orientation_delta@[i] as int by {
            assert(perm_segment(p, r.bytes(), o)[i] == entry->Some_0.permutation@[i]);
            assert(orient_segment(p, r.bytes(), o)[i] == entry->Some_0.orientation_delta@[i]);
        }
    }
    assert forall|o: int, i: int|
        #![trigger r.perm_at(o, i)]
        #![trigger r.delta_at(o, i)]
        r.in_range(o, i) implies 0 <= r.perm_at(o, i) < r.kpuzzle_spec().orbit(
        o,
    ).num_pieces as int && 0 <= r.delta_at(o, i) < r.num_or(o) by {
        assert(from_data_orbit(p, data, r.bytes(), o));
        let entry = transformation_data_lookup(data, p.orbit(o).name@);
        assert(transformation_orbit_data_ok(p.orbit(o), entry->Some_0));
        assert(perm_segment(p, r.bytes(), o)[i] == entry->Some_0.permutation@[i]);
        assert(orient_segment(p, r.bytes(), o)[i] == entry->Some_0.orientation_delta@[i]);
        assert((entry->Some_0.permutation@[i] as int) < p.orbit(o).num_pieces as int);
        assert((entry->Some_0.orientation_delta@[i] as int) < p.orbit(o).num_orientations as int);
    }
}

/// Checks one orbit's supplied transformation data against its layout
/// entry.
#[verifier::loop_isolation(false)]
pub(crate) fn check_transformation_orbit_data(
    info: &KPuzzleOrbitInfo,
    d: &KTransformationOrbitData,
) -> (r: bool)
    ensures
        r == transformation_orbit_data_ok(*info, *d),
{
    let np = info.num_pieces as usize;
    if d.permutation.len() != np || d.orientation_delta.len() != np {
        return false;
    }
    let mut i: usize = 0;
    while i < np
        invariant
            0 <= i <= np,
            np == info.num_pieces as usize,
            d.permutation@.len() == np,
            d.orientation_delta@.len() == np,
            forall|j: int|
                0 <= j < i as int ==> (#[trigger] d.permutation@[j] as int)
                    < info.num_pieces as int,
            forall|j: int|
                0 <= j < i as int ==> (#[trigger] d.orientation_delta@[j] as int)
                    < info.num_orientations as int,
        decreases np - i,
    {
        if d.permutation[i] >= info.num_pieces {
            return false;
        }
        if d.orientation_delta[i] >= info.num_orientations {
            return false;
        }
        i = i + 1;
    }
    true
}

impl KTransformation {
    /// Builds a transformation from raw per-orbit data: an error exactly
    /// when some orbit's entry is missing or mis-shaped: wrong lengths, a
    /// permutation target out of range, or an orientation change at or
    /// above the orbit's count.
    #[verifier::loop_isolation(false)]
    pub fn try_from_data(kpuzzle: &KPuzzle, ktransformation_data: &KTransformationData) -> (r:
        Result<KTransformation, ConversionError>)
        requires
            kpuzzle.wf(),
        ensures
            r matches Ok(t) ==> {
                &&& t.valid()
                &&& t.kpuzzle_spec() == *kpuzzle
                &&& matches_transformation_data(t, *kpuzzle, ktransformation_data.entries@)
                &&& transformation_data_ok(*kpuzzle, ktransformation_data.entries@)
            },
            r is Err <==> !transformation_data_ok(*kpuzzle, ktransformation_data.entries@),
    {
        let p = kpuzzle.clone();
        let num_orbits = p.num_orbit_infos();
        let ghost data = ktransformation_data.entries@;
        let mut bytes: Vec<u8> = Vec::new();
        let mut o: usize = 0;
        while o < num_orbits
            invariant
                0 <= o <= num_orbits,
                bytes@.len() == prefix_bytes(p.infos(), o as int),
                from_data_upto(p, data, bytes@, o as int),
                forall|o2: int|
                    0 <= o2 < o as int ==> {
                        let entry = transformation_data_lookup(
                            data,
                            (#[trigger] p.orbit(o2)).name@,
                        );
                        entry is Some && transformation_orbit_data_ok(p.orbit(o2), entry->Some_0)
                    },
            decreases num_orbits - o,
        {
            let ghost done = bytes@;
            let info = p.orbit_info_at(o);
            proof {
                lemma_wf_orbit(p, o as int);
            }
            let d = match ktransformation_data.get(&info.name) {
                Some(d) => d,
                None => {
                    proof {
                        assert(p.infos()[o as int] == p.orbit(o as int));
                        assert(transformation_data_lookup(data, p.orbit(o as int).name@)
                            is None);
                        assert(!transformation_data_ok(p, data));
                    }
                    return Err(
                        ConversionError::InvalidKTransformationData(
                            InvalidKTransformationDataError {
                                description: String::from_str(
                                    "Missing orbit in transformation data.",
                                ),
                            },
                        ),
                    );
                },
            };
            if !check_transformation_orbit_data(info, d) {
                proof {
                    assert(p.infos()[o as int] == p.orbit(o as int));
                    assert(!transformation_orbit_data_ok(
                        p.orbit(o as int),
                        transformation_data_lookup(data, p.orbit(o as int).name@)->Some_0,
                    ));
                    assert(!transformation_data_ok(p, data));
                }
                return Err(
                    ConversionError::InvalidKTransformationData(
                        InvalidKTransformationDataError {
                            description: String::from_str(
                                "Transformation data does not match the orbit's shape.",
                            ),
                        },
                    ),
                );
            }
            let np = info.num_pieces as usize;
            let mut k: usize = 0;
            while k < np
                invariant
                    0 <= k <= np,
                    d.permutation@.len() == np,
                    bytes@ == done + d.permutation@.subrange(0, k as int),
                decreases np - k,
            {
                bytes.push(d.permutation[k]);
                proof {
                    assert(bytes@ =~= done + d.permutation@.subrange(0, k as int + 1));
                }
                k = k + 1;
            }
            let mut k: usize = 0;
            while k < np
                invariant
                    0 <= k <= np,
                    d.permutation@.len() == np,
                    d.orientation_delta@.len() == np,
                    bytes@ == done + d.permutation@ + d.orientation_delta@.subrange(0, k as int),
                    d.permutation@.subrange(0, np as int) == d.permutation@,
                decreases np - k,
            {
                bytes.push(d.orientation_delta[k]);
                proof {
                    assert(bytes@ =~= done + d.permutation@ + d.orientation_delta@.subrange(
                        0,
                        k as int + 1,
                    ));
                }
                k = k + 1;
            }
            proof {
                assert(d.permutation@.subrange(0, np as int) =~= d.permutation@);
                assert(d.orientation_delta@.subrange(0, np as int) =~= d.orientation_delta@);
                p.lemma_extend_orbit_segments(
                    o as int,
                    done,
                    d.permutation@,
                    d.orientation_delta@,
                    bytes@,
                );
                assert(p.infos()[o as int] == p.orbit(o as int));
                assert forall|o2: int| 0 <= o2 < o as int + 1 implies #[trigger] from_data_orbit(
                    p,
                    data,
                    bytes@,
                    o2,
                ) by {
                    if o2 < o as int {
                        assert(from_data_orbit(p, data, done, o2));
                    }
                }
            }
            o = o + 1;
        }
        let r = KTransformation { packed_orbit_data: PackedOrbitData { kpuzzle: p, bytes } };
        proof {
            assert(transformation_data_ok(p, data));
            lemma_from_data_complete(p, data, r);
        }
        Ok(r)
    }

    /// Reads the transformation back out as per-orbit data, one entry
    /// per orbit in declaration order.
    #[verifier::loop_isolation(false)]
    pub fn to_data(&self) -> (r: KTransformationData)
        requires
            self.wf(),
        ensures
            r.entries@.len() == self.kpuzzle_spec().num_orbits(),
            forall|o: int|
                0 <= o < self.kpuzzle_spec().num_orbits() ==> {
                    let e = #[trigger] r.entries@[o];
                    &&& e.0@ == self.kpuzzle_spec().orbit(o).name@
                    &&& e.1.permutation@ == perm_segment(
                        self.kpuzzle_spec(),
                        self.bytes(),
                        o,
                    )
                    &&& e.1.orientation_delta@ == orient_segment(
                        self.kpuzzle_spec(),
                        self.bytes(),
                        o,
                    )
                },
    {
        let ghost p = self.kpuzzle_spec();
        let num_orbits = self.packed_orbit_data.kpuzzle.num_orbit_infos();
        let mut entries: Vec<(KPuzzleOrbitName, KTransformationOrbitData)> = Vec::new();
        let mut o: usize = 0;
        while o < num_orbits
            invariant
                0 <= o <= num_orbits,
                entries@.len() == o as int,
                forall|o2: int|
                    0 <= o2 < o as int ==> {
                        let e = #[trigger] entries@[o2];
                        &&& e.0@ == p.orbit(o2).name@
                        &&& e.1.permutation@ == perm_segment(p, self.bytes(), o2)
                        &&& e.1.orientation_delta@ == orient_segment(p, self.bytes(), o2)
                    },
            decreases num_orbits - o,
        {
            let info = self.packed_orbit_data.kpuzzle.orbit_info_at(o);
            let np = info.num_pieces as usize;
            proof {
                p.lemma_orbit_in_bounds(o as int);
            }
            let mut permutation: Vec<u8> = Vec::new();
            let mut k: usize = 0;
            while k < np
                invariant
                    0 <= k <= np,
                    permutation@ == perm_segment(p, self.bytes(), o as int).subrange(
                        0,
                        k as int,
                    ),
                decreases np - k,
            {
                let v = self.packed_orbit_data.bytes[info.pieces_or_permutations_offset + k];
                permutation.push(v);
                proof {
                    assert(perm_segment(p, self.bytes(), o as int)[k as int] == v);
                    assert(permutation@ =~= perm_segment(p, self.bytes(), o as int).subrange(
                        0,
                        k as int + 1,
                    ));
                }
                k = k + 1;
            }
            let mut orientation_delta: Vec<u8> = Vec::new();
            let mut k: usize = 0;
            while k < np
                invariant
                    0 <= k <= np,
                    orientation_delta@ == orient_segment(p, self.bytes(), o as int).subrange(
                        0,
                        k as int,
                    ),
                decreases np - k,
            {
                let v = self.packed_orbit_data.bytes[info.orientations_offset + k];
                orientation_delta.push(v);
                proof {
                    assert(orient_segment(p, self.bytes(), o as int)[k as int] == v);
                    assert(orientation_delta@ =~= orient_segment(
                        p,
                        self.bytes(),
                        o as int,
                    ).subrange(0, k as int + 1));
                }
                k = k + 1;
            }
            proof {
                assert(permutation@ =~= perm_segment(p, self.bytes(), o as int));
                assert(orientation_delta@ =~= orient_segment(p, self.bytes(), o as int));
            }
            let name = info.name.clone();
            entries.push((name, KTransformationOrbitData { permutation, orientation_delta }));
            o = o + 1;
        }
        KTransformationData { entries }
    }

    /// The CityHash64 digest of the packed bytes.
    pub fn hash(&self) -> (r: u64)
        ensures
            r == crate::kpuzzle::packed_orbit_data::city_hash_64_of(self.bytes()),
    {
        self.packed_orbit_data.hash()
    }
}

impl PartialEq for KTransformation {
    /// Transformations compare by exact byte equality of their buffers.
    fn eq(&self, other: &KTransformation) -> (r: bool) {
        crate::kpuzzle::packed_orbit_data::byte_vecs_equal(
            &self.packed_orbit_data.bytes,
            &other.packed_orbit_data.bytes,
        )
    }
}

impl vstd::std_specs::cmp::PartialEqSpecImpl for KTransformation {
    open spec fn obeys_eq_spec() -> bool {
        true
    }

    open spec fn eq_spec(&self, other: &KTransformation) -> bool {
        self.bytes() == other.bytes()
    }
}

impl Eq for KTransformation {

}

/// A ping-pong pair of transformations: applying writes into the spare
/// slot and swaps which one is current, so repeated applications reuse
/// the two allocations. The spare slot is allocated on first use.
pub struct KTransformationBuffer {
    a: KTransformation,
    b: Option<KTransformation>,
    a_is_current: bool,
}

impl KTransformationBuffer {
    /// The buffer that conversion from `initial` yields: `initial` as
    /// the current transformation, the spare slot still empty.
    pub closed spec fn fresh(initial: KTransformation) -> Self {
        KTransformationBuffer { a: initial, b: None, a_is_current: true }
    }

    /// The transformation the buffer currently holds.
    pub closed spec fn current_spec(self) -> KTransformation {
        if self.a_is_current || !(self.b is Some) {
            self.a
        } else {
            self.b->Some_0
        }
    }

    pub closed spec fn wf(self) -> bool {
        &&& self.a.valid()
        &&& (self.b matches Some(b) ==> b.valid() && self.a.same_puzzle(b))
        &&& (!self.a_is_current ==> self.b is Some)
    }

    /// Composes the current transformation with `transformation`, in the
    /// spare slot, and makes that the current one.
    pub fn apply_transformation(&mut self, transformation: &KTransformation)
        requires
            old(self).wf(),
            transformation.valid(),
            old(self).current_spec().same_puzzle(*transformation),
        ensures
            final(self).wf(),
            is_composition(final(self).current_spec(), old(self).current_spec(), *transformation),
            final(self).current_spec().kpuzzle_spec() == old(self).current_spec().kpuzzle_spec(),
    {
        if self.a_is_current {
            match &mut self.b {
                Some(b) => {
                    self.a.apply_transformation_into(transformation, b);
                },
                None => {
                    self.b = Some(self.a.apply_transformation(transformation));
                },
            }
            self.a_is_current = false;
        } else {
            match &self.b {
                Some(b) => {
                    b.apply_transformation_into(transformation, &mut self.a);
                },
                None => {
                    let _ = vstd::pervasive::unreached::<()>();
                },
            }
            self.a_is_current = true;
        }
    }

    /// The current transformation.
    pub fn current(&self) -> (r: &KTransformation)
        ensures
            *r == self.current_spec(),
    {
        if self.a_is_current {
            &self.a
        } else {
            match &self.b {
                Some(b) => b,
                None => &self.a,
            }
        }
    }
}

impl From<KTransformation> for KTransformationBuffer {
    /// The fresh buffer holds `initial` as its current transformation;
    /// the spare slot is empty until the first application.
    fn from(initial: KTransformation) -> (r: Self) {
        KTransformationBuffer { a: initial, b: None, a_is_current: true }
    }
}

impl vstd::std_specs::convert::FromSpecImpl<KTransformation> for KTransformationBuffer {
    closed spec fn obeys_from_spec() -> bool {
        true
    }

    closed spec fn from_spec(initial: KTransformation) -> Self {
        KTransformationBuffer::fresh(initial)
    }
}

/// What conversion into a buffer yields: the buffer is well-formed when
/// the initial transformation is valid, and holds it as current.
pub proof fn lemma_transformation_buffer_from(initial: KTransformation)
    ensures
        <KTransformationBuffer as vstd::std_specs::convert::FromSpec<KTransformation>>::from_spec(
            initial,
        ) == KTransformationBuffer::fresh(initial),
        KTransformationBuffer::fresh(initial).current_spec() == initial,
        initial.valid() ==> KTransformationBuffer::fresh(initial).wf(),
{
}

} // verus!
