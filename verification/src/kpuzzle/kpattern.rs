use vstd::prelude::*;

use crate::kpuzzle::definition::KPatternData;
use crate::kpuzzle::definition::KPatternOrbitData;
use crate::kpuzzle::definition::KPuzzleOrbitName;
use crate::kpuzzle::definition::pattern_data_lookup;
use crate::kpuzzle::errors::ConversionError;
use crate::kpuzzle::errors::InvalidKPatternDataError;
use crate::kpuzzle::kpuzzle::KPuzzle;
use crate::kpuzzle::kpuzzle::KPuzzleOrbitInfo;
use crate::kpuzzle::kpuzzle::orient_segment;
use crate::kpuzzle::kpuzzle::perm_segment;
use crate::kpuzzle::kpuzzle::prefix_bytes;
use crate::kpuzzle::ktransformation::KTransformation;
use crate::kpuzzle::ktransformation::lemma_valid_bounds;
use crate::kpuzzle::ktransformation::lemma_wf_orbit;
use crate::kpuzzle::definition::KPuzzleOrbitDefinition;
use crate::kpuzzle::orientation_packer::OrientationWithMod;
use crate::kpuzzle::orientation_packer::packer_capacity;
use crate::kpuzzle::orientation_packer::pair_code;
use crate::kpuzzle::orientation_packer::valid_orientation_pair;
use crate::kpuzzle::packed_orbit_data::PackedOrbitData;

verus! {

/// A concrete puzzle state: which piece occupies each slot, and that
/// piece's packed orientation, per orbit.
#[derive(Debug)]
pub struct KPattern {
    pub packed_orbit_data: PackedOrbitData,
}

impl KPattern {
    pub open spec fn kpuzzle_spec(self) -> KPuzzle {
        self.packed_orbit_data.kpuzzle
    }

    pub open spec fn bytes(self) -> Seq<u8> {
        self.packed_orbit_data.bytes@
    }

    pub open spec fn wf(self) -> bool {
        self.packed_orbit_data.wf()
    }

    pub open spec fn in_range(self, o: int, i: int) -> bool {
        0 <= o < self.kpuzzle_spec().num_orbits() && 0 <= i < self.kpuzzle_spec().orbit(
            o,
        ).num_pieces as int
    }

    /// The piece in slot `i` of orbit `o`.
    pub open spec fn piece_at(self, o: int, i: int) -> int {
        perm_segment(self.kpuzzle_spec(), self.bytes(), o)[i] as int
    }

    /// The packed orientation byte of slot `i` of orbit `o`.
    pub open spec fn ori_code_at(self, o: int, i: int) -> int {
        orient_segment(self.kpuzzle_spec(), self.bytes(), o)[i] as int
    }

    /// Every orientation byte is one of its orbit's packed codes.
    pub open spec fn valid_pattern(self) -> bool {
        &&& self.wf()
        &&& forall|o: int, i: int|
            #![trigger self.ori_code_at(o, i)]
            self.in_range(o, i) ==> self.kpuzzle_spec().orbit(o).orientation_packer.valid_code(
                self.ori_code_at(o, i),
            )
    }

    pub open spec fn same_puzzle_as(self, t: KTransformation) -> bool {
        self.kpuzzle_spec() == t.kpuzzle_spec()
    }
}

/// Whether `r` holds `pat` with `t` applied: slot `i` receives the piece
/// of slot `t.permutation[i]`, with its packed orientation advanced by
/// `t.orientation_delta[i]` under the orbit's codec.
pub open spec fn is_pattern_application(r: KPattern, pat: KPattern, t: KTransformation) -> bool {
    &&& r.wf()
    &&& r.kpuzzle_spec() == pat.kpuzzle_spec()
    &&& forall|o: int, i: int|
        pat.in_range(o, i) ==> #[trigger] r.piece_at(o, i) == pat.piece_at(o, t.perm_at(o, i))
    &&& forall|o: int, i: int|
        pat.in_range(o, i) ==> #[trigger] r.ori_code_at(o, i) == pat.kpuzzle_spec().orbit(
            o,
        ).orientation_packer.transform_code(
            pat.ori_code_at(o, t.perm_at(o, i)),
            t.delta_at(o, i),
        )
}

/// The piece segment of `pat` with `t` applied, at orbit `o`.
pub open spec fn applied_piece_vals(pat: KPattern, t: KTransformation, o: int) -> Seq<u8> {
    Seq::new(
        pat.kpuzzle_spec().orbit(o).num_pieces as nat,
        |i: int| pat.piece_at(o, t.perm_at(o, i)) as u8,
    )
}

/// The orientation segment of `pat` with `t` applied, at orbit `o`.
pub open spec fn applied_ori_vals(pat: KPattern, t: KTransformation, o: int) -> Seq<u8> {
    Seq::new(
        pat.kpuzzle_spec().orbit(o).num_pieces as nat,
        |i: int|
            pat.kpuzzle_spec().orbit(o).orientation_packer.transform_code(
                pat.ori_code_at(o, t.perm_at(o, i)),
                t.delta_at(o, i),
            ) as u8,
    )
}

/// Orbit `o2` of `bytes` holds `pat` with `t` applied.
pub open spec fn applied_orbit(
    p: KPuzzle,
    pat: KPattern,
    t: KTransformation,
    bytes: Seq<u8>,
    o2: int,
) -> bool {
    &&& perm_segment(p, bytes, o2) == applied_piece_vals(pat, t, o2)
    &&& orient_segment(p, bytes, o2) == applied_ori_vals(pat, t, o2)
}

/// The first `o` orbits of `bytes` hold `pat` with `t` applied.
pub open spec fn applied_upto(
    p: KPuzzle,
    pat: KPattern,
    t: KTransformation,
    bytes: Seq<u8>,
    o: int,
) -> bool {
    forall|o2: int| 0 <= o2 < o ==> #[trigger] applied_orbit(p, pat, t, bytes, o2)
}

/// The range fact `valid_pattern` gives for one slot.
pub proof fn lemma_pattern_code_valid(pat: KPattern, o: int, i: int)
    requires
        pat.valid_pattern(),
        pat.in_range(o, i),
    ensures
        pat.kpuzzle_spec().orbit(o).orientation_packer.valid_code(pat.ori_code_at(o, i)),
{
}

pub proof fn lemma_applied_complete(pat: KPattern, t: KTransformation, r: KPattern)
    requires
        pat.valid_pattern(),
        t.valid(),
        pat.same_puzzle_as(t),
        r.kpuzzle_spec() == pat.kpuzzle_spec(),
        r.bytes().len() == pat.kpuzzle_spec().num_bytes_spec(),
        applied_upto(pat.kpuzzle_spec(), pat, t, r.bytes(), pat.kpuzzle_spec().num_orbits()),
    ensures
        is_pattern_application(r, pat, t),
        r.valid_pattern(),
{
    let p = pat.kpuzzle_spec();
    assert forall|o: int, i: int| pat.in_range(o, i) implies #[trigger] r.piece_at(o, i)
        == pat.piece_at(o, t.perm_at(o, i)) by {
        assert(applied_orbit(p, pat, t, r.bytes(), o));
        assert(applied_piece_vals(pat, t, o)[i] == pat.piece_at(o, t.perm_at(o, i)) as u8);
        assert(0 <= pat.piece_at(o, t.perm_at(o, i)) < 256);
    }
    assert forall|o: int, i: int| pat.in_range(o, i) implies #[trigger] r.ori_code_at(o, i)
        == p.orbit(o).orientation_packer.transform_code(
        pat.ori_code_at(o, t.perm_at(o, i)),
        t.delta_at(o, i),
    ) && p.orbit(o).orientation_packer.valid_code(r.ori_code_at(o, i)) by {
        lemma_wf_orbit(p, o);
        lemma_valid_bounds(t, o, i);
        assert(pat.in_range(o, t.perm_at(o, i)));
        lemma_pattern_code_valid(pat, o, t.perm_at(o, i));
        assert(0 <= t.delta_at(o, i) < t.num_or(o));
        p.orbit(o).orientation_packer.lemma_code_count_bound();
        p.orbit(o).orientation_packer.lemma_transform_transform(
            pat.ori_code_at(o, t.perm_at(o, i)),
            t.delta_at(o, i),
            0,
        );
        assert(applied_orbit(p, pat, t, r.bytes(), o));
        assert(applied_ori_vals(pat, t, o)[i] == p.orbit(o).orientation_packer.transform_code(
            pat.ori_code_at(o, t.perm_at(o, i)),
            t.delta_at(o, i),
        ) as u8);
    }
}

impl KPattern {
    /// The puzzle this pattern belongs to.
    pub fn kpuzzle(&self) -> (r: &KPuzzle)
        ensures
            r == &self.packed_orbit_data.kpuzzle,
    {
        &self.packed_orbit_data.kpuzzle
    }

    /// The raw packed bytes, in the puzzle's fixed layout.
    pub fn byte_slice(&self) -> (r: &[u8])
        ensures
            r@ == self.bytes(),
    {
        self.packed_orbit_data.byte_slice()
    }

    /// The CityHash64 digest of the packed bytes.
    pub fn hash(&self) -> (r: u64)
        ensures
            r == crate::kpuzzle::packed_orbit_data::city_hash_64_of(self.bytes()),
    {
        self.packed_orbit_data.hash()
    }

    /// One byte of the piece segment, by orbit index.
    #[verifier::rlimit(100)]
    fn piece_byte(&self, o: usize, i: usize) -> (r: u8)
        requires
            self.wf(),
            0 <= o < self.kpuzzle_spec().num_orbits(),
            0 <= i < self.kpuzzle_spec().orbit(o as int).num_pieces as int,
        ensures
            r as int == self.piece_at(o as int, i as int),
    {
        proof {
            self.kpuzzle_spec().lemma_orbit_in_bounds(o as int);
        }
        let info = self.packed_orbit_data.kpuzzle.orbit_info_at(o);
        let r = self.packed_orbit_data.bytes[info.pieces_or_permutations_offset + i];
        proof {
            assert(perm_segment(self.kpuzzle_spec(), self.bytes(), o as int)[i as int] == r);
        }
        r
    }

    /// One byte of the orientation segment, by orbit index.
    #[verifier::rlimit(100)]
    fn ori_byte(&self, o: usize, i: usize) -> (r: u8)
        requires
            self.wf(),
            0 <= o < self.kpuzzle_spec().num_orbits(),
            0 <= i < self.kpuzzle_spec().orbit(o as int).num_pieces as int,
        ensures
            r as int == self.ori_code_at(o as int, i as int),
    {
        proof {
            self.kpuzzle_spec().lemma_orbit_in_bounds(o as int);
        }
        let info = self.packed_orbit_data.kpuzzle.orbit_info_at(o);
        let r = self.packed_orbit_data.bytes[info.orientations_offset + i];
        proof {
            assert(orient_segment(self.kpuzzle_spec(), self.bytes(), o as int)[i as int] == r);
        }
        r
    }

    /// Applies a transformation, producing the new pattern: slot `i`
    /// receives the piece of slot `transformation.permutation[i]`, its
    /// orientation advanced by `transformation.orientation_delta[i]`.
    #[verifier::loop_isolation(false)]
    pub fn apply_transformation(&self, transformation: &KTransformation) -> (r: KPattern)
        requires
            self.valid_pattern(),
            transformation.valid(),
            self.same_puzzle_as(*transformation),
        ensures
            is_pattern_application(r, *self, *transformation),
            r.valid_pattern(),
            r.kpuzzle_spec() == self.kpuzzle_spec(),
    {
        let p = self.packed_orbit_data.kpuzzle.clone();
        let num_orbits = p.num_orbit_infos();
        let mut bytes: Vec<u8> = Vec::new();
        let mut o: usize = 0;
        while o < num_orbits
            invariant
                0 <= o <= num_orbits,
                bytes@.len() == prefix_bytes(p.infos(), o as int),
                applied_upto(p, *self, *transformation, bytes@, o as int),
            decreases num_orbits - o,
        {
            let ghost done = bytes@;
            let piece_part = apply_orbit_pieces(self, transformation, o);
            let ori_part = apply_orbit_orientations(self, transformation, o);
            let mut k: usize = 0;
            while k < piece_part.len()
                invariant
                    0 <= k <= piece_part@.len(),
                    bytes@ == done + piece_part@.subrange(0, k as int),
                decreases piece_part@.len() - k,
            {
                bytes.push(piece_part[k]);
                proof {
                    assert(bytes@ =~= done + piece_part@.subrange(0, k as int + 1));
                }
                k = k + 1;
            }
            let mut k: usize = 0;
            while k < ori_part.len()
                invariant
                    0 <= k <= ori_part@.len(),
                    bytes@ == done + piece_part@ + ori_part@.subrange(0, k as int),
                decreases ori_part@.len() - k,
            {
                bytes.push(ori_part[k]);
                proof {
                    assert(bytes@ =~= done + piece_part@ + ori_part@.subrange(0, k as int + 1));
                }
                k = k + 1;
            }
            proof {
                assert(piece_part@.subrange(0, piece_part@.len() as int) =~= piece_part@);
                assert(ori_part@.subrange(0, ori_part@.len() as int) =~= ori_part@);
                p.lemma_extend_orbit_segments(o as int, done, piece_part@, ori_part@, bytes@);
                assert forall|o2: int| 0 <= o2 < o as int + 1 implies #[trigger] applied_orbit(
                    p,
                    *self,
                    *transformation,
                    bytes@,
                    o2,
                ) by {
                    if o2 < o as int {
                        assert(applied_orbit(p, *self, *transformation, done, o2));
                    }
                }
            }
            o = o + 1;
        }
        let r = KPattern { packed_orbit_data: PackedOrbitData { kpuzzle: p, bytes } };
        proof {
            lemma_applied_complete(*self, *transformation, r);
        }
        r
    }

    /// Writes the application into a caller-supplied destination of the
    /// same puzzle, overwriting its bytes in place: no allocation
    /// happens.
    #[verifier::loop_isolation(false)]
    pub fn apply_transformation_into(
        &self,
        transformation: &KTransformation,
        into_kpattern: &mut KPattern,
    )
        requires
            self.valid_pattern(),
            transformation.valid(),
            self.same_puzzle_as(*transformation),
            old(into_kpattern).wf(),
            old(into_kpattern).kpuzzle_spec() == self.kpuzzle_spec(),
        ensures
            is_pattern_application(*final(into_kpattern), *self, *transformation),
            final(into_kpattern).valid_pattern(),
            final(into_kpattern).kpuzzle_spec() == self.kpuzzle_spec(),
    {
        let ghost p = self.kpuzzle_spec();
        let num_orbits = self.packed_orbit_data.kpuzzle.num_orbit_infos();
        let mut o: usize = 0;
        while o < num_orbits
            invariant
                0 <= o <= num_orbits,
                into_kpattern.kpuzzle_spec() == p,
                into_kpattern.bytes().len() == p.num_bytes_spec(),
                applied_upto(p, *self, *transformation, into_kpattern.bytes(), o as int),
            decreases num_orbits - o,
        {
            let ghost before = into_kpattern.bytes();
            apply_orbit_into(self, transformation, into_kpattern, o);
            proof {
                let after = into_kpattern.bytes();
                crate::kpuzzle::ktransformation::lemma_window_preserves_earlier_orbits(
                    p,
                    before,
                    after,
                    o as int,
                );
                assert forall|o2: int|
                    0 <= o2 < o as int + 1 implies #[trigger] applied_orbit(
                    p,
                    *self,
                    *transformation,
                    after,
                    o2,
                ) by {
                    if o2 < o as int {
                        assert(applied_orbit(p, *self, *transformation, before, o2));
                    }
                }
            }
            o = o + 1;
        }
        proof {
            lemma_applied_complete(*self, *transformation, *into_kpattern);
        }
    }
}

/// Writes one orbit of `pat` with `t` applied into the destination's
/// buffer in place, touching only that orbit's region.
#[verifier::loop_isolation(false)]
fn apply_orbit_into(
    pat: &KPattern,
    t: &KTransformation,
    into_kpattern: &mut KPattern,
    o: usize,
)
    requires
        pat.valid_pattern(),
        t.valid(),
        pat.same_puzzle_as(*t),
        old(into_kpattern).kpuzzle_spec() == pat.kpuzzle_spec(),
        old(into_kpattern).bytes().len() == pat.kpuzzle_spec().num_bytes_spec(),
        0 <= (o as int) < pat.kpuzzle_spec().num_orbits(),
    ensures
        final(into_kpattern).kpuzzle_spec() == pat.kpuzzle_spec(),
        final(into_kpattern).bytes().len() == old(into_kpattern).bytes().len(),
        perm_segment(pat.kpuzzle_spec(), final(into_kpattern).bytes(), o as int)
            == applied_piece_vals(*pat, *t, o as int),
        orient_segment(pat.kpuzzle_spec(), final(into_kpattern).bytes(), o as int)
            == applied_ori_vals(*pat, *t, o as int),
        forall|j: int|
            0 <= j < old(into_kpattern).bytes().len() && j < prefix_bytes(
                pat.kpuzzle_spec().infos(),
                o as int,
            ) ==> #[trigger] final(into_kpattern).bytes()[j] == old(into_kpattern).bytes()[j],
{
    let ghost p = pat.kpuzzle_spec();
    let info = pat.packed_orbit_data.kpuzzle.orbit_info_at(o);
    let num_pieces = info.num_pieces;
    let ghost np = num_pieces as int;
    let ghost perm_off = info.pieces_or_permutations_offset as int;
    let ghost ori_off = info.orientations_offset as int;
    proof {
        assert(p.infos()[o as int] == p.orbit(o as int));
        p.lemma_orbit_in_bounds(o as int);
        lemma_wf_orbit(p, o as int);
    }
    let ghost pvals = applied_piece_vals(*pat, *t, o as int);
    let ghost ovals = applied_ori_vals(*pat, *t, o as int);
    let mut i: usize = 0;
    while i < num_pieces as usize
        invariant
            0 <= i <= np,
            into_kpattern.kpuzzle_spec() == p,
            into_kpattern.bytes().len() == old(into_kpattern).bytes().len(),
            forall|j: int|
                0 <= j < old(into_kpattern).bytes().len() && j < perm_off
                    ==> #[trigger] into_kpattern.bytes()[j] == old(into_kpattern).bytes()[j],
            forall|j: int|
                0 <= j < i as int ==> #[trigger] into_kpattern.bytes()[perm_off + j] == pvals[j],
        decreases np - i,
    {
        proof {
            assert(t.in_range(o as int, i as int));
            lemma_valid_bounds(*t, o as int, i as int);
        }
        let from_idx = t.perm_byte_for_pattern(o, i);
        let v = pat.piece_byte(o, from_idx as usize);
        into_kpattern.packed_orbit_data.bytes.set(info.pieces_or_permutations_offset + i, v);
        proof {
            assert(pvals[i as int] == pat.piece_at(o as int, t.perm_at(o as int, i as int)) as u8);
        }
        i = i + 1;
    }
    let mut i: usize = 0;
    while i < num_pieces as usize
        invariant
            0 <= i <= np,
            into_kpattern.kpuzzle_spec() == p,
            into_kpattern.bytes().len() == old(into_kpattern).bytes().len(),
            forall|j: int|
                0 <= j < old(into_kpattern).bytes().len() && j < perm_off
                    ==> #[trigger] into_kpattern.bytes()[j] == old(into_kpattern).bytes()[j],
            forall|j: int|
                0 <= j < np ==> #[trigger] into_kpattern.bytes()[perm_off + j] == pvals[j],
            forall|j: int|
                0 <= j < i as int ==> #[trigger] into_kpattern.bytes()[ori_off + j] == ovals[j],
        decreases np - i,
    {
        proof {
            assert(t.in_range(o as int, i as int));
            lemma_valid_bounds(*t, o as int, i as int);
            assert(pat.in_range(o as int, t.perm_at(o as int, i as int)));
            lemma_pattern_code_valid(*pat, o as int, t.perm_at(o as int, i as int));
        }
        let from_idx = t.perm_byte_for_pattern(o, i);
        let previous = pat.ori_byte(o, from_idx as usize);
        let d = t.delta_byte_for_pattern(o, i);
        let v = info.orientation_packer.transform(previous, d);
        into_kpattern.packed_orbit_data.bytes.set(info.orientations_offset + i, v);
        proof {
            assert(ovals[i as int] == info.orientation_packer.transform_code(
                pat.ori_code_at(o as int, t.perm_at(o as int, i as int)),
                t.delta_at(o as int, i as int),
            ) as u8);
        }
        i = i + 1;
    }
    proof {
        let bytes_now = into_kpattern.bytes();
        assert forall|k: int|
            0 <= k < np implies perm_segment(p, bytes_now, o as int)[k] == pvals[k]
            && orient_segment(p, bytes_now, o as int)[k] == ovals[k] by {
            assert(bytes_now[perm_off + k] == pvals[k]);
            assert(bytes_now[ori_off + k] == ovals[k]);
        }
        assert(perm_segment(p, bytes_now, o as int) =~= pvals);
        assert(orient_segment(p, bytes_now, o as int) =~= ovals);
    }
}

/// One orbit's piece segment of `pat` with `t` applied.
#[verifier::loop_isolation(false)]
fn apply_orbit_pieces(pat: &KPattern, t: &KTransformation, o: usize) -> (r: Vec<u8>)
    requires
        pat.valid_pattern(),
        t.valid(),
        pat.same_puzzle_as(*t),
        0 <= (o as int) < pat.kpuzzle_spec().num_orbits(),
    ensures
        r@ == applied_piece_vals(*pat, *t, o as int),
{
    let ghost vals = applied_piece_vals(*pat, *t, o as int);
    let info = pat.packed_orbit_data.kpuzzle.orbit_info_at(o);
    let num_pieces = info.num_pieces;
    let ghost np = num_pieces as int;
    let mut r: Vec<u8> = Vec::new();
    let mut i: usize = 0;
    while i < num_pieces as usize
        invariant
            0 <= i <= np,
            r@ == vals.subrange(0, i as int),
        decreases np - i,
    {
        proof {
            assert(t.in_range(o as int, i as int));
            lemma_valid_bounds(*t, o as int, i as int);
        }
        let from_idx = t.perm_byte_for_pattern(o, i);
        let v = pat.piece_byte(o, from_idx as usize);
        r.push(v);
        proof {
            assert(vals[i as int] == pat.piece_at(o as int, t.perm_at(o as int, i as int)) as u8);
            assert(r@ =~= vals.subrange(0, i as int + 1));
        }
        i = i + 1;
    }
    proof {
        assert(vals.subrange(0, np) =~= vals);
    }
    r
}

/// One orbit's orientation segment of `pat` with `t` applied.
#[verifier::loop_isolation(false)]
fn apply_orbit_orientations(pat: &KPattern, t: &KTransformation, o: usize) -> (r: Vec<u8>)
    requires
        pat.valid_pattern(),
        t.valid(),
        pat.same_puzzle_as(*t),
        0 <= (o as int) < pat.kpuzzle_spec().num_orbits(),
    ensures
        r@ == applied_ori_vals(*pat, *t, o as int),
{
    let ghost vals = applied_ori_vals(*pat, *t, o as int);
    let p = &pat.packed_orbit_data.kpuzzle;
    let info = p.orbit_info_at(o);
    let num_pieces = info.num_pieces;
    let ghost np = num_pieces as int;
    proof {
        lemma_wf_orbit(pat.kpuzzle_spec(), o as int);
    }
    let mut r: Vec<u8> = Vec::new();
    let mut i: usize = 0;
    while i < num_pieces as usize
        invariant
            0 <= i <= np,
            r@ == vals.subrange(0, i as int),
        decreases np - i,
    {
        proof {
            assert(t.in_range(o as int, i as int));
            lemma_valid_bounds(*t, o as int, i as int);
            assert(pat.in_range(o as int, t.perm_at(o as int, i as int)));
        }
        let from_idx = t.perm_byte_for_pattern(o, i);
        let previous = pat.ori_byte(o, from_idx as usize);
        let d = t.delta_byte_for_pattern(o, i);
        let v = info.orientation_packer.transform(previous, d);
        r.push(v);
        proof {
            assert(vals[i as int] == info.orientation_packer.transform_code(
                pat.ori_code_at(o as int, t.perm_at(o as int, i as int)),
                t.delta_at(o as int, i as int),
            ) as u8);
            assert(r@ =~= vals.subrange(0, i as int + 1));
        }
        i = i + 1;
    }
    proof {
        assert(vals.subrange(0, np) =~= vals);
    }
    r
}

impl Clone for KPattern {
    /// The clone has the same puzzle and the same bytes.
    fn clone(&self) -> (r: Self)
        ensures
            r.kpuzzle_spec() == self.kpuzzle_spec(),
            r.bytes() == self.bytes(),
    {
        KPattern { packed_orbit_data: self.packed_orbit_data.clone() }
    }
}

impl PartialEq for KPattern {
    /// Patterns compare by exact byte equality of their buffers.
    fn eq(&self, other: &KPattern) -> (r: bool) {
        crate::kpuzzle::packed_orbit_data::byte_vecs_equal(
            &self.packed_orbit_data.bytes,
            &other.packed_orbit_data.bytes,
        )
    }
}

impl vstd::std_specs::cmp::PartialEqSpecImpl for KPattern {
    open spec fn obeys_eq_spec() -> bool {
        true
    }

    open spec fn eq_spec(&self, other: &KPattern) -> bool {
        self.bytes() == other.bytes()
    }
}

impl Eq for KPattern {

}

/// A ping-pong pair of patterns: applying writes into the spare slot and
/// swaps which one is current, so repeated applications reuse the two
/// allocations. The spare slot is allocated on first use.
pub struct KPatternBuffer {
    a: KPattern,
    b: Option<KPattern>,
    a_is_current: bool,
}

impl KPatternBuffer {
    /// The buffer that conversion from `initial` yields: `initial` as
    /// the current pattern, the spare slot still empty.
    pub closed spec fn fresh(initial: KPattern) -> Self {
        KPatternBuffer { a: initial, b: None, a_is_current: true }
    }

    /// The pattern the buffer currently holds.
    pub closed spec fn current_spec(self) -> KPattern {
        if self.a_is_current || !(self.b is Some) {
            self.a
        } else {
            self.b->Some_0
        }
    }

    pub closed spec fn wf(self) -> bool {
        &&& self.a.valid_pattern()
        &&& (self.b matches Some(b) ==> b.valid_pattern() && self.a.kpuzzle_spec()
            == b.kpuzzle_spec())
        &&& (!self.a_is_current ==> self.b is Some)
    }

    /// Applies a transformation to the current pattern, into the spare
    /// slot, and makes that the current one.
    pub fn apply_transformation(&mut self, transformation: &KTransformation)
        requires
            old(self).wf(),
            transformation.valid(),
            old(self).current_spec().same_puzzle_as(*transformation),
        ensures
            final(self).wf(),
            is_pattern_application(
                final(self).current_spec(),
                old(self).current_spec(),
                *transformation,
            ),
            final(self).current_spec().kpuzzle_spec() == old(self).current_spec().kpuzzle_spec(),
    {
        if self.a_is_current {
            match &mut self.b {
                Some(b) => {
                    self.a.apply_transformation_into(transformation, b);
                },
                None => {
                    self.b = Some(self.a.apply_transformation(transformation));
                },
            }
            self.a_is_current = false;
        } else {
            match &self.b {
                Some(b) => {
                    b.apply_transformation_into(transformation, &mut self.a);
                },
                None => {
                    let _ = vstd::pervasive::unreached::<()>();
                },
            }
            self.a_is_current = true;
        }
    }

    /// The current pattern.
    pub fn current(&self) -> (r: &KPattern)
        ensures
            *r == self.current_spec(),
    {
        if self.a_is_current {
            &self.a
        } else {
            match &self.b {
                Some(b) => b,
                None => &self.a,
            }
        }
    }
}

impl From<KPattern> for KPatternBuffer {
    /// The fresh buffer holds `initial` as its current pattern; the
    /// spare slot is empty until the first application.
    fn from(initial: KPattern) -> (r: Self) {
        KPatternBuffer { a: initial, b: None, a_is_current: true }
    }
}

impl vstd::std_specs::convert::FromSpecImpl<KPattern> for KPatternBuffer {
    closed spec fn obeys_from_spec() -> bool {
        true
    }

    closed spec fn from_spec(initial: KPattern) -> Self {
        KPatternBuffer::fresh(initial)
    }
}

/// What conversion into a buffer yields: the buffer is well-formed when
/// the initial pattern is valid, and holds it as current.
pub proof fn lemma_pattern_buffer_from(initial: KPattern)
    ensures
        <KPatternBuffer as vstd::std_specs::convert::FromSpec<KPattern>>::from_spec(initial)
            == KPatternBuffer::fresh(initial),
        KPatternBuffer::fresh(initial).current_spec() == initial,
        initial.valid_pattern() ==> KPatternBuffer::fresh(initial).wf(),
{
}

impl KTransformation {
    /// Which slot `i` of orbit index `o` takes its piece from.
    pub(crate) fn perm_byte_for_pattern(&self, o: usize, i: usize) -> (r: u8)
        requires
            self.wf(),
            0 <= o < self.kpuzzle_spec().num_orbits(),
            0 <= i < self.kpuzzle_spec().orbit(o as int).num_pieces as int,
        ensures
            r as int == self.perm_at(o as int, i as int),
    {
        proof {
            self.kpuzzle_spec().lemma_orbit_in_bounds(o as int);
        }
        let info = self.packed_orbit_data.kpuzzle.orbit_info_at(o);
        let r = self.packed_orbit_data.bytes[info.pieces_or_permutations_offset + i];
        proof {
            assert(perm_segment(self.kpuzzle_spec(), self.bytes(), o as int)[i as int] == r);
        }
        r
    }

    /// The orientation change of slot `i` of orbit index `o`.
    #[verifier::rlimit(100)]
    #[verifier::spinoff_prover]
    pub(crate) fn delta_byte_for_pattern(&self, o: usize, i: usize) -> (r: u8)
        requires
            self.wf(),
            0 <= o < self.kpuzzle_spec().num_orbits(),
            0 <= i < self.kpuzzle_spec().orbit(o as int).num_pieces as int,
        ensures
            r as int == self.delta_at(o as int, i as int),
    {
        proof {
            self.kpuzzle_spec().lemma_orbit_in_bounds(o as int);
        }
        let info = self.packed_orbit_data.kpuzzle.orbit_info_at(o);
        let r = self.packed_orbit_data.bytes[info.orientations_offset + i];
        proof {
            assert(orient_segment(self.kpuzzle_spec(), self.bytes(), o as int)[i as int] == r);
        }
        r
    }
}


/// The orientation modulus the data gives slot `i`: the `orientation_mod`
/// entry if present, else 0 (the orbit's full count).
pub open spec fn data_orientation_mod(d: KPatternOrbitData, i: int) -> int {
    match d.orientation_mod {
        Some(m) => m@[i] as int,
        None => 0,
    }
}

/// Whether one orbit's supplied pattern data fits its orbit: right
/// lengths, and each slot's (orientation, modulus) pair one the orbit's
/// codec can pack.
pub open spec fn pattern_orbit_data_ok(info: KPuzzleOrbitInfo, d: KPatternOrbitData) -> bool {
    &&& d.pieces@.len() == info.num_pieces as int
    &&& d.orientation@.len() == info.num_pieces as int
    &&& (d.orientation_mod matches Some(m) ==> m@.len() == info.num_pieces as int)
    &&& forall|i: int|
        #![trigger d.orientation@[i]]
        0 <= i < info.num_pieces as int ==> valid_orientation_pair(
            info.num_orientations as int,
            data_orientation_mod(d, i),
            d.orientation@[i] as int,
        ) && pair_code(
            info.num_orientations as int,
            data_orientation_mod(d, i),
            d.orientation@[i] as int,
        ) < info.orientation_packer.code_count()
}

/// Whether every orbit finds a well-shaped entry in the supplied pattern
/// data.
pub open spec fn pattern_data_ok(
    infos: Seq<KPuzzleOrbitInfo>,
    data: Seq<(KPuzzleOrbitName, KPatternOrbitData)>,
) -> bool {
    forall|o: int|
        0 <= o < infos.len() ==> {
            let entry = pattern_data_lookup(data, (#[trigger] infos[o]).name@);
            entry is Some && pattern_orbit_data_ok(infos[o], entry->Some_0)
        }
}

/// Whether one orbit's supplied pattern data fits an orbit declaration:
/// right lengths, and each slot's (orientation, modulus) pair one the
/// declared orientation count's codec can pack.
pub open spec fn pattern_orbit_data_ok_def(od: KPuzzleOrbitDefinition, d: KPatternOrbitData) -> bool {
    &&& d.pieces@.len() == od.num_pieces as int
    &&& d.orientation@.len() == od.num_pieces as int
    &&& (d.orientation_mod matches Some(m) ==> m@.len() == od.num_pieces as int)
    &&& forall|i: int|
        #![trigger d.orientation@[i]]
        0 <= i < od.num_pieces as int ==> valid_orientation_pair(
            od.num_orientations as int,
            data_orientation_mod(d, i),
            d.orientation@[i] as int,
        ) && pair_code(
            od.num_orientations as int,
            data_orientation_mod(d, i),
            d.orientation@[i] as int,
        ) < packer_capacity(od.num_orientations as int)
}

/// Whether every declared orbit finds a well-shaped entry in the
/// supplied pattern data.
pub open spec fn pattern_data_ok_def(
    orbits: Seq<KPuzzleOrbitDefinition>,
    data: Seq<(KPuzzleOrbitName, KPatternOrbitData)>,
) -> bool {
    forall|o: int|
        0 <= o < orbits.len() ==> {
            let entry = pattern_data_lookup(data, (#[trigger] orbits[o]).orbit_name@);
            entry is Some && pattern_orbit_data_ok_def(orbits[o], entry->Some_0)
        }
}

/// With layout entries that mirror the declarations and packers of full
/// capacity, the layout-level and declaration-level pattern-data checks
/// agree.
pub proof fn lemma_pattern_data_ok_def(
    infos: Seq<KPuzzleOrbitInfo>,
    orbits: Seq<KPuzzleOrbitDefinition>,
    data: Seq<(KPuzzleOrbitName, KPatternOrbitData)>,
)
    requires
        infos.len() == orbits.len(),
        forall|o: int|
            0 <= o < infos.len() ==> {
                let info = #[trigger] infos[o];
                &&& info.name@ == orbits[o].orbit_name@
                &&& info.num_pieces == orbits[o].num_pieces
                &&& info.num_orientations == orbits[o].num_orientations
                &&& info.orientation_packer.code_count() == packer_capacity(
                    info.num_orientations as int,
                )
            },
    ensures
        pattern_data_ok(infos, data) <==> pattern_data_ok_def(orbits, data),
{
    if pattern_data_ok(infos, data) {
        assert forall|o: int| 0 <= o < orbits.len() implies {
            let entry = pattern_data_lookup(data, (#[trigger] orbits[o]).orbit_name@);
            entry is Some && pattern_orbit_data_ok_def(orbits[o], entry->Some_0)
        } by {
            assert(infos[o].name@ == orbits[o].orbit_name@);
            let entry = pattern_data_lookup(data, infos[o].name@);
            assert(entry is Some && pattern_orbit_data_ok(infos[o], entry->Some_0));
        }
    }
    if pattern_data_ok_def(orbits, data) {
        assert forall|o: int| 0 <= o < infos.len() implies {
            let entry = pattern_data_lookup(data, (#[trigger] infos[o]).name@);
            entry is Some && pattern_orbit_data_ok(infos[o], entry->Some_0)
        } by {
            assert(infos[o].name@ == orbits[o].orbit_name@);
            let entry = pattern_data_lookup(data, orbits[o].orbit_name@);
            assert(entry is Some && pattern_orbit_data_ok_def(orbits[o], entry->Some_0));
        }
    }
}

/// The packed orientation segment the data describes for one orbit.
pub open spec fn packed_ori_vals(info: KPuzzleOrbitInfo, d: KPatternOrbitData) -> Seq<u8> {
    Seq::new(
        info.num_pieces as nat,
        |i: int|
            pair_code(
                info.num_orientations as int,
                data_orientation_mod(d, i),
                d.orientation@[i] as int,
            ) as u8,
    )
}

/// Orbit `o2` of `bytes` equals the data entry for its name, with
/// orientations packed.
pub open spec fn pattern_from_data_orbit(
    p: KPuzzle,
    data: Seq<(KPuzzleOrbitName, KPatternOrbitData)>,
    bytes: Seq<u8>,
    o2: int,
) -> bool {
    let entry = pattern_data_lookup(data, p.orbit(o2).name@);
    &&& entry is Some
    &&& perm_segment(p, bytes, o2) == entry->Some_0.pieces@
    &&& orient_segment(p, bytes, o2) == packed_ori_vals(p.orbit(o2), entry->Some_0)
}

/// The first `o` orbits of `bytes` equal their data entries.
pub open spec fn pattern_from_data_upto(
    p: KPuzzle,
    data: Seq<(KPuzzleOrbitName, KPatternOrbitData)>,
    bytes: Seq<u8>,
    o: int,
) -> bool {
    forall|o2: int| 0 <= o2 < o ==> #[trigger] pattern_from_data_orbit(p, data, bytes, o2)
}

/// Whether the pattern's contents equal the supplied data, orbit by orbit.
pub open spec fn matches_pattern_data(
    pat: KPattern,
    p: KPuzzle,
    data: Seq<(KPuzzleOrbitName, KPatternOrbitData)>,
) -> bool {
    forall|o: int| 0 <= o < p.num_orbits() ==> #[trigger] pattern_from_data_orbit(p, data, pat.bytes(), o)
}

/// Checks one orbit's supplied pattern data against its layout entry.
#[verifier::loop_isolation(false)]
pub(crate) fn check_pattern_orbit_data(info: &KPuzzleOrbitInfo, d: &KPatternOrbitData) -> (r: bool)
    requires
        info.orientation_packer.wf(),
        info.orientation_packer.num_orientations_spec() == info.num_orientations as int,
    ensures
        r == pattern_orbit_data_ok(*info, *d),
{
    let np = info.num_pieces;
    if d.pieces.len() != np as usize || d.orientation.len() != np as usize {
        return false;
    }
    match &d.orientation_mod {
        Some(m) => {
            if m.len() != np as usize {
                return false;
            }
        },
        None => {
        },
    }
    let mut i: usize = 0;
    while i < np as usize
        invariant
            0 <= i <= np as int,
            forall|j: int|
                #![trigger d.orientation@[j]]
                0 <= j < i as int ==> valid_orientation_pair(
                    info.num_orientations as int,
                    data_orientation_mod(*d, j),
                    d.orientation@[j] as int,
                ) && pair_code(
                    info.num_orientations as int,
                    data_orientation_mod(*d, j),
                    d.orientation@[j] as int,
                ) < info.orientation_packer.code_count(),
        decreases np as int - i,
    {
        let orientation_mod: u8 = match &d.orientation_mod {
            Some(m) => m[i],
            None => 0,
        };
        let pair = OrientationWithMod { orientation: d.orientation[i], orientation_mod };
        match info.orientation_packer.try_pack(&pair) {
            Some(_) => {
            },
            None => {
                return false;
            },
        }
        i = i + 1;
    }
    true
}

/// Checks whole pattern data against a layout table.
#[verifier::loop_isolation(false)]
pub(crate) fn check_pattern_data(infos: &Vec<KPuzzleOrbitInfo>, data: &KPatternData) -> (r: bool)
    requires
        forall|o: int|
            0 <= o < infos@.len() ==> (#[trigger] infos@[o]).orientation_packer.wf() && infos@[o]
                .orientation_packer.num_orientations_spec() == infos@[o].num_orientations as int,
    ensures
        r == pattern_data_ok(infos@, data.entries@),
{
    let n = infos.len();
    let mut o: usize = 0;
    while o < n
        invariant
            0 <= o <= n,
            forall|o2: int|
                0 <= o2 < o as int ==> {
                    let entry = pattern_data_lookup(data.entries@, (#[trigger] infos@[o2]).name@);
                    entry is Some && pattern_orbit_data_ok(infos@[o2], entry->Some_0)
                },
        decreases n - o,
    {
        let info = &infos[o];
        match data.get(&info.name) {
            Some(d) => {
                if !check_pattern_orbit_data(info, d) {
                    return false;
                }
            },
            None => {
                return false;
            },
        }
        o = o + 1;
    }
    true
}

pub proof fn lemma_pattern_from_data_complete(
    p: KPuzzle,
    data: Seq<(KPuzzleOrbitName, KPatternOrbitData)>,
    r: KPattern,
)
    requires
        p.wf(),
        r.kpuzzle_spec() == p,
        r.bytes().len() == p.num_bytes_spec(),
        pattern_from_data_upto(p, data, r.bytes(), p.num_orbits()),
        pattern_data_ok(p.infos(), data),
    ensures
        matches_pattern_data(r, p, data),
        r.valid_pattern(),
{
    assert forall|o: int, i: int|
        #![trigger r.ori_code_at(o, i)]
        r.in_range(o, i) implies p.orbit(o).orientation_packer.valid_code(
        r.ori_code_at(o, i),
    ) by {
        lemma_wf_orbit(p, o);
        assert(pattern_from_data_orbit(p, data, r.bytes(), o));
        let entry = pattern_data_lookup(data, p.orbit(o).name@);
        assert(pattern_orbit_data_ok(p.orbit(o), entry->Some_0));
        assert(orient_segment(p, r.bytes(), o)[i] == packed_ori_vals(p.orbit(o), entry->Some_0)[i]);
        assert(packed_ori_vals(p.orbit(o), entry->Some_0)[i] == pair_code(
            p.orbit(o).num_orientations as int,
            data_orientation_mod(entry->Some_0, i),
            entry->Some_0.orientation@[i] as int,
        ) as u8);
        assert(valid_orientation_pair(
            p.orbit(o).num_orientations as int,
            data_orientation_mod(entry->Some_0, i),
            entry->Some_0.orientation@[i] as int,
        ));
        if data_orientation_mod(entry->Some_0, i) != 0 {
            crate::kpuzzle::orientation_packer::divisor_sum_nonneg(
                p.orbit(o).num_orientations as int,
                data_orientation_mod(entry->Some_0, i),
            );
        }
    }
}

impl KPattern {
    /// Builds a pattern from externally supplied per-orbit data. Fails
    /// exactly when some orbit's entry is missing or mis-shaped: wrong
    /// lengths, a modulus that does not divide the orbit's orientation
    /// count, or an orientation its codec cannot pack.
    #[verifier::rlimit(100)]
    #[verifier::spinoff_prover]
    #[verifier::loop_isolation(false)]
    pub fn try_from_data(kpuzzle: &KPuzzle, kpattern_data: &KPatternData) -> (r: Result<
        KPattern,
        ConversionError,
    >)
        requires
            kpuzzle.wf(),
        ensures
            r matches Ok(pat) ==> {
                &&& pat.valid_pattern()
                &&& pat.kpuzzle_spec() == *kpuzzle
                &&& matches_pattern_data(pat, *kpuzzle, kpattern_data.entries@)
                &&& pattern_data_ok(kpuzzle.infos(), kpattern_data.entries@)
            },
            r is Err <==> !pattern_data_ok(kpuzzle.infos(), kpattern_data.entries@),
    {
        let p = kpuzzle.clone();
        let num_orbits = p.num_orbit_infos();
        let ghost data = kpattern_data.entries@;
        let mut bytes: Vec<u8> = Vec::new();
        let mut o: usize = 0;
        while o < num_orbits
            invariant
                0 <= o <= num_orbits,
                bytes@.len() == prefix_bytes(p.infos(), o as int),
                pattern_from_data_upto(p, data, bytes@, o as int),
                forall|o2: int|
                    0 <= o2 < o as int ==> {
                        let entry = pattern_data_lookup(data, (#[trigger] p.orbit(o2)).name@);
                        entry is Some && pattern_orbit_data_ok(p.orbit(o2), entry->Some_0)
                    },
            decreases num_orbits - o,
        {
            let ghost done = bytes@;
            let info = p.orbit_info_at(o);
            proof {
                lemma_wf_orbit(p, o as int);
            }
            let d = match kpattern_data.get(&info.name) {
                Some(d) => d,
                None => {
                    proof {
                        assert(p.infos()[o as int] == p.orbit(o as int));
                        assert(pattern_data_lookup(data, p.infos()[o as int].name@) is None);
                        assert(!pattern_data_ok(p.infos(), data));
                    }
                    return Err(
                        ConversionError::InvalidKPatternData(
                            InvalidKPatternDataError {
                                description: String::from_str("Missing orbit in pattern data."),
                            },
                        ),
                    );
                },
            };
            if !check_pattern_orbit_data(info, d) {
                proof {
                    assert(p.infos()[o as int] == p.orbit(o as int));
                    assert(!pattern_orbit_data_ok(
                        p.infos()[o as int],
                        pattern_data_lookup(data, p.infos()[o as int].name@)->Some_0,
                    ));
                    assert(!pattern_data_ok(p.infos(), data));
                }
                let mut description = String::from_str(
                    "`orientation_mod` must be a factor of the orbit's `num_orientations`, and each orientation must fit under it.",
                );
                if let Some(m) = &d.orientation_mod {
                    let lim: usize = if m.len() < (info.num_pieces as usize) {
                        m.len()
                    } else {
                        info.num_pieces as usize
                    };
                    let mut idx: usize = 0;
                    while idx < lim
                        invariant
                            0 <= idx <= lim,
                            lim <= m@.len(),
                        decreases lim - idx,
                    {
                        if m[idx] != 0 && info.num_orientations % m[idx] != 0 {
                            let mut detailed = String::from_str("`orientation_mod` of ");
                            detailed.append(
                                crate::alg::render::u32_dec_string(m[idx] as u32).as_str(),
                            );
                            detailed.append(" seen for piece at index ");
                            detailed.append(
                                crate::alg::render::u32_dec_string(idx as u32).as_str(),
                            );
                            detailed.append(" in orbit ");
                            detailed.append(info.name.0.as_str());
                            detailed.append(" in the start pattern for puzzle ");
                            detailed.append(p.data.definition.name.as_str());
                            detailed.append(
                                ". This must be a factor of `num_orientations` for the orbit (",
                            );
                            detailed.append(
                                crate::alg::render::u32_dec_string(
                                    info.num_orientations as u32,
                                ).as_str(),
                            );
                            detailed.append(
                                "). See: https://js.cubing.net/cubing/api/interfaces/kpuzzle.KPatternOrbitData.html#orientationMod",
                            );
                            description = detailed;
                            break;
                        }
                        idx = idx + 1;
                    }
                }
                return Err(
                    ConversionError::InvalidKPatternData(
                        InvalidKPatternDataError { description },
                    ),
                );
            }
            let np = info.num_pieces as usize;
            let mut k: usize = 0;
            while k < np
                invariant
                    0 <= k <= np,
                    np == p.orbit(o as int).num_pieces as usize,
                    d.pieces@.len() == np as int,
                    bytes@ == done + d.pieces@.subrange(0, k as int),
                decreases np - k,
            {
                bytes.push(d.pieces[k]);
                proof {
                    assert(bytes@ =~= done + d.pieces@.subrange(0, k as int + 1));
                }
                k = k + 1;
            }
            let ghost ovals = packed_ori_vals(p.orbit(o as int), *d);
            let mut k: usize = 0;
            while k < np
                invariant
                    0 <= k <= np,
                    np == p.orbit(o as int).num_pieces as usize,
                    d.pieces@.len() == np as int,
                    ovals == packed_ori_vals(p.orbit(o as int), *d),
                    pattern_orbit_data_ok(p.orbit(o as int), *d),
                    *info == p.orbit(o as int),
                    info.orientation_packer.wf(),
                    bytes@ == done + d.pieces@.subrange(0, np as int) + ovals.subrange(0, k as int),
                decreases np - k,
            {
                let orientation_mod: u8 = match &d.orientation_mod {
                    Some(m) => m[k],
                    None => 0,
                };
                let pair = OrientationWithMod { orientation: d.orientation[k], orientation_mod };
                let code = info.orientation_packer.pack(&pair);
                bytes.push(code);
                proof {
                    assert(ovals[k as int] == code);
                    assert(bytes@ =~= done + d.pieces@.subrange(0, np as int) + ovals.subrange(
                        0,
                        k as int + 1,
                    ));
                }
                k = k + 1;
            }
            proof {
                assert(d.pieces@.subrange(0, np as int) =~= d.pieces@);
                assert(ovals.subrange(0, np as int) =~= ovals);
                p.lemma_extend_orbit_segments(o as int, done, d.pieces@, ovals, bytes@);
                assert forall|o2: int|
                    0 <= o2 < o as int + 1 implies #[trigger] pattern_from_data_orbit(
                    p,
                    data,
                    bytes@,
                    o2,
                ) by {
                    if o2 < o as int {
                        assert(pattern_from_data_orbit(p, data, done, o2));
                    } else {
                        assert(perm_segment(p, bytes@, o as int) == d.pieces@);
                        assert(orient_segment(p, bytes@, o as int) == ovals);
                        assert(pattern_data_lookup(data, p.orbit(o as int).name@) == Some(*d));
                    }
                }
            }
            o = o + 1;
        }
        proof {
            assert forall|o2: int| 0 <= o2 < p.infos().len() implies {
                let entry = pattern_data_lookup(data, (#[trigger] p.infos()[o2]).name@);
                entry is Some && pattern_orbit_data_ok(p.infos()[o2], entry->Some_0)
            } by {
                assert(p.orbit(o2) == p.infos()[o2]);
                let entry = pattern_data_lookup(data, p.orbit(o2).name@);
                assert(entry is Some && pattern_orbit_data_ok(p.orbit(o2), entry->Some_0));
            }
            assert(pattern_data_ok(p.infos(), data));
        }
        let r = KPattern { packed_orbit_data: PackedOrbitData { kpuzzle: p, bytes } };
        proof {
            lemma_pattern_from_data_complete(*kpuzzle, data, r);
        }
        Ok(r)
    }

    /// Reads the pattern back out as per-orbit data, one entry per orbit
    /// in declaration order, orientations unpacked with their moduli.
    #[verifier::loop_isolation(false)]
    pub fn to_data(&self) -> (r: KPatternData)
        requires
            self.valid_pattern(),
        ensures
            r.entries@.len() == self.kpuzzle_spec().num_orbits(),
            forall|o: int|
                0 <= o < self.kpuzzle_spec().num_orbits() ==> #[trigger] pattern_entry_matches(
                    self.kpuzzle_spec(),
                    *self,
                    r.entries@[o],
                    o,
                ),
    {
        let p = &self.packed_orbit_data.kpuzzle;
        let num_orbits = p.num_orbit_infos();
        let mut entries: Vec<(KPuzzleOrbitName, KPatternOrbitData)> = Vec::new();
        let mut o: usize = 0;
        while o < num_orbits
            invariant
                0 <= o <= num_orbits,
                entries@.len() == o as int,
                forall|o2: int|
                    0 <= o2 < o as int ==> #[trigger] pattern_entry_matches(
                        *p,
                        *self,
                        entries@[o2],
                        o2,
                    ),
            decreases num_orbits - o,
        {
            let info = p.orbit_info_at(o);
            proof {
                lemma_wf_orbit(*p, o as int);
                p.lemma_orbit_in_bounds(o as int);
            }
            let np = info.num_pieces as usize;
            let mut pieces: Vec<u8> = Vec::new();
            let mut orientation: Vec<u8> = Vec::new();
            let mut orientation_mod: Vec<u8> = Vec::new();
            let mut k: usize = 0;
            while k < np
                invariant
                    0 <= k <= np,
                    np == p.orbit(o as int).num_pieces as usize,
                    *info == p.orbit(o as int),
                    info.orientation_packer.wf(),
                    pieces@ == perm_segment(*p, self.bytes(), o as int).subrange(0, k as int),
                    orientation@.len() == k as int,
                    orientation_mod@.len() == k as int,
                    forall|i: int|
                        0 <= i < k as int ==> (#[trigger] orientation@[i]) as int
                            == info.orientation_packer.code_orientation(
                            self.ori_code_at(o as int, i),
                        ) && orientation_mod@[i] as int == info.orientation_packer.code_mod(
                            self.ori_code_at(o as int, i),
                        ),
                decreases np - k,
            {
                pieces.push(self.piece_byte(o, k));
                proof {
                    assert(perm_segment(*p, self.bytes(), o as int).len() == np as int);
                    assert(pieces@ =~= perm_segment(*p, self.bytes(), o as int).subrange(
                        0,
                        k as int + 1,
                    ));
                    lemma_pattern_code_valid(*self, o as int, k as int);
                }
                let code = self.ori_byte(o, k);
                let with_mod = info.orientation_packer.unpack(code);
                orientation.push(with_mod.orientation);
                orientation_mod.push(with_mod.orientation_mod);
                k = k + 1;
            }
            proof {
                assert(perm_segment(*p, self.bytes(), o as int).subrange(0, np as int)
                    =~= perm_segment(*p, self.bytes(), o as int));
            }
            let ghost gor = orientation@;
            let ghost gom = orientation_mod@;
            let name = info.name.clone();
            let entry = KPatternOrbitData {
                pieces,
                orientation,
                orientation_mod: Some(orientation_mod),
            };
            let ghost gentry = entry;
            let ghost gname = name;
            entries.push((name, entry));
            proof {
                assert(entries@[o as int].0 == gname);
                assert(entries@[o as int].1 == gentry);
                assert(gentry.orientation@ == gor);
                assert(gentry.orientation_mod == Some(orientation_mod));
                assert(gentry.orientation_mod->Some_0@ == gom);
                assert(pattern_entry_matches(*p, *self, entries@[o as int], o as int));
                assert forall|o2: int| 0 <= o2 < o as int + 1 implies #[trigger] pattern_entry_matches(
                    *p,
                    *self,
                    entries@[o2],
                    o2,
                ) by {
                    if o2 < o as int {
                        assert(entries@[o2] == entries@.subrange(0, o as int)[o2]);
                        assert(pattern_entry_matches(*p, *self, entries@[o2], o2));
                    }
                }
            }
            o = o + 1;
        }
        KPatternData { entries }
    }
}


/// Whether one read-back entry holds orbit `o2`'s contents: the orbit's
/// name, its piece segment, and its orientation bytes unpacked into
/// (orientation, modulus) pairs.
pub open spec fn pattern_entry_matches(
    p: KPuzzle,
    pat: KPattern,
    e: (KPuzzleOrbitName, KPatternOrbitData),
    o2: int,
) -> bool {
    let info = p.orbit(o2);
    &&& e.0@ == info.name@
    &&& e.1.pieces@ == perm_segment(p, pat.bytes(), o2)
    &&& e.1.orientation@.len() == info.num_pieces as int
    &&& e.1.orientation_mod matches Some(m) && m@.len() == info.num_pieces as int
    &&& forall|i: int|
        0 <= i < info.num_pieces as int ==> (#[trigger] e.1.orientation@[i]) as int
            == info.orientation_packer.code_orientation(pat.ori_code_at(o2, i))
            && e.1.orientation_mod->Some_0@[i] as int == info.orientation_packer.code_mod(
            pat.ori_code_at(o2, i),
        )
}


impl KPuzzle {
    /// The default (solved) pattern the definition declares. The
    /// definition was validated at construction, so this always
    /// succeeds.
    pub fn default_pattern(&self) -> (r: KPattern)
        requires
            self.wf(),
        ensures
            r.valid_pattern(),
            r.kpuzzle_spec() == *self,
            matches_pattern_data(r, *self, self.data.definition.default_pattern.entries@),
    {
        match KPattern::try_from_data(self, &self.data.definition.default_pattern) {
            Ok(pattern) => pattern,
            Err(_) => vstd::pervasive::unreached(),
        }
    }
}


impl KPattern {
    /// The piece in slot `i` of the orbit; the checked accessor path.
    pub fn get_piece(&self, orbit: &KPuzzleOrbitInfo, i: u8) -> (r: u8)
        requires
            self.wf(),
            self.kpuzzle_spec().has_orbit_info(*orbit),
            (i as int) < orbit.num_pieces as int,
        ensures
            forall|o: int|
                0 <= o < self.kpuzzle_spec().num_orbits() && #[trigger] self.kpuzzle_spec().orbit(o)
                    == *orbit ==> r as int == self.piece_at(o, i as int),
    {
        proof {
            let o = choose|o: int|
                0 <= o < self.kpuzzle_spec().num_orbits() && self.kpuzzle_spec().orbit(o)
                    == *orbit;
            self.kpuzzle_spec().lemma_orbit_in_bounds(o);
        }
        let r = self.packed_orbit_data.bytes[orbit.pieces_or_permutations_offset + (i as usize)];
        proof {
            lemma_pattern_piece_byte(*self, *orbit, i as int, r);
        }
        r
    }

    /// The (orientation, modulus) pair of slot `i` of the orbit, unpacked
    /// from its packed byte; the checked accessor path.
    pub fn get_orientation_with_mod(&self, orbit: &KPuzzleOrbitInfo, i: u8) -> (r:
        OrientationWithMod)
        requires
            self.valid_pattern(),
            self.kpuzzle_spec().has_orbit_info(*orbit),
            (i as int) < orbit.num_pieces as int,
        ensures
            forall|o: int|
                0 <= o < self.kpuzzle_spec().num_orbits() && #[trigger] self.kpuzzle_spec().orbit(o)
                    == *orbit ==> r.orientation as int == orbit.orientation_packer.code_orientation(
                    self.ori_code_at(o, i as int),
                ) && r.orientation_mod as int == orbit.orientation_packer.code_mod(
                    self.ori_code_at(o, i as int),
                ),
    {
        proof {
            let o = choose|o: int|
                0 <= o < self.kpuzzle_spec().num_orbits() && self.kpuzzle_spec().orbit(o)
                    == *orbit;
            self.kpuzzle_spec().lemma_orbit_in_bounds(o);
            lemma_wf_orbit(self.kpuzzle_spec(), o);
            lemma_pattern_code_valid(*self, o, i as int);
            assert(orient_segment(self.kpuzzle_spec(), self.bytes(), o)[i as int] == self.bytes()[
                orbit.orientations_offset + i as int
            ]);
        }
        let code = self.packed_orbit_data.bytes[orbit.orientations_offset + (i as usize)];
        proof {
            lemma_pattern_ori_byte(*self, *orbit, i as int, code);
        }
        let r = orbit.orientation_packer.unpack(code);
        r
    }

    /// Writes the piece in slot `i` of the orbit: exactly the byte at the
    /// orbit's permutation offset plus `i` changes, to `value`.
    pub fn set_piece(&mut self, orbit: &KPuzzleOrbitInfo, i: u8, value: u8)
        requires
            old(self).wf(),
            old(self).kpuzzle_spec().has_orbit_info(*orbit),
            (i as int) < orbit.num_pieces as int,
        ensures
            final(self).kpuzzle_spec() == old(self).kpuzzle_spec(),
            final(self).wf(),
            final(self).bytes() == old(self).bytes().update(
                orbit.pieces_or_permutations_offset + i as int,
                value,
            ),
    {
        proof {
            let o = choose|o: int|
                0 <= o < self.kpuzzle_spec().num_orbits() && self.kpuzzle_spec().orbit(o)
                    == *orbit;
            self.kpuzzle_spec().lemma_orbit_in_bounds(o);
        }
        self.packed_orbit_data.bytes.set(
            orbit.pieces_or_permutations_offset + (i as usize),
            value,
        );
    }

    /// Writes the (orientation, modulus) pair of slot `i` of the orbit,
    /// packed into its byte code: exactly the byte at the orbit's
    /// orientation offset plus `i` changes. The pair must be legal for
    /// the orbit and packable by its codec.
    pub fn set_orientation_with_mod(
        &mut self,
        orbit: &KPuzzleOrbitInfo,
        i: u8,
        orientation_with_mod: &OrientationWithMod,
    )
        requires
            old(self).wf(),
            old(self).kpuzzle_spec().has_orbit_info(*orbit),
            (i as int) < orbit.num_pieces as int,
            valid_orientation_pair(
                orbit.num_orientations as int,
                orientation_with_mod.orientation_mod as int,
                orientation_with_mod.orientation as int,
            ),
            pair_code(
                orbit.num_orientations as int,
                orientation_with_mod.orientation_mod as int,
                orientation_with_mod.orientation as int,
            ) < orbit.orientation_packer.code_count(),
        ensures
            final(self).kpuzzle_spec() == old(self).kpuzzle_spec(),
            final(self).wf(),
            final(self).bytes() == old(self).bytes().update(
                orbit.orientations_offset + i as int,
                pair_code(
                    orbit.num_orientations as int,
                    orientation_with_mod.orientation_mod as int,
                    orientation_with_mod.orientation as int,
                ) as u8,
            ),
    {
        proof {
            let o = choose|o: int|
                0 <= o < self.kpuzzle_spec().num_orbits() && self.kpuzzle_spec().orbit(o)
                    == *orbit;
            self.kpuzzle_spec().lemma_orbit_in_bounds(o);
            lemma_wf_orbit(self.kpuzzle_spec(), o);
        }
        let code = orbit.orientation_packer.pack(orientation_with_mod);
        self.packed_orbit_data.bytes.set(orbit.orientations_offset + (i as usize), code);
    }
}


/// Reading the byte at an orbit layout entry's orientation offset reads
/// that orbit's packed orientation, whichever index the entry has; the
/// byte is one of the orbit's assigned codes.
pub proof fn lemma_pattern_ori_byte(pat: KPattern, info: KPuzzleOrbitInfo, i: int, code: u8)
    requires
        pat.valid_pattern(),
        0 <= i < info.num_pieces as int,
        info.orientations_offset + i < pat.bytes().len(),
        code == pat.bytes()[info.orientations_offset + i],
    ensures
        forall|o: int|
            0 <= o < pat.kpuzzle_spec().num_orbits() && #[trigger] pat.kpuzzle_spec().orbit(o)
                == info ==> code as int == pat.ori_code_at(o, i) && info.orientation_packer
                .valid_code(code as int),
{
    assert forall|o: int|
        0 <= o < pat.kpuzzle_spec().num_orbits() && #[trigger] pat.kpuzzle_spec().orbit(o)
            == info implies code as int == pat.ori_code_at(o, i) && info.orientation_packer
        .valid_code(code as int) by {
        pat.kpuzzle_spec().lemma_orbit_in_bounds(o);
        assert(pat.kpuzzle_spec().orbit(o).orientations_offset == info.orientations_offset);
        assert(pat.kpuzzle_spec().orbit(o).num_pieces == info.num_pieces);
        assert(orient_segment(pat.kpuzzle_spec(), pat.bytes(), o)[i] == pat.bytes()[info
            .orientations_offset + i]);
        lemma_pattern_code_valid(pat, o, i);
    }
}


/// Reading the byte at an orbit layout entry's permutation offset reads
/// that orbit's piece entry, whichever index the entry has.
pub proof fn lemma_pattern_piece_byte(pat: KPattern, info: KPuzzleOrbitInfo, i: int, r: u8)
    requires
        pat.wf(),
        0 <= i < info.num_pieces as int,
        info.pieces_or_permutations_offset + i < pat.bytes().len(),
        r == pat.bytes()[info.pieces_or_permutations_offset + i],
    ensures
        forall|o: int|
            0 <= o < pat.kpuzzle_spec().num_orbits() && #[trigger] pat.kpuzzle_spec().orbit(o)
                == info ==> r as int == pat.piece_at(o, i),
{
    assert forall|o: int|
        0 <= o < pat.kpuzzle_spec().num_orbits() && #[trigger] pat.kpuzzle_spec().orbit(o)
            == info implies r as int == pat.piece_at(o, i) by {
        pat.kpuzzle_spec().lemma_orbit_in_bounds(o);
        assert(pat.kpuzzle_spec().orbit(o).pieces_or_permutations_offset
            == info.pieces_or_permutations_offset);
        assert(pat.kpuzzle_spec().orbit(o).num_pieces == info.num_pieces);
        assert(perm_segment(pat.kpuzzle_spec(), pat.bytes(), o)[i] == pat.bytes()[info
            .pieces_or_permutations_offset + i]);
    }
}

} // verus!