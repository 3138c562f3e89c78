use vstd::prelude::*;

use std::sync::Arc;

use crate::kpuzzle::definition::KPuzzleDefinition;
use crate::kpuzzle::definition::KPuzzleOrbitDefinition;
use crate::kpuzzle::definition::KPuzzleOrbitName;
use crate::kpuzzle::derived_moves_validator::derived_table_ok;
use crate::kpuzzle::errors::InvalidDefinitionError;
use crate::kpuzzle::orientation_packer::OrientationPacker;
use crate::kpuzzle::orientation_packer::packer_capacity;

verus! {

/// The maximum orientation count an orbit may declare, so that the packed
/// orientation encoding is bounded.
pub const MAX_NUM_ORIENTATIONS_INCLUSIVE: u8 = 107;

/// The layout of one orbit inside a puzzle's packed buffers: where its
/// permutation and orientation segments sit, its sizes, and its
/// orientation codec.
#[derive(Debug)]
pub struct KPuzzleOrbitInfo {
    pub name: KPuzzleOrbitName,
    pub pieces_or_permutations_offset: usize,
    pub orientations_offset: usize,
    pub num_pieces: u8,
    pub num_orientations: u8,
    pub orientation_packer: OrientationPacker,
}

/// The validated definition plus the derived per-orbit layout.
#[derive(Debug)]
pub struct KPuzzleData {
    pub definition: KPuzzleDefinition,
    pub num_bytes: usize,
    pub orbit_iteration_info: Vec<KPuzzleOrbitInfo>,
}

/// A built puzzle. Cloning shares the same data by reference count, so a
/// puzzle handle is cheap to hand to every pattern and transformation.
#[derive(Debug)]
pub struct KPuzzle {
    pub data: Arc<KPuzzleData>,
}

/// Relies on std's `Arc::clone`: the clone shares the same value, by
/// reference count.
#[verifier::external_body]
fn clone_shared_data(data: &Arc<KPuzzleData>) -> (r: Arc<KPuzzleData>)
    ensures
        r == *data,
{
    Arc::clone(data)
}

/// How many buffer bytes the first `o` orbits occupy: each contributes one
/// byte per piece for its permutation segment and one for its orientation
/// segment.
pub open spec fn prefix_bytes(infos: Seq<KPuzzleOrbitInfo>, o: int) -> int
    decreases o,
{
    if o <= 0 {
        0
    } else {
        prefix_bytes(infos, o - 1) + 2 * infos[o - 1].num_pieces as int
    }
}

/// Orbit `o`'s permutation segment of a buffer.
pub open spec fn perm_segment(p: KPuzzle, bytes: Seq<u8>, o: int) -> Seq<u8> {
    bytes.subrange(
        p.orbit(o).pieces_or_permutations_offset as int,
        p.orbit(o).pieces_or_permutations_offset + p.orbit(o).num_pieces as int,
    )
}

/// Orbit `o`'s orientation segment of a buffer.
pub open spec fn orient_segment(p: KPuzzle, bytes: Seq<u8>, o: int) -> Seq<u8> {
    bytes.subrange(
        p.orbit(o).orientations_offset as int,
        p.orbit(o).orientations_offset + p.orbit(o).num_pieces as int,
    )
}

/// How many buffer bytes the first `o` declared orbits ask for: two
/// bytes per piece each.
pub open spec fn def_layout_bytes(orbits: Seq<KPuzzleOrbitDefinition>, o: int) -> int
    decreases o,
{
    if o <= 0 {
        0
    } else {
        def_layout_bytes(orbits, o - 1) + 2 * orbits[o - 1].num_pieces as int
    }
}

pub proof fn def_layout_bytes_monotone(orbits: Seq<KPuzzleOrbitDefinition>, a: int, b: int)
    requires
        0 <= a <= b,
    ensures
        def_layout_bytes(orbits, a) <= def_layout_bytes(orbits, b),
    decreases b - a,
{
    if a < b {
        def_layout_bytes_monotone(orbits, a, b - 1);
    }
}

/// Whether a definition can be built into a puzzle: every orbit's
/// orientation count is between 1 and 107, the packed layout fits in
/// memory, the default pattern fits the orbits' shapes and codecs, and
/// the derived-move table is acyclic with every referenced move
/// resolvable.
pub open spec fn definition_ok(def: KPuzzleDefinition) -> bool {
    &&& forall|o: int|
        0 <= o < def.orbits@.len() ==> 1 <= (#[trigger] def.orbits@[o]).num_orientations <= 107
    &&& def_layout_bytes(def.orbits@, def.orbits@.len() as int) <= usize::MAX as int
    &&& crate::kpuzzle::kpattern::pattern_data_ok_def(def.orbits@, def.default_pattern.entries@)
    &&& derived_table_ok(def)
}

pub proof fn prefix_bytes_monotone(infos: Seq<KPuzzleOrbitInfo>, a: int, b: int)
    requires
        0 <= a <= b,
    ensures
        prefix_bytes(infos, a) <= prefix_bytes(infos, b),
    decreases b - a,
{
    if a < b {
        prefix_bytes_monotone(infos, a, b - 1);
    }
}

impl KPuzzle {
    /// The per-orbit layout table.
    pub open spec fn infos(self) -> Seq<KPuzzleOrbitInfo> {
        self.data.orbit_iteration_info@
    }

    pub open spec fn num_orbits(self) -> int {
        self.infos().len() as int
    }

    pub open spec fn orbit(self, o: int) -> KPuzzleOrbitInfo {
        self.infos()[o]
    }

    /// The total size of every packed buffer of this puzzle.
    pub open spec fn num_bytes_spec(self) -> int {
        self.data.num_bytes as int
    }

    /// Whether `info` is one of this puzzle's orbit-layout entries.
    pub open spec fn has_orbit_info(self, info: KPuzzleOrbitInfo) -> bool {
        exists|o: int| 0 <= o < self.num_orbits() && self.orbit(o) == info
    }

    /// Well-formedness of the layout: offsets tile the buffer in
    /// declaration order, each orbit's packer matches its orientation
    /// count, and the table mirrors the definition's orbit list.
    pub open spec fn wf(self) -> bool {
        &&& forall|o: int|
            0 <= o < self.num_orbits() ==> {
                let info = #[trigger] self.infos()[o];
                &&& info.pieces_or_permutations_offset as int == prefix_bytes(self.infos(), o)
                &&& info.orientations_offset as int == prefix_bytes(self.infos(), o)
                    + info.num_pieces as int
                &&& 1 <= info.num_orientations <= 107
                &&& info.orientation_packer.wf()
                &&& info.orientation_packer.num_orientations_spec()
                    == info.num_orientations as int
            }
        &&& self.num_bytes_spec() == prefix_bytes(self.infos(), self.num_orbits())
        &&& self.infos().len() == self.data.definition.orbits@.len()
        &&& forall|o: int|
            0 <= o < self.num_orbits() ==> {
                let info = #[trigger] self.infos()[o];
                &&& info.name@ == self.data.definition.orbits@[o].orbit_name@
                &&& info.num_pieces == self.data.definition.orbits@[o].num_pieces
                &&& info.num_orientations == self.data.definition.orbits@[o].num_orientations
            }
        &&& crate::kpuzzle::kpattern::pattern_data_ok(
            self.infos(),
            self.data.definition.default_pattern.entries@,
        )
    }

    /// Each orbit's two segments lie inside the buffer.
    pub proof fn lemma_orbit_in_bounds(self, o: int)
        requires
            self.wf(),
            0 <= o < self.num_orbits(),
        ensures
            self.orbit(o).pieces_or_permutations_offset as int + 2 * self.orbit(
                o,
            ).num_pieces as int <= self.num_bytes_spec(),
            self.orbit(o).orientations_offset as int + self.orbit(o).num_pieces as int
                <= self.num_bytes_spec(),
    {
        prefix_bytes_monotone(self.infos(), o + 1, self.num_orbits());
    }

    /// Appending one orbit's permutation and orientation segments to a
    /// buffer that ends where that orbit starts leaves every earlier
    /// orbit's segments in place and makes them the new orbit's segments.
    pub proof fn lemma_extend_orbit_segments(
        self,
        oi: int,
        done: Seq<u8>,
        perm_vals: Seq<u8>,
        ori_vals: Seq<u8>,
        full: Seq<u8>,
    )
        requires
            self.wf(),
            0 <= oi < self.num_orbits(),
            done.len() == prefix_bytes(self.infos(), oi),
            perm_vals.len() == self.orbit(oi).num_pieces as int,
            ori_vals.len() == self.orbit(oi).num_pieces as int,
            full == done + perm_vals + ori_vals,
        ensures
            full.len() == prefix_bytes(self.infos(), oi + 1),
            forall|o2: int|
                0 <= o2 < oi ==> #[trigger] perm_segment(self, full, o2) == perm_segment(
                    self,
                    done,
                    o2,
                ) && orient_segment(self, full, o2) == orient_segment(self, done, o2),
            perm_segment(self, full, oi) == perm_vals,
            orient_segment(self, full, oi) == ori_vals,
    {
        let np = self.orbit(oi).num_pieces as int;
        assert(full.len() == done.len() + 2 * np);
        assert forall|o2: int| 0 <= o2 < oi implies #[trigger] perm_segment(self, full, o2)
            == perm_segment(self, done, o2) && orient_segment(self, full, o2) == orient_segment(
            self,
            done,
            o2,
        ) by {
            prefix_bytes_monotone(self.infos(), o2 + 1, oi);
            assert(perm_segment(self, full, o2) =~= perm_segment(self, done, o2));
            assert(orient_segment(self, full, o2) =~= orient_segment(self, done, o2));
        }
        assert(perm_segment(self, full, oi) =~= perm_vals);
        assert(orient_segment(self, full, oi) =~= ori_vals);
    }

    /// The definition this puzzle was built from.
    pub fn definition(&self) -> (r: &KPuzzleDefinition)
        ensures
            r == &self.data.definition,
    {
        &self.data.definition
    }

    /// How many orbits the puzzle has.
    pub fn num_orbit_infos(&self) -> (r: usize)
        ensures
            r as int == self.num_orbits(),
    {
        self.data.orbit_iteration_info.len()
    }

    /// The layout entry of the orbit at an index.
    pub fn orbit_info_at(&self, o: usize) -> (r: &KPuzzleOrbitInfo)
        requires
            0 <= o < self.num_orbits(),
        ensures
            *r == self.orbit(o as int),
            self.has_orbit_info(*r),
    {
        &self.data.orbit_iteration_info[o]
    }

    /// The layout entry for an orbit name, if the puzzle has that orbit.
    pub fn lookup_orbit_info(&self, orbit_name: &KPuzzleOrbitName) -> (r: Option<
        &KPuzzleOrbitInfo,
    >)
        ensures
            r matches Some(info) ==> self.has_orbit_info(*info) && info.name@ == orbit_name@,
            r matches Some(info) ==> exists|o: int|
                {
                    &&& 0 <= o < self.num_orbits()
                    &&& #[trigger] self.orbit(o) == *info
                    &&& forall|o2: int|
                        0 <= o2 < o ==> (#[trigger] self.orbit(o2)).name@ != orbit_name@
                },
            r is None ==> forall|o: int|
                0 <= o < self.num_orbits() ==> (#[trigger] self.orbit(o)).name@ != orbit_name@,
    {
        let n = self.data.orbit_iteration_info.len();
        let mut k: usize = 0;
        while k < n
            invariant
                0 <= k <= n,
                n as int == self.num_orbits(),
                forall|o: int|
                    0 <= o < k as int ==> (#[trigger] self.orbit(o)).name@ != orbit_name@,
            decreases n - k,
        {
            if self.data.orbit_iteration_info[k].name.matches(orbit_name) {
                proof {
                    assert(self.orbit(k as int) == self.data.orbit_iteration_info@[k as int]);
                }
                return Some(&self.data.orbit_iteration_info[k]);
            }
            k = k + 1;
        }
        None
    }

    /// Builds a puzzle from a definition: validates it, rejects recursive
    /// derived-move definitions, and computes the fixed byte layout each
    /// orbit occupies. A failed construction is permanent.
    pub fn try_new(definition: KPuzzleDefinition) -> (r: Result<KPuzzle, InvalidDefinitionError>)
        ensures
            r is Err <==> !definition_ok(definition),
            r matches Ok(p) ==> {
                &&& p.wf()
                &&& p.data.definition.orbits@ == definition.orbits@
                &&& p.data.definition.name@ == definition.name@
                &&& p.data.definition.moves@ == definition.moves@
                &&& p.data.definition.default_pattern == definition.default_pattern
                &&& (p.data.definition.derived_moves matches Some(d) <==> definition.derived_moves
                    matches Some(e))
            },
    {
        match crate::kpuzzle::derived_moves_validator::check_derived_moves(&definition) {
            Ok(_) => {
            },
            Err(e) => {
                return Err(e);
            },
        }
        let num_orbits = definition.orbits.len();
        let mut bytes_offset: usize = 0;
        let mut orbit_iteration_info: Vec<KPuzzleOrbitInfo> = Vec::new();
        let ghost orbit_defs = definition.orbits@;
        let mut o: usize = 0;
        while o < num_orbits
            invariant
                0 <= o <= num_orbits,
                num_orbits == orbit_defs.len(),
                definition.orbits@ == orbit_defs,
                orbit_iteration_info@.len() == o as int,
                bytes_offset as int == prefix_bytes(orbit_iteration_info@, o as int),
                bytes_offset as int == def_layout_bytes(orbit_defs, o as int),
                forall|j: int|
                    0 <= j < o as int ==> {
                        let info = #[trigger] orbit_iteration_info@[j];
                        &&& info.pieces_or_permutations_offset as int == prefix_bytes(
                            orbit_iteration_info@,
                            j,
                        )
                        &&& info.orientations_offset as int == prefix_bytes(
                            orbit_iteration_info@,
                            j,
                        ) + info.num_pieces as int
                        &&& 1 <= info.num_orientations <= 107
                        &&& info.orientation_packer.wf()
                        &&& info.orientation_packer.num_orientations_spec()
                            == info.num_orientations as int
                        &&& info.orientation_packer.code_count() == packer_capacity(
                            info.num_orientations as int,
                        )
                        &&& info.name@ == orbit_defs[j].orbit_name@
                        &&& info.num_pieces == orbit_defs[j].num_pieces
                        &&& info.num_orientations == orbit_defs[j].num_orientations
                    },
            decreases num_orbits - o,
        {
            let orbit_definition = &definition.orbits[o];
            let num_orientations = orbit_definition.num_orientations;
            if num_orientations > MAX_NUM_ORIENTATIONS_INCLUSIVE {
                proof {
                    assert(!(1 <= definition.orbits@[o as int].num_orientations <= 107));
                    assert(!definition_ok(definition));
                }
                return Err(InvalidDefinitionError {
                    description: String::from_str(
                        "`num_orientations` for an orbit is too large. Maximum is 107 for the current build.",
                    ),
                });
            }
            if num_orientations == 0 {
                proof {
                    assert(!(1 <= definition.orbits@[o as int].num_orientations <= 107));
                    assert(!definition_ok(definition));
                }
                return Err(InvalidDefinitionError {
                    description: String::from_str(
                        "`num_orientations` for an orbit must be at least 1.",
                    ),
                });
            }
            let num_pieces = orbit_definition.num_pieces;
            let segment: usize = 2 * (num_pieces as usize);
            let next_offset = match bytes_offset.checked_add(segment) {
                Some(next_offset) => next_offset,
                None => {
                    proof {
                        assert(def_layout_bytes(orbit_defs, o + 1) == bytes_offset as int + 2
                            * orbit_defs[o as int].num_pieces as int);
                        def_layout_bytes_monotone(orbit_defs, o + 1, orbit_defs.len() as int);
                        assert(!definition_ok(definition));
                    }
                    return Err(InvalidDefinitionError {
                        description: String::from_str("Could not construct packed layout."),
                    });
                },
            };
            let info = KPuzzleOrbitInfo {
                name: orbit_definition.orbit_name.clone(),
                num_pieces,
                num_orientations,
                pieces_or_permutations_offset: bytes_offset,
                orientations_offset: bytes_offset + (num_pieces as usize),
                orientation_packer: OrientationPacker::new(num_orientations),
            };
            let ghost before = orbit_iteration_info@;
            orbit_iteration_info.push(info);
            proof {
                assert forall|k: int| 0 <= k <= o as int implies prefix_bytes(
                    orbit_iteration_info@,
                    k,
                ) == prefix_bytes(before, k) by {
                    prefix_bytes_unchanged(before, orbit_iteration_info@, k);
                }
            }
            bytes_offset = next_offset;
            o = o + 1;
        }
        proof {
            crate::kpuzzle::kpattern::lemma_pattern_data_ok_def(
                orbit_iteration_info@,
                orbit_defs,
                definition.default_pattern.entries@,
            );
        }
        if !crate::kpuzzle::kpattern::check_pattern_data(
            &orbit_iteration_info,
            &definition.default_pattern,
        ) {
            proof {
                assert(!crate::kpuzzle::kpattern::pattern_data_ok_def(
                    orbit_defs,
                    definition.default_pattern.entries@,
                ));
                assert(!definition_ok(definition));
            }
            return Err(InvalidDefinitionError {
                description: String::from_str(
                    "Invalid default pattern: it does not match the orbits' shapes.",
                ),
            });
        }
        proof {
            assert forall|j: int| 0 <= j < definition.orbits@.len() implies 1 <= (
            #[trigger] definition.orbits@[j]).num_orientations <= 107 by {
                assert(orbit_iteration_info@[j].num_orientations == orbit_defs[j].num_orientations);
            }
            assert(def_layout_bytes(definition.orbits@, definition.orbits@.len() as int)
                == bytes_offset as int);
            assert(definition_ok(definition));
        }
        let r = KPuzzle {
            data: Arc::new(
                KPuzzleData { definition, num_bytes: bytes_offset, orbit_iteration_info },
            ),
        };
        Ok(r)
    }
}

/// A prefix sum over the first `k` orbits only reads those entries, so
/// appending entries does not change it.
pub proof fn prefix_bytes_unchanged(a: Seq<KPuzzleOrbitInfo>, b: Seq<KPuzzleOrbitInfo>, k: int)
    requires
        0 <= k <= a.len(),
        a.len() <= b.len(),
        forall|i: int| 0 <= i < a.len() ==> a[i] == b[i],
    ensures
        prefix_bytes(a, k) == prefix_bytes(b, k),
    decreases k,
{
    if k > 0 {
        prefix_bytes_unchanged(a, b, k - 1);
    }
}

impl Clone for KPuzzle {
    /// A cheap clone: the same puzzle, shared by reference count.
    fn clone(&self) -> (r: Self)
        ensures
            r == *self,
    {
        KPuzzle { data: clone_shared_data(&self.data) }
    }
}


impl TryFrom<KPuzzleDefinition> for KPuzzle {
    type Error = InvalidDefinitionError;

    fn try_from(definition: KPuzzleDefinition) -> Result<Self, InvalidDefinitionError> {
        KPuzzle::try_new(definition)
    }
}

impl vstd::std_specs::convert::TryFromSpecImpl<KPuzzleDefinition> for KPuzzle {
    open spec fn obeys_try_from_spec() -> bool {
        false
    }

    open spec fn try_from_spec(definition: KPuzzleDefinition) -> Result<Self, InvalidDefinitionError> {
        arbitrary()
    }
}

} // verus!
