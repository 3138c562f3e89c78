use vstd::prelude::*;

use crate::alg::Alg;
use crate::alg::Move;
use crate::alg::MoveView;

verus! {

/// The name of an orbit in a puzzle definition.
#[derive(Debug)]
pub struct KPuzzleOrbitName(pub String);

impl View for KPuzzleOrbitName {
    type V = Seq<char>;

    open spec fn view(&self) -> Seq<char> {
        self.0@
    }
}

impl KPuzzleOrbitName {
    /// Whether two orbit names are the same name.
    pub fn matches(&self, other: &KPuzzleOrbitName) -> (r: bool)
        ensures
            r == (self@ == other@),
    {
        self.0 == other.0
    }
}

impl Clone for KPuzzleOrbitName {
    fn clone(&self) -> (r: Self)
        ensures
            r@ == self@,
    {
        KPuzzleOrbitName(self.0.clone())
    }
}

impl PartialEq for KPuzzleOrbitName {
    fn eq(&self, other: &KPuzzleOrbitName) -> (r: bool) {
        self.matches(other)
    }
}

impl vstd::std_specs::cmp::PartialEqSpecImpl for KPuzzleOrbitName {
    open spec fn obeys_eq_spec() -> bool {
        true
    }

    open spec fn eq_spec(&self, other: &KPuzzleOrbitName) -> bool {
        self@ == other@
    }
}

impl Eq for KPuzzleOrbitName {

}

impl<'a> From<&'a str> for KPuzzleOrbitName {
    fn from(value: &'a str) -> (r: Self) {
        KPuzzleOrbitName(value.to_owned())
    }
}

impl<'a> vstd::std_specs::convert::FromSpecImpl<&'a str> for KPuzzleOrbitName {
    open spec fn obeys_from_spec() -> bool {
        false
    }

    open spec fn from_spec(value: &'a str) -> Self {
        KPuzzleOrbitName(arbitrary())
    }
}

/// One orbit of a puzzle definition: how many pieces it holds, and how many
/// orientations each piece can take.
#[derive(Debug)]
pub struct KPuzzleOrbitDefinition {
    pub orbit_name: KPuzzleOrbitName,
    pub num_pieces: u8,
    pub num_orientations: u8,
}

impl Clone for KPuzzleOrbitDefinition {
    fn clone(&self) -> (r: Self)
        ensures
            r.orbit_name@ == self.orbit_name@,
            r.num_pieces == self.num_pieces,
            r.num_orientations == self.num_orientations,
    {
        KPuzzleOrbitDefinition {
            orbit_name: self.orbit_name.clone(),
            num_pieces: self.num_pieces,
            num_orientations: self.num_orientations,
        }
    }
}

/// The externally supplied state of one orbit in a pattern: the piece in
/// each slot, each slot's orientation, and optionally each slot's
/// orientation modulus (0, or absent, meaning the orbit's full count).
#[derive(Debug, PartialEq)]
pub struct KPatternOrbitData {
    pub pieces: Vec<u8>,
    pub orientation: Vec<u8>,
    pub orientation_mod: Option<Vec<u8>>,
}

impl Clone for KPatternOrbitData {
    fn clone(&self) -> (r: Self)
        ensures
            r.pieces@ == self.pieces@,
            r.orientation@ == self.orientation@,
            r.orientation_mod is Some <==> self.orientation_mod is Some,
            r.orientation_mod matches Some(m) ==> self.orientation_mod matches Some(n) && m@ == n@,
    {
        KPatternOrbitData {
            pieces: self.pieces.clone(),
            orientation: self.orientation.clone(),
            orientation_mod: match &self.orientation_mod {
                Some(m) => Some(m.clone()),
                None => None,
            },
        }
    }
}

/// The externally supplied data of a whole pattern: one entry per orbit
/// name. Later entries for the same name shadow earlier ones, as in a map.
#[derive(Debug, PartialEq)]
pub struct KPatternData {
    pub entries: Vec<(KPuzzleOrbitName, KPatternOrbitData)>,
}

/// The value the data associates with a name: the last entry for it.
pub open spec fn pattern_data_lookup(
    entries: Seq<(KPuzzleOrbitName, KPatternOrbitData)>,
    name: Seq<char>,
) -> Option<KPatternOrbitData>
    decreases entries,
{
    if entries.len() == 0 {
        None
    } else if entries.last().0@ == name {
        Some(entries.last().1)
    } else {
        pattern_data_lookup(entries.drop_last(), name)
    }
}

impl KPatternData {
    /// An empty pattern-data table.
    pub fn new() -> (r: Self)
        ensures
            r.entries@.len() == 0,
    {
        KPatternData { entries: Vec::new() }
    }

    /// Adds an entry for a name, shadowing any earlier entry for it.
    pub fn insert(&mut self, name: KPuzzleOrbitName, data: KPatternOrbitData)
        ensures
            final(self).entries@ == old(self).entries@.push((name, data)),
    {
        self.entries.push((name, data));
    }

    /// The entry for a name, if there is one.
    pub fn get(&self, name: &KPuzzleOrbitName) -> (r: Option<&KPatternOrbitData>)
        ensures
            r matches Some(d) ==> pattern_data_lookup(self.entries@, name@) == Some(*d),
            r is None ==> pattern_data_lookup(self.entries@, name@) is None,
    {
        let n = self.entries.len();
        proof {
            assert(self.entries@.subrange(0, n as int) =~= self.entries@);
        }
        let mut k: usize = 0;
        while k < n
            invariant
                0 <= k <= n,
                n == self.entries@.len(),
                pattern_data_lookup(self.entries@, name@) == pattern_data_lookup(
                    self.entries@.subrange(0, n - k),
                    name@,
                ),
            decreases n - k,
        {
            let i = n - 1 - k;
            proof {
                assert(self.entries@.subrange(0, n - k).last() == self.entries@[i as int]);
                assert(self.entries@.subrange(0, n - k).drop_last() =~= self.entries@.subrange(
                    0,
                    i as int,
                ));
            }
            if self.entries[i].0.matches(name) {
                return Some(&self.entries[i].1);
            }
            k = k + 1;
        }
        proof {
            assert(self.entries@.subrange(0, 0) =~= Seq::<
                (KPuzzleOrbitName, KPatternOrbitData),
            >::empty());
        }
        None
    }
}

impl Clone for KPatternData {
    fn clone(&self) -> (r: Self)
        ensures
            r.entries@.len() == self.entries@.len(),
    {
        let n = self.entries.len();
        let mut entries: Vec<(KPuzzleOrbitName, KPatternOrbitData)> = Vec::new();
        for k in 0..n
            invariant
                n == self.entries@.len(),
                entries@.len() == k,
        {
            let pair = (self.entries[k].0.clone(), self.entries[k].1.clone());
            entries.push(pair);
        }
        KPatternData { entries }
    }
}

/// The externally supplied effect of a transformation on one orbit: where
/// each slot takes its piece from, and the orientation change it applies.
#[derive(Debug, PartialEq)]
pub struct KTransformationOrbitData {
    pub permutation: Vec<u8>,
    pub orientation_delta: Vec<u8>,
}

impl Clone for KTransformationOrbitData {
    fn clone(&self) -> (r: Self)
        ensures
            r.permutation@ == self.permutation@,
            r.orientation_delta@ == self.orientation_delta@,
    {
        KTransformationOrbitData {
            permutation: self.permutation.clone(),
            orientation_delta: self.orientation_delta.clone(),
        }
    }
}

/// The externally supplied data of a whole transformation: one entry per
/// orbit name. Later entries for the same name shadow earlier ones.
#[derive(Debug, PartialEq)]
pub struct KTransformationData {
    pub entries: Vec<(KPuzzleOrbitName, KTransformationOrbitData)>,
}

/// The value the data associates with a name: the last entry for it.
pub open spec fn transformation_data_lookup(
    entries: Seq<(KPuzzleOrbitName, KTransformationOrbitData)>,
    name: Seq<char>,
) -> Option<KTransformationOrbitData>
    decreases entries,
{
    if entries.len() == 0 {
        None
    } else if entries.last().0@ == name {
        Some(entries.last().1)
    } else {
        transformation_data_lookup(entries.drop_last(), name)
    }
}

impl KTransformationData {
    /// An empty transformation-data table.
    pub fn new() -> (r: Self)
        ensures
            r.entries@.len() == 0,
    {
        KTransformationData { entries: Vec::new() }
    }

    /// Adds an entry for a name, shadowing any earlier entry for it.
    pub fn insert(&mut self, name: KPuzzleOrbitName, data: KTransformationOrbitData)
        ensures
            final(self).entries@ == old(self).entries@.push((name, data)),
    {
        self.entries.push((name, data));
    }

    /// The entry for a name, if there is one.
    pub fn get(&self, name: &KPuzzleOrbitName) -> (r: Option<&KTransformationOrbitData>)
        ensures
            r matches Some(d) ==> transformation_data_lookup(self.entries@, name@) == Some(*d),
            r is None ==> transformation_data_lookup(self.entries@, name@) is None,
    {
        let n = self.entries.len();
        proof {
            assert(self.entries@.subrange(0, n as int) =~= self.entries@);
        }
        let mut k: usize = 0;
        while k < n
            invariant
                0 <= k <= n,
                n == self.entries@.len(),
                transformation_data_lookup(self.entries@, name@) == transformation_data_lookup(
                    self.entries@.subrange(0, n - k),
                    name@,
                ),
            decreases n - k,
        {
            let i = n - 1 - k;
            proof {
                assert(self.entries@.subrange(0, n - k).last() == self.entries@[i as int]);
                assert(self.entries@.subrange(0, n - k).drop_last() =~= self.entries@.subrange(
                    0,
                    i as int,
                ));
            }
            if self.entries[i].0.matches(name) {
                return Some(&self.entries[i].1);
            }
            k = k + 1;
        }
        proof {
            assert(self.entries@.subrange(0, 0) =~= Seq::<
                (KPuzzleOrbitName, KTransformationOrbitData),
            >::empty());
        }
        None
    }
}

impl Clone for KTransformationData {
    fn clone(&self) -> (r: Self)
        ensures
            r.entries@.len() == self.entries@.len(),
    {
        let n = self.entries.len();
        let mut entries: Vec<(KPuzzleOrbitName, KTransformationOrbitData)> = Vec::new();
        for k in 0..n
            invariant
                n == self.entries@.len(),
                entries@.len() == k,
        {
            let pair = (self.entries[k].0.clone(), self.entries[k].1.clone());
            entries.push(pair);
        }
        KTransformationData { entries }
    }
}

/// A declarative puzzle definition: named orbits, a default pattern, the
/// primitive moves' raw effects, and optionally derived moves defined as
/// algs over other moves.
#[derive(Debug)]
pub struct KPuzzleDefinition {
    pub name: String,
    pub orbits: Vec<KPuzzleOrbitDefinition>,
    pub default_pattern: KPatternData,
    pub moves: Vec<(Move, KTransformationData)>,
    pub derived_moves: Option<Vec<(Move, Alg)>>,
}

/// The index of the entry a move table associates with a move value, by
/// exact identity and amount: the first entry that matches.
pub open spec fn move_table_lookup(
    entries: Seq<(Move, KTransformationData)>,
    key: MoveView,
) -> Option<int>
    decreases entries,
{
    if entries.len() == 0 {
        None
    } else if entries.first().0@ == key {
        Some(0)
    } else {
        match move_table_lookup(entries.drop_first(), key) {
            Some(i) => Some(i + 1),
            None => None,
        }
    }
}

/// The alg a derived-move table associates with a move value, and its
/// index: the first entry that matches.
pub open spec fn derived_table_lookup(entries: Seq<(Move, Alg)>, key: MoveView) -> Option<int>
    decreases entries,
{
    if entries.len() == 0 {
        None
    } else if entries.first().0@ == key {
        Some(0)
    } else {
        match derived_table_lookup(entries.drop_first(), key) {
            Some(i) => Some(i + 1),
            None => None,
        }
    }
}

} // verus!
