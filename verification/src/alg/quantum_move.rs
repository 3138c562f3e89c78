use vstd::prelude::*;

use crate::alg::view::QuantumMoveView;

verus! {

/// A single layer prefix of a move (the `2` of `2R`).
#[derive(Debug, Clone, Copy, PartialEq, Eq, Structural, Hash)]
pub struct MoveLayer {
    pub layer: u32,
}

impl MoveLayer {
    pub fn new(layer: u32) -> (r: Self)
        ensures
            r.layer == layer,
    {
        Self { layer }
    }
}

impl From<u32> for MoveLayer {
    fn from(layer: u32) -> (r: Self) {
        MoveLayer { layer }
    }
}

impl vstd::std_specs::convert::FromSpecImpl<u32> for MoveLayer {
    open spec fn obeys_from_spec() -> bool {
        true
    }

    open spec fn from_spec(layer: u32) -> Self {
        MoveLayer { layer }
    }
}

/// A layer range prefix of a move (the `2-7` of `2-7R`).
#[derive(Debug, Clone, Copy, PartialEq, Eq, Structural, Hash)]
pub struct MoveRange {
    pub outer_layer: u32,
    pub inner_layer: u32,
}

impl MoveRange {
    pub fn new(outer_layer: u32, inner_layer: u32) -> (r: Self)
        ensures
            r.outer_layer == outer_layer,
            r.inner_layer == inner_layer,
    {
        Self { outer_layer, inner_layer }
    }
}

/// Either a single layer or a layer range, written before the move family.
#[derive(Debug, Clone, Copy, PartialEq, Eq, Structural, Hash)]
pub enum MovePrefix {
    Layer(MoveLayer),
    Range(MoveRange),
}

impl From<MoveLayer> for MovePrefix {
    fn from(layer: MoveLayer) -> (r: Self) {
        MovePrefix::Layer(layer)
    }
}

impl vstd::std_specs::convert::FromSpecImpl<MoveLayer> for MovePrefix {
    open spec fn obeys_from_spec() -> bool {
        true
    }

    open spec fn from_spec(layer: MoveLayer) -> Self {
        MovePrefix::Layer(layer)
    }
}

impl From<MoveRange> for MovePrefix {
    fn from(range: MoveRange) -> (r: Self) {
        MovePrefix::Range(range)
    }
}

impl vstd::std_specs::convert::FromSpecImpl<MoveRange> for MovePrefix {
    open spec fn obeys_from_spec() -> bool {
        true
    }

    open spec fn from_spec(range: MoveRange) -> Self {
        MovePrefix::Range(range)
    }
}

/// A move identity without an amount: a family name plus an optional
/// layer or range prefix (`R`, `2R`, `2-7R`).
#[derive(Debug)]
pub struct QuantumMove {
    pub family: String,
    pub prefix: Option<MovePrefix>,
}

impl View for QuantumMove {
    type V = QuantumMoveView;

    open spec fn view(&self) -> QuantumMoveView {
        QuantumMoveView { family: self.family@, prefix: self.prefix }
    }
}

impl QuantumMove {
    pub fn new(family: &str, layers: Option<MovePrefix>) -> (r: Self)
        ensures
            r@ == (QuantumMoveView { family: family@, prefix: layers }),
    {
        Self { family: family.to_owned(), prefix: layers }
    }

    /// Whether two quantum moves name the same move identity.
    pub fn matches(&self, other: &QuantumMove) -> (r: bool)
        ensures
            r == (self@ == other@),
    {
        let families_match = self.family == other.family;
        let prefixes_match = match (self.prefix, other.prefix) {
            (None, None) => true,
            (Some(a), Some(b)) => a == b,
            _ => false,
        };
        families_match && prefixes_match
    }
}

impl Clone for QuantumMove {
    fn clone(&self) -> (r: Self)
        ensures
            r@ == self@,
    {
        QuantumMove { family: self.family.clone(), prefix: self.prefix }
    }
}

impl PartialEq for QuantumMove {
    fn eq(&self, other: &QuantumMove) -> (r: bool) {
        self.matches(other)
    }
}

impl vstd::std_specs::cmp::PartialEqSpecImpl for QuantumMove {
    open spec fn obeys_eq_spec() -> bool {
        true
    }

    open spec fn eq_spec(&self, other: &QuantumMove) -> bool {
        self@ == other@
    }
}

impl Eq for QuantumMove {

}

} // verus!
