use vstd::prelude::*;

verus! {

/// How many times a move or grouping is applied; negative means inverted.
pub type Amount = i32;

} // verus!
