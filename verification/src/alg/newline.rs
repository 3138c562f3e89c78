use vstd::prelude::*;

verus! {

/// A line break kept as part of an alg, so that multi-line algs round-trip.
#[derive(Debug, Default, Clone, Copy, PartialEq, Eq, Structural)]
pub struct Newline {

}

impl Newline {
    /// Renders as a bare newline character.
    pub fn to_string(&self) -> (r: String)
        ensures
            r@ == seq!['\n'],
    {
        let newline = "\n";
        proof {
            reveal_strlit("\n");
            assert(newline@ =~= seq!['\n']);
        }
        newline.to_owned()
    }

    /// A newline is its own inverse.
    pub fn invert(&self) -> (r: Newline)
        ensures
            r == *self,
    {
        Newline {  }
    }
}

} // verus!
