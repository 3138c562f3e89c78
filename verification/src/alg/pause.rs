use vstd::prelude::*;

verus! {

/// An explicit pause in an alg, written `.`.
#[derive(Debug, Default, Clone, Copy, PartialEq, Eq, Structural)]
pub struct Pause {

}

impl Pause {
    /// Renders as a dot.
    pub fn to_string(&self) -> (r: String)
        ensures
            r@ == seq!['.'],
    {
        let dot = ".";
        proof {
            reveal_strlit(".");
            assert(dot@ =~= seq!['.']);
        }
        dot.to_owned()
    }

    /// A pause is its own inverse.
    pub fn invert(&self) -> (r: Pause)
        ensures
            r == *self,
    {
        Pause {  }
    }
}

} // verus!
