use vstd::prelude::*;

use crate::alg::amount::Amount;
use crate::alg::quantum_move::QuantumMove;
use crate::alg::view::MoveView;
use crate::alg::view::invert_move_view;
use crate::alg::view::slash_family;

verus! {

/// A move: a quantum move identity together with an amount (`R2`, `F'`).
#[derive(Debug)]
pub struct Move {
    pub quantum: QuantumMove,
    pub amount: Amount,
}

impl View for Move {
    type V = MoveView;

    open spec fn view(&self) -> MoveView {
        MoveView { quantum: self.quantum@, amount: self.amount as int }
    }
}

impl Move {
    /// The inverse move: the same quantum at the negated amount, except
    /// for the Square-1 slash, which is its own inverse.
    pub fn invert(&self) -> (r: Move)
        requires
            self.amount > i32::MIN,
        ensures
            r@ == invert_move_view(self@),
    {
        let is_bare_slash = crate::alg::render::str_eq_str(self.quantum.family.as_str(), "_SLASH_")
            && self.quantum.prefix.is_none();
        if is_bare_slash {
            self.clone()
        } else {
            Self { quantum: self.quantum.clone(), amount: -self.amount }
        }
    }

    /// Renders the move back to its surface notation.
    pub fn to_string(&self) -> (r: String)
        ensures
            r@ == crate::alg::render::move_chars(self@),
    {
        crate::alg::render::move_to_string(self)
    }

    /// Whether two moves are the same value: same identity and same amount.
    pub fn matches(&self, other: &Move) -> (r: bool)
        ensures
            r == (self@ == other@),
    {
        self.quantum.matches(&other.quantum) && self.amount == other.amount
    }
}

impl Clone for Move {
    fn clone(&self) -> (r: Self)
        ensures
            r@ == self@,
    {
        Move { quantum: self.quantum.clone(), amount: self.amount }
    }
}

impl PartialEq for Move {
    fn eq(&self, other: &Move) -> (r: bool) {
        self.matches(other)
    }
}

impl vstd::std_specs::cmp::PartialEqSpecImpl for Move {
    open spec fn obeys_eq_spec() -> bool {
        true
    }

    open spec fn eq_spec(&self, other: &Move) -> bool {
        self@ == other@
    }
}

impl Eq for Move {

}

} // verus!
