use vstd::prelude::*;

use crate::alg::quantum_move::QuantumMove;
use crate::alg::render::str_eq_str;
use crate::alg::view::d_sq_view;
use crate::alg::view::u_sq_view;

verus! {

/// The quantum of the top move of a Square-1 tuple, `U_SQ_`.
pub fn u_sq_quantum() -> (r: QuantumMove)
    ensures
        r@ == u_sq_view(),
{
    QuantumMove::new("U_SQ_", None)
}

/// The quantum of the bottom move of a Square-1 tuple, `D_SQ_`.
pub fn d_sq_quantum() -> (r: QuantumMove)
    ensures
        r@ == d_sq_view(),
{
    QuantumMove::new("D_SQ_", None)
}

/// Whether this quantum is the Square-1 top move `U_SQ_`.
pub fn is_square1_top(q: &QuantumMove) -> (r: bool)
    ensures
        r == (q@ == u_sq_view()),
{
    str_eq_str(q.family.as_str(), "U_SQ_") && q.prefix.is_none()
}

/// Whether this quantum is the Square-1 bottom move `D_SQ_`.
pub fn is_square1_bottom(q: &QuantumMove) -> (r: bool)
    ensures
        r == (q@ == d_sq_view()),
{
    str_eq_str(q.family.as_str(), "D_SQ_") && q.prefix.is_none()
}

} // verus!
