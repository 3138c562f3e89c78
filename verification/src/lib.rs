//! Core engine for twisty-puzzle simulation: move-sequence values (algs),
//! puzzle definitions, packed patterns and transformations, and the algebra
//! that composes, inverts and evaluates them.

pub mod alg;
pub mod kpuzzle;
