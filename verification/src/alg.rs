//! Move-sequence values: quantum moves, moves with amounts, and nested
//! sequence nodes (groupings, commutators, conjugates, pauses, comments).

mod alg_builder;
pub(crate) mod alg_node;
pub(crate) mod amount;
pub(crate) mod commutator;
pub(crate) mod conjugate;
pub(crate) mod grouping;
pub(crate) mod line_comment;
pub(crate) mod mv;
pub(crate) mod newline;
pub(crate) mod parse;
pub(crate) mod pause;
pub(crate) mod quantum_move;
pub(crate) mod render;
pub(crate) mod sequence;
pub(crate) mod special_notation;
pub(crate) mod view;

pub use alg_builder::AlgBuilder;
pub use alg_builder::AlgFragment;
pub use alg_node::AlgNode;
pub use amount::Amount;
pub use commutator::Commutator;
pub use conjugate::Conjugate;
pub use grouping::Grouping;
pub use line_comment::LineComment;
pub use mv::Move;
pub use newline::Newline;
pub use parse::AlgParseError;
pub use pause::Pause;
pub use quantum_move::MoveLayer;
pub use quantum_move::MovePrefix;
pub use quantum_move::MoveRange;
pub use quantum_move::QuantumMove;
pub use render::fmt_amount;
pub use sequence::Alg;
pub use view::AlgNodeView;
pub use view::MoveView;
pub use view::QuantumMoveView;
