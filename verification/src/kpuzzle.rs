//! Puzzle definitions, the packed byte representation of patterns and
//! transformations, and the algebra over them.

mod definition;
mod derived_moves_validator;
mod errors;
mod evaluator;
mod kpattern;
mod kpuzzle;
mod ktransformation;
pub mod laws;
mod lookup_move;
mod orientation_packer;
mod packed_orbit_data;

pub use definition::KPatternData;
pub use definition::KPatternOrbitData;
pub use definition::KPuzzleDefinition;
pub use definition::KPuzzleOrbitDefinition;
pub use definition::KPuzzleOrbitName;
pub use definition::KTransformationData;
pub use definition::KTransformationOrbitData;
pub use errors::ConversionError;
pub use errors::InvalidAlgError;
pub use errors::InvalidDefinitionError;
pub use errors::InvalidKPatternDataError;
pub use errors::InvalidKTransformationDataError;
pub use errors::InvalidMoveError;
pub use kpuzzle::KPuzzle;
pub use kpuzzle::KPuzzleData;
pub use kpuzzle::KPuzzleOrbitInfo;
pub use kpattern::KPattern;
pub use kpattern::KPatternBuffer;
pub use kpattern::is_pattern_application;
pub use ktransformation::KTransformation;
pub use ktransformation::KTransformationBuffer;
pub use ktransformation::is_composition;
pub use ktransformation::is_inverse_of;
pub use ktransformation::is_power;
pub use derived_moves_validator::DerivedMovesValidator;
pub use packed_orbit_data::PackedOrbitData;
pub use orientation_packer::OrientationPacker;
pub use orientation_packer::OrientationWithMod;
