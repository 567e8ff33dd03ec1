//! A verified codec for the line-oriented scale (tuning) text format:
//! pitches given as cents offsets or exact frequency ratios, gathered
//! into a named scale.

pub mod cents;
pub mod digits;
pub mod errors;
pub mod laws;
pub mod pitch;
pub mod ratio;
pub mod scale;
pub mod scan;

pub use errors::{FloatError, IntError, ParsePitchError, ParseScaleError, SerdeScalaError};
pub use pitch::Pitch;
pub use scale::Scale;
