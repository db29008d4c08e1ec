//! The closed set of error kinds that input handling can report.

use vstd::prelude::*;

verus! {

/// Every failure the system can report, as a tagged variant without payload.
/// The core itself only ever raises `OutOfRange`; the remaining kinds belong
/// to the input-reading collaborator, which shares this one taxonomy.
#[derive(Debug, Clone, Copy, PartialEq, Eq, Structural)]
pub enum InputError {
    /// A read from the input stream failed.
    Io,
    /// A numeric field lies outside its permitted bounds, or a collection is full.
    OutOfRange,
    /// An expected value is missing from a line.
    MissingValue,
    /// A value could not be interpreted as a number.
    InvalidValue,
    /// An expected line is missing from the input.
    MissingLine,
}

impl InputError {
    /// The human-readable text for this error kind.
    pub open spec fn spec_message(self) -> Seq<char> {
        match self {
            InputError::Io => "Error: \"IO\""@,
            InputError::OutOfRange => "Error: \"Fuera de rango\""@,
            InputError::MissingValue => "Error: \"Valor faltante\""@,
            InputError::InvalidValue => "Error: \"Numero invalido\""@,
            InputError::MissingLine => "Error: \"Linea faltante\""@,
        }
    }

    /// Renders the error kind as its fixed message text.
    pub fn message(&self) -> (r: &'static str)
        ensures
            r@ == self.spec_message(),
    {
        match self {
            InputError::Io => "Error: \"IO\"",
            InputError::OutOfRange => "Error: \"Fuera de rango\"",
            InputError::MissingValue => "Error: \"Valor faltante\"",
            InputError::InvalidValue => "Error: \"Numero invalido\"",
            InputError::MissingLine => "Error: \"Linea faltante\"",
        }
    }
}

} // verus!
