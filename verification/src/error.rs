//! The ways in which a repeat-by can fail.
use vstd::prelude::*;

verus! {

/// Why no list column was built.
#[derive(Clone, Copy, Debug, PartialEq, Eq, Structural)]
pub enum RepeatByError {
    /// The count column is neither as long as the value column nor of length one.
    LengthMismatch,
    /// A buffer of the result would have to be longer than a buffer can be.
    CapacityOverflow,
}

impl RepeatByError {
    /// A sentence that names the failure.
    pub fn message(&self) -> (text: &'static str)
        ensures
            text@ == (match *self {
                RepeatByError::LengthMismatch => "repeat counts must have one entry, or as many as there are values"@,
                RepeatByError::CapacityOverflow => "the repeated values do not fit in one list buffer"@,
            }),
    {
        match self {
            RepeatByError::LengthMismatch => "repeat counts must have one entry, or as many as there are values",
            RepeatByError::CapacityOverflow => "the repeated values do not fit in one list buffer",
        }
    }
}

} // verus!
