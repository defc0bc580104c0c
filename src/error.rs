//! Why a call was refused.
use vstd::prelude::*;

verus! {

/// A broken precondition of a call, detected before any cell is written.
#[derive(Clone, Copy, Debug, PartialEq, Eq, Structural)]
pub enum StepError {
    /// The side length is negative.
    NegativeDimension,
    /// The grid's bytes do not fit in the address space.
    GridTooLarge,
    /// A buffer address is null.
    NullBuffer,
    /// A buffer address is not aligned for a 32-bit cell.
    MisalignedBuffer,
    /// The input and output buffers are the same or overlap.
    AliasedBuffers,
    /// The output buffer holds fewer than `n * n` cells.
    OutputTooShort,
    /// The input buffer holds fewer than `n * n` cells.
    InputTooShort,
}

impl StepError {
    /// The nonzero status that a foreign caller receives for this error.
    pub open spec fn spec_code(self) -> i32 {
        match self {
            StepError::NegativeDimension => 1,
            StepError::GridTooLarge => 2,
            StepError::NullBuffer => 3,
            StepError::MisalignedBuffer => 4,
            StepError::AliasedBuffers => 5,
            StepError::OutputTooShort => 6,
            StepError::InputTooShort => 7,
        }
    }

    /// The nonzero status that a foreign caller receives for this error; success is 0.
    pub fn code(&self) -> (r: i32)
        ensures
            r == self.spec_code(),
            r != 0,
    {
        match self {
            StepError::NegativeDimension => 1,
            StepError::GridTooLarge => 2,
            StepError::NullBuffer => 3,
            StepError::MisalignedBuffer => 4,
            StepError::AliasedBuffers => 5,
            StepError::OutputTooShort => 6,
            StepError::InputTooShort => 7,
        }
    }
}

} // verus!
