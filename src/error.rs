//! Failures of parameter generation.
use vstd::prelude::*;

verus! {

#[derive(Clone, Copy, Debug, PartialEq, Eq)]
pub enum ParamError {
    /// The width is below two, or too large to index the round constants.
    InvalidWidth,
    /// The number of full rounds is odd or zero, or a round count is too large
    /// for the constant generator's seed.
    InvalidRounds,
    /// Fewer round constants than `width * (full_rounds + partial_rounds)`.
    NotEnoughRoundConstants,
    /// The constant generator ran out of attempts before finding a field element.
    ConstantsExhausted,
    /// A matrix that has to be inverted is singular.
    SingularMatrix,
    /// The sparse factors do not multiply back to the power of the MDS matrix.
    FactorizationMismatch,
}

} // verus!
