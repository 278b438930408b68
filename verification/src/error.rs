//! The ways in which the engine refuses to go on.

use vstd::prelude::*;

verus! {

/// Why an operation of the engine failed.
#[derive(Clone, Copy, Debug, PartialEq, Eq, Structural)]
pub enum EngineError {
    /// Pieces that must agree in size do not: guidance fields of different
    /// dimensions, a pixel buffer of another size than the fields, a batch of
    /// individuals or scores of another length than was asked for.
    InputMismatch,
    /// No pixel has any importance, so a seed cannot be drawn by importance.
    DegenerateSampling,
    /// A colour distance that is no finite, non-negative number on the scale
    /// of perceptual differences.
    NumericInstability,
    /// The renderer, or whoever saves its output, has failed.
    RendererFailure,
    /// A parameter of the run is outside of what the engine can work with.
    InvalidConfiguration,
    /// The operation does not belong to the phase that the run is in.
    OutOfTurn,
}

} // verus!
