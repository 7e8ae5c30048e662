//! Error kinds surfaced by the engine core.

use vstd::prelude::*;

use crate::ids::TraitTypeId;

verus! {

/// Every failure the core can hand to a reader or a task driver.
///
/// Read errors are returned to the reader verbatim and never invalidate
/// the producer. Domain errors (`TaskError`) are cached like successful
/// outputs; `TaskPanicked` is a terminal state cleared only by a fresh
/// invalidation.
#[derive(Clone, Debug)]
pub enum EngineError {
    /// Read of a cell that has never been written.
    CellEmpty,
    /// Downcast of a cell payload to a different value type.
    TypeMismatch,
    /// Trait cast over a payload that carries no runtime type tag.
    Untyped,
    /// Trait-method resolution on a value whose type lacks the trait;
    /// carries the traits the value's type does implement.
    TraitNotImplemented { trait_type: TraitTypeId, implemented: Vec<TraitTypeId> },
    /// The value's type implements the trait, but not this method.
    MethodMissing { trait_type: TraitTypeId, method: String },
    /// The task body aborted non-recoverably.
    TaskPanicked { message: Option<String> },
    /// The task completed with a domain error.
    TaskError { message: String },
    /// A resolve loop over output handles.
    CycleDetected,
}

} // verus!
