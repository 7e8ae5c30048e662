//! Stable numeric identifiers handed out by the registry and the backend.

use vstd::prelude::*;

verus! {

/// Identifier of a registered native function.
#[derive(Clone, Copy, Debug, PartialEq, Eq, Structural, Hash)]
pub struct FunctionId(pub u32);

/// Identifier of a registered trait type.
#[derive(Clone, Copy, Debug, PartialEq, Eq, Structural, Hash)]
pub struct TraitTypeId(pub u32);

/// Identifier of a registered value type class.
#[derive(Clone, Copy, Debug, PartialEq, Eq, Structural, Hash)]
pub struct ValueTypeId(pub u32);

/// Identifier of a background maintenance job.
#[derive(Clone, Copy, Debug, PartialEq, Eq, Structural, Hash)]
pub struct BackendJobId(pub u32);

/// Address of one cell within a task: the value's type class plus an index
/// disambiguating several cells of the same type.
#[derive(Clone, Copy, Debug, PartialEq, Eq, Structural, Hash)]
pub struct CellId {
    pub type_id: ValueTypeId,
    pub index: u32,
}

} // verus!
