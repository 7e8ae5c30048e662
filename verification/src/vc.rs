//! The universal result handle `RawVc` and the type-erased value model:
//! shared payloads, cell contents, and the downcast views over them.

use vstd::prelude::*;

use crate::TaskId;
use crate::error::EngineError;
use crate::ids::{CellId, ValueTypeId};

verus! {

/// Handle naming either a task's single output slot or a specific cell
/// within a task.
#[derive(Clone, Copy, Debug, PartialEq, Eq, Structural, Hash)]
pub enum RawVc {
    TaskOutput(TaskId),
    TaskCell(TaskId, CellId),
}

impl RawVc {
    /// A handle is resolved once it points at a concrete cell.
    pub open spec fn spec_is_resolved(self) -> bool {
        self is TaskCell
    }

    /// Whether this handle already names a concrete cell.
    pub fn is_resolved(&self) -> (r: bool)
        ensures
            r == self.spec_is_resolved(),
    {
        match self {
            RawVc::TaskOutput(_) => false,
            RawVc::TaskCell(..) => true,
        }
    }
}

/// A type-erased, shareable payload: an optional runtime type tag plus the
/// plain data the engine's logic reads. Downcasts compare tags.
#[derive(Clone, Copy, Debug, PartialEq, Eq, Structural, Hash)]
pub struct SharedReference(pub Option<ValueTypeId>, pub i64);

impl SharedReference {
    /// The downcast succeeds exactly when the stored runtime type equals
    /// the requested one.
    pub fn downcast(&self, target: ValueTypeId) -> (r: Option<i64>)
        ensures
            r == (if self.0 == Some(target) {
                Some(self.1)
            } else {
                None::<i64>
            }),
    {
        match self.0 {
            Some(tag) if tag == target => Some(self.1),
            _ => None,
        }
    }
}

/// A typed view of a cell payload, produced by a successful downcast.
#[derive(Clone, Copy, Debug, PartialEq, Eq, Structural, Hash)]
pub struct ReadRef {
    pub type_id: ValueTypeId,
    pub value: i64,
}

/// A view of a cell payload known to carry a runtime type tag, suitable
/// for trait-method dispatch.
#[derive(Clone, Copy, Debug, PartialEq, Eq, Structural, Hash)]
pub struct TraitRef {
    pub reference: SharedReference,
}

impl TraitRef {
    /// A trait reference is only formed over a tagged payload.
    pub open spec fn wf(self) -> bool {
        self.reference.0 is Some
    }
}

/// The content of one cell: empty until its owning task first writes it.
#[derive(Clone, Copy, Debug, PartialEq, Eq, Structural, Hash)]
pub struct CellContent(pub Option<SharedReference>);

impl Default for CellContent {
    /// The default content is the empty cell.
    fn default() -> (r: Self)
        ensures
            r == CellContent(None::<SharedReference>),
    {
        CellContent(None)
    }
}

impl CellContent {
    /// Downcast to a typed view. Fails with `CellEmpty` when the cell was
    /// never written and with `TypeMismatch` when the stored runtime type
    /// differs from `target`.
    pub fn cast(self, target: ValueTypeId) -> (r: Result<ReadRef, EngineError>)
        ensures
            match r {
                Ok(rr) => self.0 matches Some(sr) && sr.0 == Some(target) && rr == (ReadRef {
                    type_id: target,
                    value: sr.1,
                }),
                Err(e) => match self.0 {
                    None => e is CellEmpty,
                    Some(sr) => sr.0 != Some(target) && e is TypeMismatch,
                },
            },
    {
        match self.0 {
            None => Err(EngineError::CellEmpty),
            Some(sr) => match sr.downcast(target) {
                Some(value) => Ok(ReadRef { type_id: target, value }),
                None => Err(EngineError::TypeMismatch),
            },
        }
    }

    /// Cast to a trait-dispatchable view. Fails with `CellEmpty` on an
    /// unwritten cell and with `Untyped` when the payload lacks a runtime
    /// type tag.
    pub fn cast_trait(self) -> (r: Result<TraitRef, EngineError>)
        ensures
            match r {
                Ok(tr) => self.0 matches Some(sr) && sr.0 is Some && tr == (TraitRef {
                    reference: sr,
                }) && tr.wf(),
                Err(e) => match self.0 {
                    None => e is CellEmpty,
                    Some(sr) => sr.0 is None && e is Untyped,
                },
            },
    {
        match self.0 {
            None => Err(EngineError::CellEmpty),
            Some(sr) => {
                if sr.0.is_none() {
                    Err(EngineError::Untyped)
                } else {
                    Ok(TraitRef { reference: sr })
                }
            },
        }
    }

    /// Downcast that reports failure as absence instead of an error.
    pub fn try_cast(self, target: ValueTypeId) -> (r: Option<ReadRef>)
        ensures
            r == (if self.0 matches Some(sr) && sr.0 == Some(target) {
                Some(ReadRef { type_id: target, value: self.0->Some_0.1 })
            } else {
                None::<ReadRef>
            }),
    {
        match self.0 {
            None => None,
            Some(sr) => match sr.downcast(target) {
                Some(value) => Some(ReadRef { type_id: target, value }),
                None => None,
            },
        }
    }
}

} // verus!
