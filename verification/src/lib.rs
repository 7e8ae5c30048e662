//! Core of an incremental task-graph execution engine: a memoizing task
//! store with fine-grained dependency tracking, cell-based value storage,
//! invalidation scheduling, and trait-method resolution over dynamically
//! typed values.

use vstd::prelude::*;

pub mod backend;
pub mod error;
pub mod ids;
pub mod introspect;
pub mod laws;
pub mod registry;
pub mod resolve;
pub mod task;
pub mod vc;

verus! {

/// Opaque identifier of a task instance. Issued monotonically by the
/// backend: a task id is an index into the backend's task table.
#[derive(Clone, Copy, Debug, PartialEq, Eq, Structural, Hash)]
pub struct TaskId(pub u64);

} // verus!
