//! Resolution: following output handles to concrete cells, resolving task
//! inputs, and trait-method dispatch over dynamically typed values.

use vstd::prelude::*;

use crate::TaskId;
use crate::backend::{MemoryBackend, OutputSlot};
use crate::error::EngineError;
use crate::ids::{FunctionId, TraitTypeId, ValueTypeId};
use crate::registry::Registry;
use crate::task::{PersistentTaskType, TaskInput};
use crate::vc::RawVc;

verus! {

/// The outcome of following a handle: a concrete cell, a task whose
/// output must be awaited first, or a failure.
#[derive(Clone, Debug)]
pub enum Resolution {
    Done(RawVc),
    Wait(TaskId),
    Fail(EngineError),
}

/// The outcome of resolving one task input.
#[derive(Clone, Debug)]
pub enum InputResolution {
    Resolved(TaskInput),
    Wait(TaskId),
    Fail(EngineError),
}

/// What running a task comes down to for the driver: invoke a registered
/// function, issue a cache-keyed native call, dispatch a resolved trait
/// method, wait for a task to publish, or fail.
#[derive(Clone, Debug)]
pub enum TaskStep {
    Invoke(FunctionId, Vec<TaskInput>),
    NativeCall(FunctionId, Vec<TaskInput>),
    DynamicCall(FunctionId, Vec<TaskInput>),
    Wait(TaskId),
    Fail(EngineError),
}

/// The decision trait-method resolution reaches over the resolved `self`
/// value.
#[derive(Clone, Copy, Debug)]
pub enum TraitResolution {
    /// The concrete type implements the method: dispatch to this function.
    Dispatch(FunctionId),
    /// Wait until the named task publishes, then decide again.
    Pending(TaskId),
    /// The cell holding the value was never written.
    NoValue,
    /// The value carries no runtime type tag (or is a plain literal).
    NoType,
    /// The value's type does not implement the trait.
    NoTrait(ValueTypeId),
    /// The trait is implemented but lacks this method.
    NoMethod(ValueTypeId),
}

impl MemoryBackend {
    /// Follow output handles for at most `fuel` hops until a concrete
    /// cell: the meaning of resolution against this backend state.
    pub open spec fn spec_resolve(self, vc: RawVc, fuel: nat) -> Resolution
        decreases fuel,
    {
        match vc {
            RawVc::TaskCell(..) => Resolution::Done(vc),
            RawVc::TaskOutput(t) => if fuel == 0 {
                Resolution::Fail(EngineError::CycleDetected)
            } else if self.spec_dirty(t) || self.spec_in_progress(t) {
                Resolution::Wait(t)
            } else {
                match self.spec_output(t) {
                    OutputSlot::NotComputed => Resolution::Wait(t),
                    OutputSlot::Done(v) => self.spec_resolve(v, (fuel - 1) as nat),
                    OutputSlot::Failed(m) => Resolution::Fail(
                        EngineError::TaskError { message: m },
                    ),
                    OutputSlot::Panicked(m) => Resolution::Fail(
                        EngineError::TaskPanicked { message: m },
                    ),
                }
            },
        }
    }

    /// The fuel that makes resolution exhaustive: one hop per task and
    /// one more ends any acyclic chain of output handles.
    pub open spec fn resolve_fuel(self) -> nat {
        self.tasks@.len() + 1
    }

    /// Follow output handles until a concrete cell is reached, the chain
    /// blocks on an unsettled task or a retained error, or it turns out
    /// cyclic.
    pub fn resolve(&self, vc: RawVc) -> (r: Resolution)
        requires
            self.tasks@.len() < usize::MAX,
        ensures
            r == self.spec_resolve(vc, self.resolve_fuel()),
    {
        let mut cur = vc;
        proof {
            assert(self.tasks.len() == self.tasks@.len());
        }
        let mut fuel: usize = self.tasks.len() + 1;
        loop
            invariant
                self.spec_resolve(cur, fuel as nat) == self.spec_resolve(vc, self.resolve_fuel()),
            decreases fuel,
        {
            match cur {
                RawVc::TaskCell(..) => {
                    return Resolution::Done(cur);
                },
                RawVc::TaskOutput(t) => {
                    if fuel == 0 {
                        return Resolution::Fail(EngineError::CycleDetected);
                    }
                    if t.0 >= self.tasks.len() as u64 {
                        return Resolution::Wait(t);
                    }
                    let ti = t.0 as usize;
                    proof {
                        assert(self.tasks.len() == self.tasks@.len());
                    }
                    if self.tasks[ti].dirty || self.tasks[ti].in_progress {
                        return Resolution::Wait(t);
                    }
                    match &self.tasks[ti].output {
                        OutputSlot::NotComputed => {
                            return Resolution::Wait(t);
                        },
                        OutputSlot::Done(v) => {
                            cur = *v;
                            fuel = fuel - 1;
                        },
                        OutputSlot::Failed(m) => {
                            return Resolution::Fail(EngineError::TaskError { message: m.clone() });
                        },
                        OutputSlot::Panicked(m) => {
                            return Resolution::Fail(
                                EngineError::TaskPanicked {
                                    message: match m {
                                        Some(x) => Some(x.clone()),
                                        None => None,
                                    },
                                },
                            );
                        },
                    }
                },
            }
        }
    }

    /// The meaning of resolving one task input: literals stay, references
    /// are followed to their cell.
    pub open spec fn spec_resolve_input(self, input: TaskInput, fuel: nat) -> InputResolution {
        match input {
            TaskInput::Literal(_) => InputResolution::Resolved(input),
            TaskInput::Reference(vc) => match self.spec_resolve(vc, fuel) {
                Resolution::Done(c) => InputResolution::Resolved(TaskInput::Reference(c)),
                Resolution::Wait(t) => InputResolution::Wait(t),
                Resolution::Fail(e) => InputResolution::Fail(e),
            },
        }
    }

    /// Resolve one task input against this backend state.
    pub fn resolve_input(&self, input: &TaskInput) -> (r: InputResolution)
        requires
            self.tasks@.len() < usize::MAX,
        ensures
            r == self.spec_resolve_input(*input, self.resolve_fuel()),
    {
        match input {
            TaskInput::Literal(v) => InputResolution::Resolved(TaskInput::Literal(*v)),
            TaskInput::Reference(vc) => match self.resolve(*vc) {
                Resolution::Done(c) => InputResolution::Resolved(TaskInput::Reference(c)),
                Resolution::Wait(t) => InputResolution::Wait(t),
                Resolution::Fail(e) => InputResolution::Fail(e),
            },
        }
    }

    /// The decision of trait-method resolution once the `self` input has
    /// resolved to `this`: read the value's runtime type from its cell,
    /// then look `(trait, method)` up in the dispatch table.
    pub open spec fn spec_trait_resolution(
        self,
        reg: Registry,
        trait_type: TraitTypeId,
        name: Seq<char>,
        this: TaskInput,
    ) -> TraitResolution {
        match this {
            TaskInput::Literal(_) => TraitResolution::NoType,
            TaskInput::Reference(vc) => match vc {
                RawVc::TaskOutput(t) => TraitResolution::Pending(t),
                RawVc::TaskCell(t, c) => match self.spec_cell(t, c) {
                    None => TraitResolution::Pending(t),
                    Some(content) => match content.0 {
                        None => TraitResolution::NoValue,
                        Some(sr) => match sr.0 {
                            None => TraitResolution::NoType,
                            Some(vt) => match reg.spec_trait_method(vt, trait_type, name) {
                                Some(f) => TraitResolution::Dispatch(f),
                                None => if reg.spec_has_trait(vt, trait_type) {
                                    TraitResolution::NoMethod(vt)
                                } else {
                                    TraitResolution::NoTrait(vt)
                                },
                            },
                        },
                    },
                },
            },
        }
    }
}

/// Resolution of a handle never stops anywhere but at a concrete cell.
proof fn lemma_resolve_done_is_cell(s: MemoryBackend, vc: RawVc, fuel: nat)
    requires
        s.spec_resolve(vc, fuel) is Done,
    ensures
        s.spec_resolve(vc, fuel)->Done_0 is TaskCell,
    decreases fuel,
{
    match vc {
        RawVc::TaskCell(..) => {},
        RawVc::TaskOutput(t) => {
            if fuel != 0 && !(s.spec_dirty(t) || s.spec_in_progress(t)) {
                match s.spec_output(t) {
                    OutputSlot::Done(v) => {
                        lemma_resolve_done_is_cell(s, v, (fuel - 1) as nat);
                    },
                    _ => {},
                }
            }
        },
    }
}

/// Resolution is idempotent: resolving what resolution produced gives
/// the same handle back, with any amount of fuel.
pub proof fn lemma_resolution_idempotent(s: MemoryBackend, vc: RawVc, fuel: nat, fuel2: nat)
    requires
        s.spec_resolve(vc, fuel) is Done,
    ensures
        s.spec_resolve(s.spec_resolve(vc, fuel)->Done_0, fuel2) == s.spec_resolve(vc, fuel),
{
    lemma_resolve_done_is_cell(s, vc, fuel);
}

impl PersistentTaskType {
    /// Resolve every input, then hand back the cache-keyed native call on
    /// the resolved inputs; the first input that blocks or fails decides
    /// the step instead.
    pub fn run_resolve_native(
        backend: &MemoryBackend,
        fn_id: FunctionId,
        inputs: Vec<TaskInput>,
    ) -> (r: TaskStep)
        requires
            backend.tasks@.len() < usize::MAX,
        ensures
            match r {
                TaskStep::NativeCall(f, resolved) => f == fn_id && resolved@.len() == inputs@.len()
                    && forall|j: int|
                    0 <= j < inputs@.len() ==> backend.spec_resolve_input(
                        inputs@[j],
                        backend.resolve_fuel(),
                    ) == InputResolution::Resolved(#[trigger] resolved@[j]),
                TaskStep::Wait(t) => exists|j: int|
                    0 <= j < inputs@.len() && backend.spec_resolve_input(
                        #[trigger] inputs@[j],
                        backend.resolve_fuel(),
                    ) == InputResolution::Wait(t) && (forall|k: int|
                        0 <= k < j ==> backend.spec_resolve_input(
                            #[trigger] inputs@[k],
                            backend.resolve_fuel(),
                        ) is Resolved),
                TaskStep::Fail(e) => exists|j: int|
                    0 <= j < inputs@.len() && backend.spec_resolve_input(
                        #[trigger] inputs@[j],
                        backend.resolve_fuel(),
                    ) == InputResolution::Fail(e) && (forall|k: int|
                        0 <= k < j ==> backend.spec_resolve_input(
                            #[trigger] inputs@[k],
                            backend.resolve_fuel(),
                        ) is Resolved),
                _ => false,
            },
    {
        let mut resolved: Vec<TaskInput> = Vec::new();
        let mut i: usize = 0;
        while i < inputs.len()
            invariant
                backend.tasks@.len() < usize::MAX,
                i <= inputs@.len(),
                resolved@.len() == i,
                forall|j: int|
                    0 <= j < i ==> backend.spec_resolve_input(inputs@[j], backend.resolve_fuel())
                        == InputResolution::Resolved(#[trigger] resolved@[j]),
                forall|k: int|
                    0 <= k < i ==> backend.spec_resolve_input(
                        #[trigger] inputs@[k],
                        backend.resolve_fuel(),
                    ) is Resolved,
            decreases inputs@.len() - i,
        {
            match backend.resolve_input(&inputs[i]) {
                InputResolution::Resolved(input) => {
                    resolved.push(input);
                },
                InputResolution::Wait(t) => {
                    proof {
                        assert(backend.spec_resolve_input(inputs@[i as int], backend.resolve_fuel())
                            == InputResolution::Wait(t));
                    }
                    return TaskStep::Wait(t);
                },
                InputResolution::Fail(e) => {
                    return TaskStep::Fail(e);
                },
            }
            i += 1;
        }
        TaskStep::NativeCall(fn_id, resolved)
    }

    /// Resolve the first (`self`) input, look the trait method up on its
    /// concrete runtime type, and dispatch to it with the remaining
    /// inputs unresolved. A miss reports whether the type lacks the whole
    /// trait (naming the traits it does implement) or just this method.
    pub fn run_resolve_trait(
        backend: &MemoryBackend,
        reg: &Registry,
        trait_type: TraitTypeId,
        name: String,
        inputs: Vec<TaskInput>,
    ) -> (r: TaskStep)
        requires
            backend.tasks@.len() < usize::MAX,
            inputs@.len() > 0,
        ensures
            match backend.spec_resolve_input(inputs@[0], backend.resolve_fuel()) {
                InputResolution::Wait(t) => r == TaskStep::Wait(t),
                InputResolution::Fail(e) => r == TaskStep::Fail(e),
                InputResolution::Resolved(this) => match backend.spec_trait_resolution(
                    *reg,
                    trait_type,
                    name@,
                    this,
                ) {
                    TraitResolution::Dispatch(f) => r matches TaskStep::DynamicCall(g, args) && g
                        == f && args@ == inputs@.update(0, this),
                    TraitResolution::Pending(t) => r == TaskStep::Wait(t),
                    TraitResolution::NoValue => r matches TaskStep::Fail(e) && e is CellEmpty,
                    TraitResolution::NoType => r matches TaskStep::Fail(e) && e is Untyped,
                    TraitResolution::NoMethod(_) => r matches TaskStep::Fail(e) && (e matches
                        EngineError::MethodMissing { trait_type: tt, method } && tt == trait_type
                        && method@ == name@),
                    TraitResolution::NoTrait(vt) => r matches TaskStep::Fail(e) && (e matches
                        EngineError::TraitNotImplemented { trait_type: tt, implemented } && tt
                        == trait_type && implemented@ == (if reg.valid_value_type(vt) {
                        reg.value_types@[vt.0 as int].traits@
                    } else {
                        Seq::<TraitTypeId>::empty()
                    })),
                },
            },
    {
        let this = match backend.resolve_input(&inputs[0]) {
            InputResolution::Resolved(t) => t,
            InputResolution::Wait(t) => {
                return TaskStep::Wait(t);
            },
            InputResolution::Fail(e) => {
                return TaskStep::Fail(e);
            },
        };
        let (cell_task, cell_id) = match this {
            TaskInput::Literal(_) => {
                return TaskStep::Fail(EngineError::Untyped);
            },
            TaskInput::Reference(RawVc::TaskOutput(t)) => {
                return TaskStep::Wait(t);
            },
            TaskInput::Reference(RawVc::TaskCell(t, c)) => (t, c),
        };
        if cell_task.0 >= self_len_u64(backend) {
            return TaskStep::Wait(cell_task);
        }
        let content = match backend.try_read_task_cell_untracked(cell_task, cell_id) {
            Ok(content) => content,
            Err(listener) => {
                return TaskStep::Wait(listener.task);
            },
        };
        let sr = match content.0 {
            None => {
                return TaskStep::Fail(EngineError::CellEmpty);
            },
            Some(sr) => sr,
        };
        let vt = match sr.0 {
            None => {
                return TaskStep::Fail(EngineError::Untyped);
            },
            Some(vt) => vt,
        };
        match reg.get_trait_method(vt, trait_type, &name) {
            Some(f) => {
                let mut args: Vec<TaskInput> = Vec::new();
                args.push(this);
                let mut i: usize = 1;
                while i < inputs.len()
                    invariant
                        1 <= i <= inputs@.len(),
                        inputs@.len() > 0,
                        args@.len() == i,
                        args@[0] == this,
                        forall|j: int| 1 <= j < i ==> args@[j] == inputs@[j],
                    decreases inputs@.len() - i,
                {
                    args.push(inputs[i]);
                    i += 1;
                }
                proof {
                    assert(args@ =~= inputs@.update(0, this));
                }
                TaskStep::DynamicCall(f, args)
            },
            None => {
                if (vt.0 as usize) < reg.value_types.len() {
                    if reg.has_trait(vt, trait_type) {
                        TaskStep::Fail(
                            EngineError::MethodMissing { trait_type, method: name },
                        )
                    } else {
                        TaskStep::Fail(
                            EngineError::TraitNotImplemented {
                                trait_type,
                                implemented: reg.traits_of(vt),
                            },
                        )
                    }
                } else {
                    TaskStep::Fail(
                        EngineError::TraitNotImplemented { trait_type, implemented: Vec::new() },
                    )
                }
            },
        }
    }

    /// What executing this persistent task comes down to: a native task
    /// invokes its registered function directly; the resolve variants
    /// resolve inputs first and hand back the call to issue.
    pub fn run(self, backend: &MemoryBackend, reg: &Registry) -> (r: TaskStep)
        requires
            backend.tasks@.len() < usize::MAX,
            self matches PersistentTaskType::ResolveTrait(_, _, v) ==> v@.len() > 0,
        ensures
            match self {
                PersistentTaskType::Native(f, v) => r matches TaskStep::Invoke(g, args) && g == f
                    && args@ == v@,
                PersistentTaskType::ResolveNative(f, v) => match r {
                    TaskStep::NativeCall(g, resolved) => g == f && resolved@.len() == v@.len()
                        && forall|j: int|
                        0 <= j < v@.len() ==> backend.spec_resolve_input(
                            v@[j],
                            backend.resolve_fuel(),
                        ) == InputResolution::Resolved(#[trigger] resolved@[j]),
                    TaskStep::Wait(t) => exists|j: int|
                        0 <= j < v@.len() && backend.spec_resolve_input(
                            #[trigger] v@[j],
                            backend.resolve_fuel(),
                        ) == InputResolution::Wait(t),
                    TaskStep::Fail(e) => exists|j: int|
                        0 <= j < v@.len() && backend.spec_resolve_input(
                            #[trigger] v@[j],
                            backend.resolve_fuel(),
                        ) == InputResolution::Fail(e),
                    _ => false,
                },
                PersistentTaskType::ResolveTrait(tt, name, v) => match backend.spec_resolve_input(
                    v@[0],
                    backend.resolve_fuel(),
                ) {
                    InputResolution::Wait(t) => r == TaskStep::Wait(t),
                    InputResolution::Fail(e) => r == TaskStep::Fail(e),
                    InputResolution::Resolved(this) => match backend.spec_trait_resolution(
                        *reg,
                        tt,
                        name@,
                        this,
                    ) {
                        TraitResolution::Dispatch(f) => r matches TaskStep::DynamicCall(g, args)
                            && g == f && args@ == v@.update(0, this),
                        TraitResolution::Pending(t) => r == TaskStep::Wait(t),
                        TraitResolution::NoValue => r matches TaskStep::Fail(e) && e is CellEmpty,
                        TraitResolution::NoType => r matches TaskStep::Fail(e) && e is Untyped,
                        TraitResolution::NoMethod(_) => r matches TaskStep::Fail(e) && (e matches
                            EngineError::MethodMissing { trait_type, method } && trait_type == tt
                            && method@ == name@),
                        TraitResolution::NoTrait(vt) => r matches TaskStep::Fail(e) && (e matches
                            EngineError::TraitNotImplemented { trait_type, implemented }
                            && trait_type == tt && implemented@ == (if reg.valid_value_type(vt) {
                            reg.value_types@[vt.0 as int].traits@
                        } else {
                            Seq::<TraitTypeId>::empty()
                        })),
                    },
                },
            },
    {
        match self {
            PersistentTaskType::Native(f, v) => TaskStep::Invoke(f, v),
            PersistentTaskType::ResolveNative(f, v) => Self::run_resolve_native(backend, f, v),
            PersistentTaskType::ResolveTrait(tt, name, v) => Self::run_resolve_trait(
                backend,
                reg,
                tt,
                name,
                v,
            ),
        }
    }
}

/// The backend's task count, as the id type.
fn self_len_u64(backend: &MemoryBackend) -> (r: u64)
    ensures
        r == backend.tasks@.len(),
{
    proof {
        assert(backend.tasks.len() == backend.tasks@.len());
    }
    backend.tasks.len() as u64
}

} // verus!
