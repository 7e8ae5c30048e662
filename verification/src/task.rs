//! The task taxonomy: persistent, cache-keyed computations and transient,
//! session-bound ones.

use vstd::prelude::*;

use crate::TaskId;
use crate::ids::{FunctionId, TraitTypeId};
use crate::vc::RawVc;

verus! {

/// One argument of a task: either a plain value or a reference into the
/// task graph that resolution follows to a concrete cell.
#[derive(Clone, Copy, Debug, PartialEq, Eq, Structural, Hash)]
pub enum TaskInput {
    Literal(i64),
    Reference(RawVc),
}

/// The cache key and recipe of a persistent task. Equal keys must map to
/// the same task id.
#[derive(Clone, Debug, Hash)]
pub enum PersistentTaskType {
    /// Directly invoke a registered function on already-resolved inputs.
    Native(FunctionId, Vec<TaskInput>),
    /// First resolve each input, then look up the equivalent `Native` task.
    ResolveNative(FunctionId, Vec<TaskInput>),
    /// Resolve the first (`self`) input, look the method up on its concrete
    /// type, then dispatch to that method.
    ResolveTrait(TraitTypeId, String, Vec<TaskInput>),
}

/// Deep equality of two persistent task keys: same variant, same ids and
/// method name, same input sequence.
pub open spec fn type_key_eq(a: PersistentTaskType, b: PersistentTaskType) -> bool {
    match a {
        PersistentTaskType::Native(fa, va) => b matches PersistentTaskType::Native(fb, vb) && fa
            == fb && va@ == vb@,
        PersistentTaskType::ResolveNative(fa, va) => b matches PersistentTaskType::ResolveNative(
            fb,
            vb,
        ) && fa == fb && va@ == vb@,
        PersistentTaskType::ResolveTrait(ta, na, va) => b matches PersistentTaskType::ResolveTrait(
            tb,
            nb,
            vb,
        ) && ta == tb && na@ == nb@ && va@ == vb@,
    }
}

/// Element-wise equality of two input vectors.
pub fn inputs_eq(a: &Vec<TaskInput>, b: &Vec<TaskInput>) -> (r: bool)
    ensures
        r == (a@ == b@),
{
    if a.len() != b.len() {
        proof {
            assert(a@.len() != b@.len());
        }
        return false;
    }
    let mut i: usize = 0;
    while i < a.len()
        invariant
            i <= a.len(),
            a.len() == b.len(),
            forall|j: int| 0 <= j < i ==> a@[j] == b@[j],
        decreases a.len() - i,
    {
        if a[i] != b[i] {
            return false;
        }
        i += 1;
    }
    proof {
        assert(a@ =~= b@);
    }
    true
}

/// Deep equality test on persistent task keys.
pub fn task_type_eq(a: &PersistentTaskType, b: &PersistentTaskType) -> (r: bool)
    ensures
        r == type_key_eq(*a, *b),
{
    match a {
        PersistentTaskType::Native(fa, va) => match b {
            PersistentTaskType::Native(fb, vb) => {
                let r = *fa == *fb && inputs_eq(va, vb);
                return r;
            },
            _ => return false,
        },
        PersistentTaskType::ResolveNative(fa, va) => match b {
            PersistentTaskType::ResolveNative(fb, vb) => {
                let r = *fa == *fb && inputs_eq(va, vb);
                proof {
                    assert(type_key_eq(*a, *b) == ((*fa == *fb) && va@ == vb@));
                }
                return r;
            },
            _ => return false,
        },
        PersistentTaskType::ResolveTrait(ta, na, va) => match b {
            PersistentTaskType::ResolveTrait(tb, nb, vb) => {
                let r = *ta == *tb && *na == *nb && inputs_eq(va, vb);
                proof {
                    assert(type_key_eq(*a, *b) == ((*ta == *tb) && na@ == nb@ && va@ == vb@));
                }
                return r;
            },
            _ => return false,
        },
    }
}

impl PartialEq for PersistentTaskType {
    fn eq(&self, other: &Self) -> (r: bool) {
        task_type_eq(self, other)
    }
}

impl vstd::std_specs::cmp::PartialEqSpecImpl for PersistentTaskType {
    open spec fn obeys_eq_spec() -> bool {
        true
    }

    open spec fn eq_spec(&self, other: &Self) -> bool {
        type_key_eq(*self, *other)
    }
}

impl PersistentTaskType {
    /// The ordered input vector of the key, whatever the variant.
    pub open spec fn spec_inputs(self) -> Seq<TaskInput> {
        match self {
            PersistentTaskType::Native(_, v) => v@,
            PersistentTaskType::ResolveNative(_, v) => v@,
            PersistentTaskType::ResolveTrait(_, _, v) => v@,
        }
    }

    /// Number of inputs of the task key.
    pub fn len(&self) -> (r: usize)
        ensures
            r == self.spec_inputs().len(),
    {
        match self {
            PersistentTaskType::Native(_, v) => v.len(),
            PersistentTaskType::ResolveNative(_, v) => v.len(),
            PersistentTaskType::ResolveTrait(_, _, v) => v.len(),
        }
    }

    /// Whether the task key carries no inputs.
    pub fn is_empty(&self) -> (r: bool)
        ensures
            r == (self.spec_inputs().len() == 0),
    {
        match self {
            PersistentTaskType::Native(_, v) => v.len() == 0,
            PersistentTaskType::ResolveNative(_, v) => v.len() == 0,
            PersistentTaskType::ResolveTrait(_, _, v) => v.len() == 0,
        }
    }

    /// The same key restricted to its first `len` inputs.
    pub fn partial(&self, len: usize) -> (r: Self)
        requires
            len <= self.spec_inputs().len(),
        ensures
            r.spec_inputs() == self.spec_inputs().take(len as int),
            match (r, self) {
                (PersistentTaskType::Native(fr, _), PersistentTaskType::Native(fs, _)) => fr == fs,
                (
                    PersistentTaskType::ResolveNative(fr, _),
                    PersistentTaskType::ResolveNative(fs, _),
                ) => fr == fs,
                (
                    PersistentTaskType::ResolveTrait(tr, nr, _),
                    PersistentTaskType::ResolveTrait(ts, ns, _),
                ) => tr == ts && nr@ == ns@,
                _ => false,
            },
    {
        match self {
            PersistentTaskType::Native(f, v) => PersistentTaskType::Native(*f, prefix(v, len)),
            PersistentTaskType::ResolveNative(f, v) => PersistentTaskType::ResolveNative(
                *f,
                prefix(v, len),
            ),
            PersistentTaskType::ResolveTrait(t, n, v) => PersistentTaskType::ResolveTrait(
                *t,
                n.clone(),
                prefix(v, len),
            ),
        }
    }

    /// Drop any spare capacity of the input vector; the key itself is
    /// unchanged.
    pub fn shrink_to_fit(&mut self)
        ensures
            type_key_eq(*final(self), *old(self)),
    {
        match self {
            PersistentTaskType::Native(_, v) => vec_shrink(v),
            PersistentTaskType::ResolveNative(_, v) => vec_shrink(v),
            PersistentTaskType::ResolveTrait(_, _, v) => vec_shrink(v),
        }
    }
}

/// The first `len` elements of an input vector, as a new vector.
fn prefix(v: &Vec<TaskInput>, len: usize) -> (r: Vec<TaskInput>)
    requires
        len <= v@.len(),
    ensures
        r@ == v@.take(len as int),
{
    let mut r: Vec<TaskInput> = Vec::new();
    let mut i: usize = 0;
    while i < len
        invariant
            i <= len,
            len <= v@.len(),
            r@ == v@.take(i as int),
        decreases len - i,
    {
        r.push(v[i]);
        proof {
            assert(r@ =~= v@.take(i + 1 as int));
        }
        i += 1;
    }
    r
}

/// Relies on `Vec::shrink_to_fit`: it only releases spare capacity and
/// leaves the elements untouched.
#[verifier::external_body]
fn vec_shrink<T>(v: &mut Vec<T>)
    ensures
        final(v)@ == old(v)@,
{
    v.shrink_to_fit()
}

/// Deep equality of two task kinds.
pub open spec fn kind_eq(a: TaskType, b: TaskType) -> bool {
    match a {
        TaskType::Transient(x) => b matches TaskType::Transient(y) && x == y,
        TaskType::Persistent(p) => b matches TaskType::Persistent(q) && type_key_eq(p, q),
    }
}

/// A deep copy of a task kind, equal to the value it copies.
pub fn clone_kind(k: &TaskType) -> (r: TaskType)
    ensures
        kind_eq(r, *k),
{
    match k {
        TaskType::Transient(t) => TaskType::Transient(*t),
        TaskType::Persistent(p) => {
            let q = p.partial(p.len());
            proof {
                assert(q.spec_inputs() =~= p.spec_inputs());
                assert(type_key_eq(q, *p));
            }
            TaskType::Persistent(q)
        },
    }
}

/// A task whose lifetime is bound to the current session.
#[derive(Clone, Copy, Debug, PartialEq, Eq, Structural, Hash)]
pub enum TransientTaskType {
    /// An always-active top-level task: tracks dependencies and re-executes
    /// when they change, until it settles.
    Root,
    /// A single execution without dependency tracking, retained until
    /// complete; includes all invalidations that happened before its start.
    Once,
}

/// Every kind of task the backend can own.
#[derive(Clone, Debug)]
pub enum TaskType {
    /// Exists only for one operation; never persists between sessions.
    Transient(TransientTaskType),
    /// Cache-keyed; may persist between sessions and be shared.
    Persistent(PersistentTaskType),
}

} // verus!
