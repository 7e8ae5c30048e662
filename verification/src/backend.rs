//! The memoizing executor: task table, cell store, dependency graph,
//! invalidation engine and scheduler hooks.
//!
//! Invalidation is an eager transitive flood over tracked edges: when a
//! task's output, a cell, or a collectible set changes, every task that
//! reaches the changed key through tracked read edges is marked dirty.
//! Untracked reads leave no edge and therefore never propagate.

use vstd::prelude::*;
use vstd::multiset::Multiset;

use crate::TaskId;
use crate::error::EngineError;
use crate::ids::{CellId, TraitTypeId};
use crate::registry::Registry;
use crate::task::{clone_kind, kind_eq, task_type_eq, type_key_eq, PersistentTaskType, TaskType, TransientTaskType};
use crate::vc::{CellContent, RawVc};

verus! {

/// The single output slot of a task.
pub enum OutputSlot {
    /// The task has never published a result in its current life.
    NotComputed,
    /// The latest successful result.
    Done(RawVc),
    /// A domain error, cached and served to readers like an output.
    Failed(String),
    /// The task body aborted; readers see the panic until a new result
    /// is published.
    Panicked(Option<String>),
}

/// Deep equality of two output slots.
pub open spec fn output_slot_eq(a: OutputSlot, b: OutputSlot) -> bool {
    match a {
        OutputSlot::NotComputed => b is NotComputed,
        OutputSlot::Done(v) => b matches OutputSlot::Done(w) && v == w,
        OutputSlot::Failed(m) => b matches OutputSlot::Failed(n) && m@ == n@,
        OutputSlot::Panicked(m) => b matches OutputSlot::Panicked(n) && (match m {
            Some(x) => n matches Some(y) && x@ == y@,
            None => n is None,
        }),
    }
}

/// What a tracked read depends on: the source task's output slot, one of
/// its cells, or its collectible set for one trait.
#[derive(Clone, Copy, Debug, PartialEq, Eq, Structural, Hash)]
pub enum DepKey {
    Output,
    Cell(CellId),
    Collectibles(TraitTypeId),
}

/// One tracked dependency edge: the reader holds it, pointing at a source
/// task and the key it read.
#[derive(Clone, Copy, Debug, PartialEq, Eq, Structural, Hash)]
pub struct Dependency {
    pub source: TaskId,
    pub key: DepKey,
}

/// Everything the backend stores about one task.
pub struct TaskRecord {
    pub kind: TaskType,
    /// Needs (re-)execution: freshly created or invalidated.
    pub dirty: bool,
    /// An execution has started and has not completed.
    pub in_progress: bool,
    pub output: OutputSlot,
    pub cells: Vec<(CellId, CellContent)>,
    /// Edge set committed by the last completed execution.
    pub deps: Vec<Dependency>,
    /// Read log of the execution currently in progress.
    pub active_deps: Vec<Dependency>,
    /// Multiset of emitted `(trait, item)` tags.
    pub collectibles: Vec<(TraitTypeId, RawVc)>,
    /// Structural parent -> child edges.
    pub children: Vec<TaskId>,
}

/// A waiter handle: the reader blocks until the named task publishes.
#[derive(Clone, Copy, Debug, PartialEq, Eq, Structural, Hash)]
pub struct EventListener {
    pub task: TaskId,
}

/// What `try_start_task_execution` hands to the driver: the task and a
/// copy of the recipe to run.
pub struct TaskExecutionSpec {
    pub task: TaskId,
    pub work: TaskType,
}

/// An execution's result as reported by the driver: a successful handle,
/// a domain error message, or a panic message.
pub enum ExecutionResult {
    Completed(RawVc),
    Error(String),
    Panic(Option<String>),
}

/// First cell entry matching the id, scanning from the front.
pub open spec fn cell_lookup(s: Seq<(CellId, CellContent)>, c: CellId) -> Option<CellContent>
    decreases s.len(),
{
    if s.len() == 0 {
        None
    } else if s[0].0 == c {
        Some(s[0].1)
    } else {
        cell_lookup(s.drop_first(), c)
    }
}

/// First cache entry whose key equals the task type, scanning from the
/// front.
pub open spec fn cache_lookup(s: Seq<(PersistentTaskType, TaskId)>, ty: PersistentTaskType) -> Option<TaskId>
    decreases s.len(),
{
    if s.len() == 0 {
        None
    } else if type_key_eq(s[0].0, ty) {
        Some(s[0].1)
    } else {
        cache_lookup(s.drop_first(), ty)
    }
}

/// Two task records that agree on everything but the dirty flag.
pub open spec fn eq_mod_dirty(a: TaskRecord, b: TaskRecord) -> bool {
    b == (TaskRecord { dirty: b.dirty, ..a })
}

/// The memoizing in-memory backend: task table and persistent-task cache.
pub struct MemoryBackend {
    pub tasks: Vec<TaskRecord>,
    pub cache: Vec<(PersistentTaskType, TaskId)>,
}

impl MemoryBackend {
    /// Whether the id names a task of this backend.
    pub open spec fn is_task(self, t: TaskId) -> bool {
        t.0 < self.tasks@.len()
    }

    /// The record of a task.
    pub open spec fn rec(self, t: TaskId) -> TaskRecord {
        self.tasks@[t.0 as int]
    }

    /// The dirty flag of a task.
    pub open spec fn spec_dirty(self, t: TaskId) -> bool {
        self.is_task(t) && self.rec(t).dirty
    }

    /// Whether an execution of the task is in progress.
    pub open spec fn spec_in_progress(self, t: TaskId) -> bool {
        self.is_task(t) && self.rec(t).in_progress
    }

    /// The output slot of a task; an unknown id reads as not yet computed.
    pub open spec fn spec_output(self, t: TaskId) -> OutputSlot {
        if self.is_task(t) {
            self.rec(t).output
        } else {
            OutputSlot::NotComputed
        }
    }

    /// The content of a cell, if it was ever written.
    pub open spec fn spec_cell(self, t: TaskId, c: CellId) -> Option<CellContent> {
        if self.is_task(t) {
            cell_lookup(self.rec(t).cells@, c)
        } else {
            None
        }
    }

    /// The persistent task cached under a type key, if any.
    pub open spec fn spec_cached(self, ty: PersistentTaskType) -> Option<TaskId> {
        cache_lookup(self.cache@, ty)
    }

    /// The committed collectible multiset of a task.
    pub open spec fn spec_collectibles(self, t: TaskId) -> Multiset<(TraitTypeId, RawVc)> {
        if self.is_task(t) {
            self.rec(t).collectibles@.to_multiset()
        } else {
            Seq::<(TraitTypeId, RawVc)>::empty().to_multiset()
        }
    }

    /// The reader holds a committed edge to exactly this source and key.
    pub open spec fn has_dep_key(self, reader: TaskId, source: TaskId, key: DepKey) -> bool {
        self.is_task(reader) && exists|i: int|
            0 <= i < self.rec(reader).deps@.len() && self.rec(reader).deps@[i] == (Dependency {
                source,
                key,
            })
    }

    /// The reader holds a committed edge to the source, under any key.
    pub open spec fn depends_on_step(self, reader: TaskId, source: TaskId) -> bool {
        self.is_task(reader) && exists|i: int|
            0 <= i < self.rec(reader).deps@.len() && self.rec(reader).deps@[i].source == source
    }

    /// The reader reaches the source through a chain of `n` tracked edges.
    pub open spec fn invalidates_n(self, source: TaskId, reader: TaskId, n: nat) -> bool
        decreases n, 0int,
    {
        if n == 0 {
            reader == source
        } else {
            self.invalidates_via(source, reader, (n - 1) as nat)
        }
    }

    /// The reader holds an edge to some task that reaches the source
    /// through a chain of `k` tracked edges.
    pub open spec fn invalidates_via(self, source: TaskId, reader: TaskId, k: nat) -> bool
        decreases k, 1int,
    {
        exists|m: TaskId|
            self.invalidates_n(source, m, k) && #[trigger] self.depends_on_step(reader, m)
    }

    /// Invalidating `source` eventually marks `reader`: the reader reaches
    /// the source through tracked edges (reflexively).
    pub open spec fn invalidates(self, source: TaskId, reader: TaskId) -> bool {
        exists|n: nat| self.invalidates_n(source, reader, n)
    }

    /// `reader` is invalidated by at least one of the seed tasks.
    pub open spec fn any_invalidates(self, seeds: Seq<TaskId>, reader: TaskId) -> bool {
        exists|k: int| 0 <= k < seeds.len() && self.invalidates(seeds[k], reader)
    }

    /// `reader` is invalidated by a change of `(source, key)`: some task
    /// holds an edge to that key and the reader reaches it.
    pub open spec fn keyed_invalidates(self, source: TaskId, key: DepKey, reader: TaskId) -> bool {
        exists|seed: TaskId|
            #[trigger] self.has_dep_key(seed, source, key) && self.invalidates(seed, reader)
    }
}

/// Invalidation reaches a task reflexively.
pub proof fn lemma_invalidates_refl(s: MemoryBackend, t: TaskId)
    ensures
        s.invalidates(t, t),
{
    assert(s.invalidates_n(t, t, 0));
}

/// Invalidation extends along one more tracked edge.
pub proof fn lemma_invalidates_step(s: MemoryBackend, source: TaskId, mid: TaskId, reader: TaskId)
    requires
        s.invalidates(source, mid),
        s.depends_on_step(reader, mid),
    ensures
        s.invalidates(source, reader),
{
    let n = choose|n: nat| s.invalidates_n(source, mid, n);
    reveal_with_fuel(MemoryBackend::invalidates_n, 2);
    reveal_with_fuel(MemoryBackend::invalidates_via, 2);
    assert(s.invalidates_n(source, mid, n) && s.depends_on_step(reader, mid));
    assert(s.invalidates_via(source, reader, n));
    assert(s.invalidates_n(source, reader, n + 1));
}

/// Number of unset flags in a bit sequence.
pub open spec fn count_false(s: Seq<bool>) -> nat
    decreases s.len(),
{
    if s.len() == 0 {
        0
    } else {
        (if s[0] {
            0int
        } else {
            1int
        }) as nat + count_false(s.drop_first())
    }
}

/// Setting an unset flag strictly decreases the number of unset flags.
proof fn lemma_count_false_update(s: Seq<bool>, i: int)
    requires
        0 <= i < s.len(),
        !s[i],
    ensures
        count_false(s.update(i, true)) < count_false(s),
    decreases s.len(),
{
    if i == 0 {
        assert(s.update(0, true).drop_first() =~= s.drop_first());
    } else {
        assert(s.update(i, true).drop_first() =~= s.drop_first().update(i - 1, true));
        lemma_count_false_update(s.drop_first(), i - 1);
    }
}

/// A set of marks that is closed under incoming tracked edges contains
/// everything the marked seed invalidates.
proof fn lemma_closed_under_reach(
    s: MemoryBackend,
    vis: Seq<bool>,
    seed: TaskId,
    reader: TaskId,
    n: nat,
)
    requires
        vis.len() == s.tasks@.len(),
        s.is_task(seed),
        vis[seed.0 as int],
        forall|r: TaskId, u: TaskId|
            s.is_task(u) && vis[u.0 as int] && #[trigger] s.depends_on_step(r, u) ==> s.is_task(r)
                && vis[r.0 as int],
        s.invalidates_n(seed, reader, n),
    ensures
        s.is_task(reader) && vis[reader.0 as int],
    decreases n,
{
    if n == 0 {
    } else {
        assert(s.invalidates_via(seed, reader, (n - 1) as nat));
        let m = choose|m: TaskId|
            s.invalidates_n(seed, m, (n - 1) as nat) && #[trigger] s.depends_on_step(reader, m);
        lemma_closed_under_reach(s, vis, seed, m, (n - 1) as nat);
    }
}

/// Whether a record holds a committed edge to the source, under any key.
fn reads_from(rec: &TaskRecord, source: TaskId) -> (r: bool)
    ensures
        r == exists|i: int| 0 <= i < rec.deps@.len() && rec.deps@[i].source == source,
{
    let mut i: usize = 0;
    while i < rec.deps.len()
        invariant
            i <= rec.deps@.len(),
            forall|j: int| 0 <= j < i ==> rec.deps@[j].source != source,
        decreases rec.deps@.len() - i,
    {
        if rec.deps[i].source == source {
            return true;
        }
        i += 1;
    }
    false
}

/// Whether a record holds a committed edge to exactly this source and key.
fn reads_key(rec: &TaskRecord, source: TaskId, key: DepKey) -> (r: bool)
    ensures
        r == exists|i: int|
            0 <= i < rec.deps@.len() && rec.deps@[i] == (Dependency { source, key }),
{
    let mut i: usize = 0;
    while i < rec.deps.len()
        invariant
            i <= rec.deps@.len(),
            forall|j: int| 0 <= j < i ==> rec.deps@[j] != (Dependency { source, key }),
        decreases rec.deps@.len() - i,
    {
        if rec.deps[i].source == source && rec.deps[i].key == key {
            return true;
        }
        i += 1;
    }
    false
}

impl MemoryBackend {
    /// An empty backend: no tasks, empty cache.
    pub fn new() -> (r: Self)
        ensures
            r.tasks@.len() == 0,
            r.cache@.len() == 0,
    {
        MemoryBackend { tasks: Vec::new(), cache: Vec::new() }
    }

    /// Set one task's dirty flag, leaving everything else unchanged.
    fn set_dirty(&mut self, i: usize)
        requires
            i < old(self).tasks@.len(),
        ensures
            final(self).tasks@.len() == old(self).tasks@.len(),
            final(self).cache@ == old(self).cache@,
            forall|t: TaskId|
                old(self).is_task(t) && t.0 != i ==> #[trigger] final(self).rec(t) == old(self).rec(t),
            final(self).rec(TaskId(i as u64)) == (TaskRecord {
                dirty: true,
                ..old(self).rec(TaskId(i as u64))
            }),
    {
        self.tasks[i].dirty = true;
    }

    /// Every task holding a tracked edge to `source`.
    fn collect_readers(&self, source: TaskId) -> (r: Vec<TaskId>)
        ensures
            forall|k: int|
                0 <= k < r@.len() ==> self.is_task(r@[k]) && self.depends_on_step(r@[k], source),
            forall|t: TaskId| #[trigger]
                self.depends_on_step(t, source) && self.is_task(t) ==> r@.contains(t),
    {
        let mut r: Vec<TaskId> = Vec::new();
        let mut i: usize = 0;
        while i < self.tasks.len()
            invariant
                i <= self.tasks@.len(),
                forall|k: int|
                    0 <= k < r@.len() ==> self.is_task(r@[k]) && self.depends_on_step(
                        r@[k],
                        source,
                    ),
                forall|t: TaskId|
                    t.0 < i && #[trigger] self.depends_on_step(t, source) ==> r@.contains(t),
            decreases self.tasks@.len() - i,
        {
            let t = TaskId(i as u64);
            let ghost r_pre = r@;
            let hit = reads_from(&self.tasks[i], source);
            if hit {
                r.push(t);
            }
            proof {
                assert forall|x: TaskId| r_pre.contains(x) implies r@.contains(x) by {
                    let j = choose|j: int| 0 <= j < r_pre.len() && r_pre[j] == x;
                    assert(r@[j] == x);
                }
                if hit {
                    assert(r@[r@.len() - 1] == t);
                    assert(r@.contains(t));
                }
                assert(self.rec(t) == self.tasks@[i as int]);
                assert forall|t2: TaskId|
                    t2.0 < i + 1 && #[trigger] self.depends_on_step(t2, source) implies r@.contains(
                    t2,
                ) by {
                    if t2.0 < i {
                        assert(r_pre.contains(t2));
                    } else {
                        assert(t2 == t);
                        assert(hit);
                    }
                }
            }
            i += 1;
        }
        r
    }

    /// Every task holding a tracked edge to exactly `(source, key)`.
    fn collect_keyed_readers(&self, source: TaskId, key: DepKey) -> (r: Vec<TaskId>)
        ensures
            forall|k: int|
                0 <= k < r@.len() ==> self.has_dep_key(r@[k], source, key),
            forall|t: TaskId| #[trigger] self.has_dep_key(t, source, key) ==> r@.contains(t),
    {
        let mut r: Vec<TaskId> = Vec::new();
        let mut i: usize = 0;
        while i < self.tasks.len()
            invariant
                i <= self.tasks@.len(),
                forall|k: int| 0 <= k < r@.len() ==> self.has_dep_key(r@[k], source, key),
                forall|t: TaskId|
                    t.0 < i && #[trigger] self.has_dep_key(t, source, key) ==> r@.contains(t),
            decreases self.tasks@.len() - i,
        {
            let t = TaskId(i as u64);
            let ghost r_pre = r@;
            let hit = reads_key(&self.tasks[i], source, key);
            if hit {
                r.push(t);
            }
            proof {
                assert forall|x: TaskId| r_pre.contains(x) implies r@.contains(x) by {
                    let j = choose|j: int| 0 <= j < r_pre.len() && r_pre[j] == x;
                    assert(r@[j] == x);
                }
                if hit {
                    assert(r@[r@.len() - 1] == t);
                    assert(r@.contains(t));
                }
                assert(self.rec(t) == self.tasks@[i as int]);
                assert forall|t2: TaskId|
                    t2.0 < i + 1 && #[trigger] self.has_dep_key(t2, source, key) implies r
                    @.contains(t2) by {
                    if t2.0 < i {
                        assert(r_pre.contains(t2));
                    } else {
                        assert(t2 == t);
                        assert(hit);
                    }
                }
            }
            i += 1;
        }
        r
    }

    /// Mark dirty exactly the tasks one of the seeds invalidates: the
    /// transitive flood over tracked edges, starting at the seeds.
    fn mark_dirty_closure(&mut self, seeds: &Vec<TaskId>)
        requires
            forall|k: int| 0 <= k < seeds@.len() ==> old(self).is_task(#[trigger] seeds@[k]),
        ensures
            final(self).tasks@.len() == old(self).tasks@.len(),
            final(self).cache@ == old(self).cache@,
            forall|t: TaskId|
                old(self).is_task(t) ==> eq_mod_dirty(
                    old(self).rec(t),
                    #[trigger] final(self).rec(t),
                ),
            forall|t: TaskId|
                old(self).is_task(t) ==> (final(self).rec(t).dirty == (old(self).rec(t).dirty
                    || old(self).any_invalidates(seeds@, t))),
    {
        let ghost s0 = *self;
        let n = self.tasks.len();
        let mut vis: Vec<bool> = vec![false; n];
        let mut wl: Vec<TaskId> = Vec::new();
        let mut k: usize = 0;
        while k < seeds.len()
            invariant
                k <= seeds@.len(),
                wl@ == seeds@.take(k as int),
            decreases seeds@.len() - k,
        {
            wl.push(seeds[k]);
            proof {
                assert(wl@ =~= seeds@.take(k + 1 as int));
            }
            k += 1;
        }
        proof {
            assert(wl@ =~= seeds@);
            assert(forall|i: int| 0 <= i < n ==> !vis@[i]);
            assert forall|j: int| 0 <= j < wl@.len() implies s0.is_task(wl@[j])
                && s0.any_invalidates(seeds@, wl@[j]) by {
                lemma_invalidates_refl(s0, wl@[j]);
                assert(0 <= j < seeds@.len() && s0.invalidates(seeds@[j], wl@[j]));
            }
            assert forall|k2: int| 0 <= k2 < seeds@.len() implies wl@.contains(seeds@[k2]) by {
                assert(wl@[k2] == seeds@[k2]);
            }
        }
        while wl.len() > 0
            invariant
                forall|k: int| 0 <= k < seeds@.len() ==> s0.is_task(#[trigger] seeds@[k]),
                self.tasks@.len() == n,
                n == s0.tasks@.len(),
                self.cache@ == s0.cache@,
                vis@.len() == n,
                forall|t: TaskId|
                    s0.is_task(t) ==> eq_mod_dirty(s0.rec(t), #[trigger] self.rec(t)),
                forall|t: TaskId|
                    s0.is_task(t) ==> (#[trigger] self.rec(t).dirty == (s0.rec(t).dirty || vis@[t.0
                        as int])),
                forall|i: int|
                    0 <= i < n && #[trigger] vis@[i] ==> s0.any_invalidates(
                        seeds@,
                        TaskId(i as u64),
                    ),
                forall|j: int|
                    0 <= j < wl@.len() ==> s0.is_task(#[trigger] wl@[j]) && s0.any_invalidates(
                        seeds@,
                        wl@[j],
                    ),
                forall|k2: int|
                    0 <= k2 < seeds@.len() ==> vis@[seeds@[k2].0 as int] || wl@.contains(
                        #[trigger] seeds@[k2],
                    ),
                forall|u: TaskId, r: TaskId|
                    s0.is_task(u) && vis@[u.0 as int] && #[trigger] s0.depends_on_step(r, u)
                        ==> vis@[r.0 as int] || wl@.contains(r),
            decreases count_false(vis@), wl@.len(),
        {
            let ghost wl_pre = wl@;
            let ghost vis_entry = vis@;
            let t = wl.pop().unwrap();
            proof {
                assert(wl_pre[wl_pre.len() - 1] == t);
                // members other than the popped last one keep their index
                assert(forall|x: TaskId|
                    wl_pre.contains(x) ==> x == t || wl@.contains(x)) by {
                    assert(forall|x: TaskId| #[trigger]
                        wl_pre.contains(x) ==> x == t || exists|j: int|
                            0 <= j < wl@.len() && wl@[j] == x) by {
                        assert forall|x: TaskId| #[trigger] wl_pre.contains(x) implies x == t
                            || exists|j: int| 0 <= j < wl@.len() && wl@[j] == x by {
                            let j = choose|j: int| 0 <= j < wl_pre.len() && wl_pre[j] == x;
                            if j < wl_pre.len() - 1 {
                                assert(wl@[j] == x);
                            }
                        }
                    }
                }
            }
            let ti = t.0 as usize;
            if !vis[ti] {
                let ghost vis_pre = vis@;
                let ghost pre = *self;
                vis[ti] = true;
                self.set_dirty(ti);
                proof {
                    lemma_count_false_update(vis_pre, ti as int);
                    assert forall|r: TaskId| s0.is_task(r) implies eq_mod_dirty(
                        s0.rec(r),
                        #[trigger] self.rec(r),
                    ) && self.rec(r).deps@ == s0.rec(r).deps@ by {
                        if r.0 as int == ti as int {
                            assert(self.rec(r) == (TaskRecord { dirty: true, ..pre.rec(r) }));
                        } else {
                            assert(self.rec(r) == pre.rec(r));
                        }
                        assert(eq_mod_dirty(s0.rec(r), self.rec(r)));
                    }
                }
                let mut readers = self.collect_readers(t);
                proof {
                    // the current state's edges are the initial state's
                    assert forall|r: TaskId, u: TaskId| #[trigger] self.depends_on_step(r, u)
                        == s0.depends_on_step(r, u) by {
                        assert(self.tasks@.len() == s0.tasks@.len());
                        if s0.is_task(r) {
                            assert(self.rec(r).deps@ == s0.rec(r).deps@);
                        }
                    }
                }
                let ghost rd = readers@;
                let ghost wl_mid = wl@;
                wl.append(&mut readers);
                proof {
                    assert(wl@ == wl_mid + rd);
                    assert(forall|x: TaskId| #[trigger]
                        wl_mid.contains(x) ==> wl@.contains(x)) by {
                        assert forall|x: TaskId| #[trigger] wl_mid.contains(x) implies wl@.contains(
                            x,
                        ) by {
                            let j = choose|j: int| 0 <= j < wl_mid.len() && wl_mid[j] == x;
                            assert(wl@[j] == x);
                        }
                    }
                    assert(forall|x: TaskId| #[trigger] rd.contains(x) ==> wl@.contains(x)) by {
                        assert forall|x: TaskId| #[trigger] rd.contains(x) implies wl@.contains(
                            x,
                        ) by {
                            let j = choose|j: int| 0 <= j < rd.len() && rd[j] == x;
                            assert(wl@[wl_mid.len() + j] == x);
                        }
                    }
                    // every reader of t is in the appended part
                    assert forall|r2: TaskId|
                        s0.is_task(r2) && #[trigger] s0.depends_on_step(r2, t) implies wl@.contains(
                        r2,
                    ) by {
                        assert(self.depends_on_step(r2, t));
                        assert(rd.contains(r2));
                    }
                    // new worklist members are invalidated by the seeds
                    assert(forall|j: int|
                        0 <= j < rd.len() ==> s0.is_task(#[trigger] rd[j]) && s0.any_invalidates(
                            seeds@,
                            rd[j],
                        )) by {
                        assert forall|j: int| 0 <= j < rd.len() implies s0.is_task(
                            #[trigger] rd[j],
                        ) && s0.any_invalidates(seeds@, rd[j]) by {
                            let ghost ki = choose|ki: int|
                                0 <= ki < seeds@.len() && s0.invalidates(seeds@[ki], t);
                            lemma_invalidates_step(s0, seeds@[ki], t, rd[j]);
                        }
                    }
                }
            }
            proof {
                assert(s0.is_task(t));
                assert(vis@[t.0 as int]);
                assert forall|x: TaskId| wl_pre.contains(x) implies vis@[x.0 as int]
                    || wl@.contains(x) by {
                    let j = choose|j: int| 0 <= j < wl_pre.len() && wl_pre[j] == x;
                    if j < wl_pre.len() - 1 {
                        assert(wl@[j] == wl_pre[j]);
                        assert(wl@.contains(x));
                    } else {
                        assert(x == t);
                    }
                }
                assert forall|k2: int| 0 <= k2 < seeds@.len() implies vis@[seeds@[k2].0 as int]
                    || wl@.contains(seeds@[k2]) by {
                    let x = seeds@[k2];
                    assert(s0.is_task(x));
                    if vis_entry[x.0 as int] {
                        assert(vis@[x.0 as int]);
                    } else {
                        assert(wl_pre.contains(x));
                        assert(vis@[x.0 as int] || wl@.contains(x));
                    }
                }
            }
        }
        proof {
            // the worklist is empty: every seed is visited and the visited
            // set is closed, so it contains everything the seeds invalidate
            assert forall|t: TaskId|
                s0.is_task(t) implies (self.rec(t).dirty == (s0.rec(t).dirty
                || s0.any_invalidates(seeds@, t))) by {
                if s0.any_invalidates(seeds@, t) {
                    let ki = choose|ki: int|
                        0 <= ki < seeds@.len() && s0.invalidates(seeds@[ki], t);
                    let n2 = choose|n2: nat| s0.invalidates_n(seeds@[ki], t, n2);
                    lemma_closed_under_reach(s0, vis@, seeds@[ki], t, n2);
                }
            }
        }
    }
}

impl MemoryBackend {
    /// The result a reader of a task's output observes: the latest value
    /// once the task (and, for a strongly consistent read, its transitive
    /// tracked dependencies) has settled, a retained error, or a listener
    /// to wait on.
    pub open spec fn output_read(self, task: TaskId, strongly_consistent: bool) -> Result<
        Result<RawVc, EventListener>,
        EngineError,
    > {
        if self.spec_dirty(task) || self.spec_in_progress(task) || (strongly_consistent
            && self.has_unsettled_dep(task)) {
            Ok(Err(EventListener { task }))
        } else {
            match self.spec_output(task) {
                OutputSlot::NotComputed => Ok(Err(EventListener { task })),
                OutputSlot::Done(v) => Ok(Ok(v)),
                OutputSlot::Failed(m) => Err(EngineError::TaskError { message: m }),
                OutputSlot::Panicked(m) => Err(EngineError::TaskPanicked { message: m }),
            }
        }
    }

    /// The task reaches `dep` through a chain of `n` tracked edges.
    pub open spec fn depends_n(self, from: TaskId, dep: TaskId, n: nat) -> bool
        decreases n, 0int,
    {
        if n == 0 {
            dep == from
        } else {
            self.depends_via(from, dep, (n - 1) as nat)
        }
    }

    /// Some task reached in `k` edges from `from` holds an edge to `dep`.
    pub open spec fn depends_via(self, from: TaskId, dep: TaskId, k: nat) -> bool
        decreases k, 1int,
    {
        exists|m: TaskId| self.depends_n(from, m, k) && #[trigger] self.depends_on_step(m, dep)
    }

    /// `dep` is in the transitive tracked dependency set of `from`
    /// (reflexively).
    pub open spec fn depends_on(self, from: TaskId, dep: TaskId) -> bool {
        exists|n: nat| self.depends_n(from, dep, n)
    }

    /// Some transitive tracked dependency of the task is dirty or still
    /// executing.
    pub open spec fn has_unsettled_dep(self, task: TaskId) -> bool {
        exists|d: TaskId|
            #[trigger] self.depends_on(task, d) && (self.spec_dirty(d) || self.spec_in_progress(d))
    }

    /// Set one task's output slot, leaving everything else unchanged.
    fn set_output(&mut self, i: usize, slot: OutputSlot)
        requires
            i < old(self).tasks@.len(),
        ensures
            final(self).tasks@.len() == old(self).tasks@.len(),
            final(self).cache@ == old(self).cache@,
            forall|t: TaskId|
                old(self).is_task(t) && t.0 != i ==> #[trigger] final(self).rec(t) == old(self).rec(t),
            final(self).rec(TaskId(i as u64)) == (TaskRecord {
                output: slot,
                ..old(self).rec(TaskId(i as u64))
            }),
    {
        self.tasks[i].output = slot;
    }

    /// Mark dirty exactly what a change of `(source, key)` invalidates:
    /// every task that reaches a tracked edge to that key.
    fn invalidate_keyed_readers(&mut self, source: TaskId, key: DepKey)
        ensures
            final(self).tasks@.len() == old(self).tasks@.len(),
            final(self).cache@ == old(self).cache@,
            forall|t: TaskId|
                old(self).is_task(t) ==> eq_mod_dirty(
                    old(self).rec(t),
                    #[trigger] final(self).rec(t),
                ),
            forall|t: TaskId|
                old(self).is_task(t) ==> (final(self).rec(t).dirty == (old(self).rec(t).dirty
                    || old(self).keyed_invalidates(source, key, t))),
    {
        let seeds = self.collect_keyed_readers(source, key);
        let ghost s0 = *self;
        self.mark_dirty_closure(&seeds);
        proof {
            assert forall|t: TaskId| s0.is_task(t) implies (s0.any_invalidates(seeds@, t)
                == s0.keyed_invalidates(source, key, t)) by {
                if s0.any_invalidates(seeds@, t) {
                    let k = choose|k: int|
                        0 <= k < seeds@.len() && s0.invalidates(seeds@[k], t);
                    assert(s0.has_dep_key(seeds@[k], source, key) && s0.invalidates(seeds@[k], t));
                }
                if s0.keyed_invalidates(source, key, t) {
                    let seed = choose|seed: TaskId|
                        #[trigger] s0.has_dep_key(seed, source, key) && s0.invalidates(seed, t);
                    assert(seeds@.contains(seed));
                    let k = choose|k: int| 0 <= k < seeds@.len() && seeds@[k] == seed;
                    assert(0 <= k < seeds@.len() && s0.invalidates(seeds@[k], t));
                }
            }
        }
    }

    /// Mark the task's output dirty and schedule every tracked reader:
    /// the transitive flood of its invalidation.
    pub fn invalidate_task(&mut self, task: TaskId)
        requires
            old(self).is_task(task),
        ensures
            final(self).tasks@.len() == old(self).tasks@.len(),
            final(self).cache@ == old(self).cache@,
            forall|t: TaskId|
                old(self).is_task(t) ==> eq_mod_dirty(
                    old(self).rec(t),
                    #[trigger] final(self).rec(t),
                ),
            forall|t: TaskId|
                old(self).is_task(t) ==> (final(self).spec_dirty(t) == (old(self).spec_dirty(t)
                    || old(self).invalidates(task, t))),
    {
        let mut seeds: Vec<TaskId> = Vec::new();
        seeds.push(task);
        let ghost s0 = *self;
        self.mark_dirty_closure(&seeds);
        proof {
            assert forall|t: TaskId| s0.is_task(t) implies (s0.any_invalidates(seeds@, t)
                == s0.invalidates(task, t)) by {
                assert(seeds@[0] == task);
                if s0.invalidates(task, t) {
                    assert(0 <= 0 < seeds@.len() && s0.invalidates(seeds@[0], t));
                }
            }
        }
    }

    /// Invalidate each of the listed tasks at once.
    pub fn invalidate_tasks(&mut self, tasks: Vec<TaskId>)
        requires
            forall|k: int| 0 <= k < tasks@.len() ==> old(self).is_task(#[trigger] tasks@[k]),
        ensures
            final(self).tasks@.len() == old(self).tasks@.len(),
            final(self).cache@ == old(self).cache@,
            forall|t: TaskId|
                old(self).is_task(t) ==> eq_mod_dirty(
                    old(self).rec(t),
                    #[trigger] final(self).rec(t),
                ),
            forall|t: TaskId|
                old(self).is_task(t) ==> (final(self).spec_dirty(t) == (old(self).spec_dirty(t)
                    || old(self).any_invalidates(tasks@, t))),
    {
        self.mark_dirty_closure(&tasks);
    }

    /// Look the persistent type up in the cache; on a miss create the
    /// task, dirty and ready to run. Either way the resulting task is
    /// recorded as a child of the parent, and no execution of existing
    /// tasks is triggered.
    pub fn get_or_create_persistent_task(
        &mut self,
        task_type: PersistentTaskType,
        parent_task: TaskId,
    ) -> (r: TaskId)
        requires
            old(self).is_task(parent_task),
            old(self).tasks@.len() < u64::MAX,
        ensures
            final(self).spec_cached(task_type) == Some(r),
            forall|ty2: PersistentTaskType|
                !type_key_eq(ty2, task_type) ==> #[trigger] final(self).spec_cached(ty2) == old(self).spec_cached(ty2),
            forall|t: TaskId|
                old(self).is_task(t) && t != parent_task ==> #[trigger] final(self).rec(t) == old(self).rec(t),
            final(self).rec(parent_task).children@ == old(self).rec(parent_task).children@.push(r),
            final(self).rec(parent_task) == (TaskRecord {
                children: final(self).rec(parent_task).children,
                ..old(self).rec(parent_task)
            }),
            forall|t: TaskId|
                old(self).is_task(t) ==> final(self).spec_dirty(t) == old(self).spec_dirty(t),
            match old(self).spec_cached(task_type) {
                Some(existing) => r == existing && final(self).tasks@.len() == old(self).tasks@.len() && final(self).cache@ == old(self).cache@,
                None => r.0 == old(self).tasks@.len() && final(self).tasks@.len() == old(self).tasks@.len() + 1 && final(self).rec(r).dirty && !final(self).rec(r).in_progress
                    && final(self).rec(r).output is NotComputed && final(self).rec(r).cells@.len()
                    == 0 && final(self).rec(r).deps@.len() == 0 && final(self).rec(r).active_deps@.len() == 0 && final(self).rec(r).collectibles@.len() == 0
                    && final(self).rec(r).children@.len() == 0 && (final(self).rec(r).kind
                    matches TaskType::Persistent(p) && type_key_eq(p, task_type)),
            },
    {
        let ghost s0 = *self;
        let mut i: usize = 0;
        let mut found: Option<TaskId> = None;
        proof {
            assert(self.cache@.skip(0) =~= self.cache@);
        }
        while i < self.cache.len()
            invariant_except_break
                found is None,
                cache_lookup(s0.cache@.skip(i as int), task_type) == cache_lookup(
                    s0.cache@,
                    task_type,
                ),
            invariant
                i <= self.cache@.len(),
                *self == s0,
            ensures
                *self == s0,
                match found {
                    Some(id) => cache_lookup(s0.cache@, task_type) == Some(id),
                    None => i == s0.cache@.len() && cache_lookup(
                        s0.cache@.skip(i as int),
                        task_type,
                    ) == cache_lookup(s0.cache@, task_type),
                },
            decreases s0.cache@.len() - i,
        {
            proof {
                assert(self.cache@.skip(i as int)[0] == self.cache@[i as int]);
                assert(self.cache@.skip(i as int).drop_first() =~= self.cache@.skip(i + 1 as int));
            }
            if task_type_eq(&self.cache[i].0, &task_type) {
                found = Some(self.cache[i].1);
                proof {
                    assert(*self == s0);
                    assert(type_key_eq(s0.cache@.skip(i as int)[0].0, task_type));
                    assert(cache_lookup(s0.cache@.skip(i as int), task_type) == Some(
                        s0.cache@[i as int].1,
                    ));
                    assert(cache_lookup(s0.cache@, task_type) == Some(s0.cache@[i as int].1));
                }
                break;
            }
            i += 1;
        }
        proof {
            if found is None {
                assert(self.cache@.skip(self.cache@.len() as int) =~= Seq::<
                    (PersistentTaskType, TaskId),
                >::empty());
            }
        }
        match found {
            Some(id) => {
                proof {
                    assert(self.tasks.len() == self.tasks@.len());
                }
                let pi = parent_task.0 as usize;
                self.tasks[pi].children.push(id);
                id
            },
            None => {
                let id = TaskId(self.tasks.len() as u64);
                let copy = task_type.partial(task_type.len());
                proof {
                    assert(copy.spec_inputs() =~= task_type.spec_inputs());
                    assert(type_key_eq(copy, task_type));
                }
                let kind = TaskType::Persistent(copy);
                self.tasks.push(
                    TaskRecord {
                        kind,
                        dirty: true,
                        in_progress: false,
                        output: OutputSlot::NotComputed,
                        cells: Vec::new(),
                        deps: Vec::new(),
                        active_deps: Vec::new(),
                        collectibles: Vec::new(),
                        children: Vec::new(),
                    },
                );
                self.cache.insert(0, (task_type, id));
                proof {
                    assert(self.tasks.len() == self.tasks@.len());
                }
                let pi = parent_task.0 as usize;
                self.tasks[pi].children.push(id);
                proof {
                    assert(self.cache@.drop_first() =~= s0.cache@);
                    assert(type_key_eq(self.cache@[0].0, self.cache@[0].0));
                    assert forall|ty2: PersistentTaskType|
                        !type_key_eq(ty2, self.cache@[0].0) implies cache_lookup(
                        self.cache@,
                        ty2,
                    ) == cache_lookup(s0.cache@, ty2) by {
                        assert(!type_key_eq(self.cache@[0].0, ty2));
                    }
                }
                id
            },
        }
    }

    /// Add a structural parent -> child edge without creating anything.
    pub fn connect_task(&mut self, task: TaskId, parent_task: TaskId)
        requires
            old(self).is_task(parent_task),
        ensures
            final(self).tasks@.len() == old(self).tasks@.len(),
            final(self).cache@ == old(self).cache@,
            forall|t: TaskId|
                old(self).is_task(t) && t != parent_task ==> #[trigger] final(self).rec(t) == old(self).rec(t),
            final(self).rec(parent_task).children@ == old(self).rec(parent_task).children@.push(
                task,
            ),
            final(self).rec(parent_task) == (TaskRecord {
                children: final(self).rec(parent_task).children,
                ..old(self).rec(parent_task)
            }),
    {
        proof {
            assert(self.tasks.len() == self.tasks@.len());
        }
        let pi = parent_task.0 as usize;
        self.tasks[pi].children.push(task);
    }

    /// Create a fresh transient task, active immediately; every call
    /// yields a new identity.
    pub fn create_transient_task(&mut self, task_type: TransientTaskType) -> (r: TaskId)
        requires
            old(self).tasks@.len() < u64::MAX,
        ensures
            r.0 == old(self).tasks@.len(),
            final(self).tasks@.len() == old(self).tasks@.len() + 1,
            final(self).cache@ == old(self).cache@,
            forall|t: TaskId|
                old(self).is_task(t) ==> #[trigger] final(self).rec(t) == old(self).rec(t),
            final(self).rec(r).kind == TaskType::Transient(task_type),
            final(self).rec(r).dirty,
            !final(self).rec(r).in_progress,
            final(self).rec(r).output is NotComputed,
            final(self).rec(r).cells@.len() == 0,
            final(self).rec(r).deps@.len() == 0,
            final(self).rec(r).active_deps@.len() == 0,
            final(self).rec(r).collectibles@.len() == 0,
            final(self).rec(r).children@.len() == 0,
    {
        let id = TaskId(self.tasks.len() as u64);
        self.tasks.push(
            TaskRecord {
                kind: TaskType::Transient(task_type),
                dirty: true,
                in_progress: false,
                output: OutputSlot::NotComputed,
                cells: Vec::new(),
                deps: Vec::new(),
                active_deps: Vec::new(),
                collectibles: Vec::new(),
                children: Vec::new(),
            },
        );
        id
    }

    /// Hand out an execution exactly when the task is eligible: dirty and
    /// not already executing. Starting clears the dirty flag, marks the
    /// task in progress and opens a fresh read log.
    pub fn try_start_task_execution(&mut self, task: TaskId) -> (r: Option<TaskExecutionSpec>)
        requires
            old(self).is_task(task),
        ensures
            r is Some <==> (old(self).spec_dirty(task) && !old(self).spec_in_progress(task)),
            match r {
                Some(spec) => spec.task == task && kind_eq(spec.work, old(self).rec(task).kind)
                    && final(self).tasks@.len() == old(self).tasks@.len() && final(self).cache@
                    == old(self).cache@ && (forall|t: TaskId|
                    old(self).is_task(t) && t != task ==> #[trigger] final(self).rec(t) == old(self).rec(t)) && !final(self).rec(task).dirty && final(self).rec(task).in_progress
                    && final(self).rec(task).active_deps@.len() == 0 && final(self).rec(task).kind
                    == old(self).rec(task).kind && final(self).rec(task).output == old(self).rec(task).output && final(self).rec(task).cells == old(self).rec(task).cells
                    && final(self).rec(task).deps == old(self).rec(task).deps && final(self).rec(task).collectibles == old(self).rec(task).collectibles && final(self).rec(task).children == old(self).rec(task).children,
                None => *final(self) == *old(self),
            },
    {
        let ti = task.0 as usize;
        proof {
            assert(self.tasks.len() == self.tasks@.len());
            assert(ti as int == task.0 as int);
        }
        if self.tasks[ti].dirty && !self.tasks[ti].in_progress {
            let work = clone_kind(&self.tasks[ti].kind);
            self.tasks[ti].dirty = false;
            self.tasks[ti].in_progress = true;
            self.tasks[ti].active_deps = Vec::new();
            Some(TaskExecutionSpec { task, work })
        } else {
            None
        }
    }

    /// Record what an execution produced: publish the output, cache a
    /// domain error like an output, or record a panic. A changed output
    /// or error invalidates every tracked reader of the output slot; a
    /// panic invalidates nobody until a new result is published.
    pub fn task_execution_result(&mut self, task: TaskId, result: ExecutionResult)
        requires
            old(self).is_task(task),
        ensures
            final(self).tasks@.len() == old(self).tasks@.len(),
            final(self).cache@ == old(self).cache@,
            final(self).rec(task).output == slot_of(result),
            forall|t: TaskId|
                old(self).is_task(t) && t != task ==> eq_mod_dirty(
                    old(self).rec(t),
                    #[trigger] final(self).rec(t),
                ),
            final(self).rec(task) == (TaskRecord {
                output: slot_of(result),
                dirty: final(self).rec(task).dirty,
                ..old(self).rec(task)
            }),
            if result is Panic || output_slot_eq(slot_of(result), old(self).rec(task).output) {
                forall|t: TaskId|
                    old(self).is_task(t) ==> final(self).spec_dirty(t) == old(self).spec_dirty(t)
            } else {
                forall|t: TaskId|
                    old(self).is_task(t) ==> final(self).spec_dirty(t) == (old(self).spec_dirty(t)
                        || old(self).keyed_invalidates(task, DepKey::Output, t))
            },
    {
        proof {
            assert(self.tasks.len() == self.tasks@.len());
        }
        let ti = task.0 as usize;
        let slot = into_slot(result);
        let is_panic = matches!(slot, OutputSlot::Panicked(_));
        let changed = !slot_eq(&slot, &self.tasks[ti].output);
        if changed && !is_panic {
            self.invalidate_keyed_readers(task, DepKey::Output);
        }
        self.set_output(ti, slot);
    }

    /// Finish an execution: the read log atomically replaces the task's
    /// committed edge set. Returns whether the task was invalidated while
    /// it ran and should re-execute immediately.
    pub fn task_execution_completed(&mut self, task: TaskId, _stateful: bool) -> (r: bool)
        requires
            old(self).is_task(task),
        ensures
            final(self).tasks@.len() == old(self).tasks@.len(),
            final(self).cache@ == old(self).cache@,
            forall|t: TaskId|
                old(self).is_task(t) && t != task ==> #[trigger] final(self).rec(t) == old(self).rec(t),
            final(self).rec(task).deps@ == old(self).rec(task).active_deps@,
            final(self).rec(task).active_deps@.len() == 0,
            !final(self).rec(task).in_progress,
            final(self).rec(task).dirty == old(self).rec(task).dirty,
            final(self).rec(task).kind == old(self).rec(task).kind,
            final(self).rec(task).output == old(self).rec(task).output,
            final(self).rec(task).cells == old(self).rec(task).cells,
            final(self).rec(task).collectibles == old(self).rec(task).collectibles,
            final(self).rec(task).children == old(self).rec(task).children,
            r == old(self).rec(task).dirty,
    {
        proof {
            assert(self.tasks.len() == self.tasks@.len());
        }
        let ti = task.0 as usize;
        let mut log: Vec<Dependency> = Vec::new();
        core::mem::swap(&mut log, &mut self.tasks[ti].active_deps);
        self.tasks[ti].deps = log;
        self.tasks[ti].in_progress = false;
        self.tasks[ti].dirty
    }
}

/// The output slot an execution result publishes.
pub open spec fn slot_of(result: ExecutionResult) -> OutputSlot {
    match result {
        ExecutionResult::Completed(v) => OutputSlot::Done(v),
        ExecutionResult::Error(m) => OutputSlot::Failed(m),
        ExecutionResult::Panic(m) => OutputSlot::Panicked(m),
    }
}

/// Turn an execution result into the output slot it publishes.
fn into_slot(result: ExecutionResult) -> (r: OutputSlot)
    ensures
        r == slot_of(result),
{
    match result {
        ExecutionResult::Completed(v) => OutputSlot::Done(v),
        ExecutionResult::Error(m) => OutputSlot::Failed(m),
        ExecutionResult::Panic(m) => OutputSlot::Panicked(m),
    }
}

/// Deep equality test on output slots.
fn slot_eq(a: &OutputSlot, b: &OutputSlot) -> (r: bool)
    ensures
        r == output_slot_eq(*a, *b),
{
    match a {
        OutputSlot::NotComputed => {
            let r = matches!(b, OutputSlot::NotComputed);
            return r;
        },
        OutputSlot::Done(v) => match b {
            OutputSlot::Done(w) => {
                let r = *v == *w;
                return r;
            },
            _ => return false,
        },
        OutputSlot::Failed(m) => match b {
            OutputSlot::Failed(n) => {
                let r = *m == *n;
                return r;
            },
            _ => return false,
        },
        OutputSlot::Panicked(m) => match b {
            OutputSlot::Panicked(n) => match (m, n) {
                (None, None) => return true,
                (Some(x), Some(y)) => {
                    let r = *x == *y;
                    return r;
                },
                _ => return false,
            },
            _ => return false,
        },
    }
}

/// Dependency extends along one more tracked edge.
proof fn lemma_depends_step(s: MemoryBackend, from: TaskId, mid: TaskId, dep: TaskId)
    requires
        s.depends_on(from, mid),
        s.depends_on_step(mid, dep),
    ensures
        s.depends_on(from, dep),
{
    let n = choose|n: nat| s.depends_n(from, mid, n);
    assert(s.depends_n(from, dep, n + 1)) by {
        assert(s.depends_via(from, dep, n)) by {
            assert(s.depends_n(from, mid, n) && s.depends_on_step(mid, dep));
        }
    }
}

/// A set of marks closed under outgoing tracked edges contains every
/// task the marked start depends on.
proof fn lemma_closed_forward(
    s: MemoryBackend,
    vis: Seq<bool>,
    from: TaskId,
    dep: TaskId,
    n: nat,
)
    requires
        vis.len() == s.tasks@.len(),
        s.is_task(from),
        vis[from.0 as int],
        forall|u: TaskId, d: TaskId|
            s.is_task(u) && vis[u.0 as int] && #[trigger] s.depends_on_step(u, d) && s.is_task(d)
                ==> vis[d.0 as int],
        s.depends_n(from, dep, n),
        s.is_task(dep),
    ensures
        vis[dep.0 as int],
    decreases n,
{
    if n == 0 {
    } else {
        assert(s.depends_via(from, dep, (n - 1) as nat));
        let m = choose|m: TaskId|
            s.depends_n(from, m, (n - 1) as nat) && #[trigger] s.depends_on_step(m, dep);
        lemma_closed_forward(s, vis, from, m, (n - 1) as nat);
    }
}

/// First cell entry matching the id, if any.
fn find_cell(cells: &Vec<(CellId, CellContent)>, c: CellId) -> (r: Option<CellContent>)
    ensures
        r == cell_lookup(cells@, c),
{
    let mut i: usize = 0;
    proof {
        assert(cells@.skip(0) =~= cells@);
    }
    while i < cells.len()
        invariant
            i <= cells@.len(),
            cell_lookup(cells@.skip(i as int), c) == cell_lookup(cells@, c),
        decreases cells@.len() - i,
    {
        proof {
            assert(cells@.skip(i as int)[0] == cells@[i as int]);
            assert(cells@.skip(i as int).drop_first() =~= cells@.skip(i + 1 as int));
        }
        if cells[i].0 == c {
            return Some(cells[i].1);
        }
        i += 1;
    }
    proof {
        assert(cells@.skip(cells@.len() as int) =~= Seq::<(CellId, CellContent)>::empty());
    }
    None
}

impl MemoryBackend {
    /// The valid targets of a task's committed edges.
    fn dep_targets(&self, of: TaskId) -> (r: Vec<TaskId>)
        requires
            self.is_task(of),
        ensures
            forall|k: int| 0 <= k < r@.len() ==> self.is_task(#[trigger] r@[k]),
            forall|k: int| 0 <= k < r@.len() ==> self.depends_on_step(of, #[trigger] r@[k]),
            forall|d: TaskId|
                #[trigger] self.depends_on_step(of, d) && self.is_task(d) ==> r@.contains(d),
    {
        let oi = of.0 as usize;
        proof {
            assert(self.tasks.len() == self.tasks@.len());
        }
        let deps = &self.tasks[oi].deps;
        let n = self.tasks.len();
        let mut r: Vec<TaskId> = Vec::new();
        let mut i: usize = 0;
        while i < deps.len()
            invariant
                i <= deps@.len(),
                deps@ == self.rec(of).deps@,
                self.is_task(of),
                n == self.tasks@.len(),
                forall|k: int| 0 <= k < r@.len() ==> self.is_task(#[trigger] r@[k]),
                forall|k: int|
                    0 <= k < r@.len() ==> exists|j: int|
                        0 <= j < deps@.len() && deps@[j].source == #[trigger] r@[k],
                forall|j: int|
                    0 <= j < i && (#[trigger] deps@[j].source).0 < n ==> r@.contains(
                        deps@[j].source,
                    ),
            decreases deps@.len() - i,
        {
            let d = deps[i].source;
            let ghost r_pre = r@;
            let mut hit = false;
            if d.0 < n as u64 {
                r.push(d);
                hit = true;
            }
            proof {
                assert forall|x: TaskId| r_pre.contains(x) implies r@.contains(x) by {
                    let j = choose|j: int| 0 <= j < r_pre.len() && r_pre[j] == x;
                    assert(r@[j] == x);
                }
                if hit {
                    assert(r@[r@.len() - 1] == d);
                    assert(exists|j: int|
                        0 <= j < deps@.len() && deps@[j].source == d) by {
                        assert(deps@[i as int].source == d);
                    }
                }
            }
            i += 1;
        }
        proof {
            assert forall|d: TaskId|
                #[trigger] self.depends_on_step(of, d) && self.is_task(d) implies r@.contains(
                d,
            ) by {
                let j = choose|j: int|
                    0 <= j < self.rec(of).deps@.len() && self.rec(of).deps@[j].source == d;
                assert(deps@[j].source == d && d.0 < n);
            }
        }
        r
    }

    /// Whether some transitive tracked dependency of the task is dirty or
    /// still executing: the strong-consistency settledness check.
    fn has_unsettled_dependency(&self, from: TaskId) -> (r: bool)
        requires
            self.is_task(from),
        ensures
            r == self.has_unsettled_dep(from),
    {
        let n = self.tasks.len();
        let mut vis: Vec<bool> = vec![false; n];
        let mut wl: Vec<TaskId> = Vec::new();
        wl.push(from);
        proof {
            assert(self.depends_n(from, from, 0));
            assert(wl@[0] == from);
        }
        while wl.len() > 0
            invariant
                self.is_task(from),
                n == self.tasks@.len(),
                vis@.len() == n,
                forall|i: int|
                    0 <= i < n && #[trigger] vis@[i] ==> self.depends_on(from, TaskId(i as u64)),
                forall|j: int|
                    0 <= j < wl@.len() ==> self.is_task(#[trigger] wl@[j]) && self.depends_on(
                        from,
                        wl@[j],
                    ),
                vis@[from.0 as int] || wl@.contains(from),
                forall|u: TaskId, d: TaskId|
                    self.is_task(u) && vis@[u.0 as int] && #[trigger] self.depends_on_step(u, d)
                        && self.is_task(d) ==> vis@[d.0 as int] || wl@.contains(d),
            decreases count_false(vis@), wl@.len(),
        {
            let ghost wl_pre = wl@;
            let t = wl.pop().unwrap();
            proof {
                assert(wl_pre[wl_pre.len() - 1] == t);
                assert forall|x: TaskId| wl_pre.contains(x) implies x == t || wl@.contains(x) by {
                    let j = choose|j: int| 0 <= j < wl_pre.len() && wl_pre[j] == x;
                    if j < wl_pre.len() - 1 {
                        assert(wl@[j] == x);
                    }
                }
            }
            let ti = t.0 as usize;
            if !vis[ti] {
                let ghost vis_pre = vis@;
                vis[ti] = true;
                proof {
                    lemma_count_false_update(vis_pre, ti as int);
                }
                let mut targets = self.dep_targets(t);
                let ghost rd = targets@;
                let ghost wl_mid = wl@;
                wl.append(&mut targets);
                proof {
                    assert(wl@ == wl_mid + rd);
                    assert forall|x: TaskId| wl_mid.contains(x) implies wl@.contains(x) by {
                        let j = choose|j: int| 0 <= j < wl_mid.len() && wl_mid[j] == x;
                        assert(wl@[j] == x);
                    }
                    assert forall|x: TaskId| rd.contains(x) implies wl@.contains(x) by {
                        let j = choose|j: int| 0 <= j < rd.len() && rd[j] == x;
                        assert(wl@[wl_mid.len() + j] == x);
                    }
                    assert forall|d: TaskId|
                        #[trigger] self.depends_on_step(t, d) && self.is_task(d) implies wl
                        @.contains(d) by {
                        assert(rd.contains(d));
                    }
                    assert forall|j: int| 0 <= j < rd.len() implies self.is_task(#[trigger] rd[j])
                        && self.depends_on(from, rd[j]) by {
                        lemma_depends_step(*self, from, t, rd[j]);
                    }
                }
            }
            proof {
                assert(vis@[t.0 as int]);
                assert forall|x: TaskId| wl_pre.contains(x) implies vis@[x.0 as int]
                    || wl@.contains(x) by {
                    let j = choose|j: int| 0 <= j < wl_pre.len() && wl_pre[j] == x;
                    if j < wl_pre.len() - 1 {
                        assert(wl@[j] == wl_pre[j]);
                        assert(wl@.contains(x));
                    } else {
                        assert(x == t);
                    }
                }
            }
        }
        proof {
            assert forall|d: TaskId|
                #[trigger] self.depends_on(from, d) && self.is_task(d) implies vis@[d.0 as int] by {
                let n2 = choose|n2: nat| self.depends_n(from, d, n2);
                lemma_closed_forward(*self, vis@, from, d, n2);
            }
        }
        let mut i: usize = 0;
        while i < n
            invariant
                n == self.tasks@.len(),
                vis@.len() == n,
                forall|i2: int|
                    0 <= i2 < n && #[trigger] vis@[i2] ==> self.depends_on(from, TaskId(i2 as u64)),
                forall|d: TaskId|
                    #[trigger] self.depends_on(from, d) && self.is_task(d) ==> vis@[d.0 as int],
                forall|i2: int|
                    0 <= i2 < i ==> !(vis@[i2] && ((#[trigger] self.tasks@[i2]).dirty
                        || self.tasks@[i2].in_progress)),
            decreases n - i,
        {
            if vis[i] && (self.tasks[i].dirty || self.tasks[i].in_progress) {
                proof {
                    let d = TaskId(i as u64);
                    assert(self.depends_on(from, d) && (self.spec_dirty(d)
                        || self.spec_in_progress(d)));
                }
                return true;
            }
            i += 1;
        }
        proof {
            assert forall|d: TaskId|
                #[trigger] self.depends_on(from, d) implies !(self.spec_dirty(d)
                || self.spec_in_progress(d)) by {
                if self.is_task(d) {
                    assert(vis@[d.0 as int]);
                    assert(!(self.tasks@[d.0 as int].dirty || self.tasks@[d.0 as int].in_progress));
                }
            }
        }
        false
    }

    /// Read the task's output without registering any dependency: the
    /// same value a tracked read sees, with no edge left behind.
    pub fn try_read_task_output_untracked(&self, task: TaskId, strongly_consistent: bool) -> (r:
        Result<Result<RawVc, EventListener>, EngineError>)
        requires
            self.is_task(task),
        ensures
            r == self.output_read(task, strongly_consistent),
    {
        let ti = task.0 as usize;
        proof {
            assert(self.tasks.len() == self.tasks@.len());
        }
        if self.tasks[ti].dirty || self.tasks[ti].in_progress {
            return Ok(Err(EventListener { task }));
        }
        if strongly_consistent && self.has_unsettled_dependency(task) {
            return Ok(Err(EventListener { task }));
        }
        match &self.tasks[ti].output {
            OutputSlot::NotComputed => Ok(Err(EventListener { task })),
            OutputSlot::Done(v) => Ok(Ok(*v)),
            OutputSlot::Failed(m) => Err(EngineError::TaskError { message: m.clone() }),
            OutputSlot::Panicked(m) => Err(
                EngineError::TaskPanicked {
                    message: match m {
                        Some(x) => Some(x.clone()),
                        None => None,
                    },
                },
            ),
        }
    }

    /// Read the task's output and register an output dependency edge for
    /// the executing reader.
    pub fn try_read_task_output(
        &mut self,
        task: TaskId,
        reader: TaskId,
        strongly_consistent: bool,
    ) -> (r: Result<Result<RawVc, EventListener>, EngineError>)
        requires
            old(self).is_task(task),
            old(self).is_task(reader),
            old(self).spec_in_progress(reader),
        ensures
            r == old(self).output_read(task, strongly_consistent),
            final(self).tasks@.len() == old(self).tasks@.len(),
            final(self).cache@ == old(self).cache@,
            forall|t: TaskId|
                old(self).is_task(t) && t != reader ==> #[trigger] final(self).rec(t) == old(
                    self,
                ).rec(t),
            final(self).rec(reader).active_deps@ == old(self).rec(reader).active_deps@.push(
                Dependency { source: task, key: DepKey::Output },
            ),
            final(self).rec(reader) == (TaskRecord {
                active_deps: final(self).rec(reader).active_deps,
                ..old(self).rec(reader)
            }),
    {
        let result = self.try_read_task_output_untracked(task, strongly_consistent);
        proof {
            assert(self.tasks.len() == self.tasks@.len());
        }
        let ri = reader.0 as usize;
        self.tasks[ri].active_deps.push(Dependency { source: task, key: DepKey::Output });
        result
    }

    /// Read one cell without registering any dependency. An unwritten
    /// cell hands back a listener for the producing task.
    pub fn try_read_task_cell_untracked(&self, task: TaskId, index: CellId) -> (r: Result<
        CellContent,
        EventListener,
    >)
        requires
            self.is_task(task),
        ensures
            r == match self.spec_cell(task, index) {
                Some(c) => Ok::<CellContent, EventListener>(c),
                None => Err::<CellContent, EventListener>(EventListener { task }),
            },
    {
        let ti = task.0 as usize;
        proof {
            assert(self.tasks.len() == self.tasks@.len());
        }
        match find_cell(&self.tasks[ti].cells, index) {
            Some(c) => Ok(c),
            None => Err(EventListener { task }),
        }
    }

    /// Read one cell and register a cell dependency edge for the
    /// executing reader.
    pub fn try_read_task_cell(&mut self, task: TaskId, index: CellId, reader: TaskId) -> (r: Result<
        CellContent,
        EventListener,
    >)
        requires
            old(self).is_task(task),
            old(self).is_task(reader),
            old(self).spec_in_progress(reader),
        ensures
            r == match old(self).spec_cell(task, index) {
                Some(c) => Ok::<CellContent, EventListener>(c),
                None => Err::<CellContent, EventListener>(EventListener { task }),
            },
            final(self).tasks@.len() == old(self).tasks@.len(),
            final(self).cache@ == old(self).cache@,
            forall|t: TaskId|
                old(self).is_task(t) && t != reader ==> #[trigger] final(self).rec(t) == old(
                    self,
                ).rec(t),
            final(self).rec(reader).active_deps@ == old(self).rec(reader).active_deps@.push(
                Dependency { source: task, key: DepKey::Cell(index) },
            ),
            final(self).rec(reader) == (TaskRecord {
                active_deps: final(self).rec(reader).active_deps,
                ..old(self).rec(reader)
            }),
    {
        let result = self.try_read_task_cell_untracked(task, index);
        proof {
            assert(self.tasks.len() == self.tasks@.len());
        }
        let ri = reader.0 as usize;
        self.tasks[ri].active_deps.push(Dependency { source: task, key: DepKey::Cell(index) });
        result
    }

    /// Read one of the current task's own cells; never blocks, a missing
    /// cell reads as empty content.
    pub fn try_read_own_task_cell_untracked(&self, current_task: TaskId, index: CellId) -> (r:
        CellContent)
        requires
            self.is_task(current_task),
        ensures
            r == match self.spec_cell(current_task, index) {
                Some(c) => c,
                None => CellContent(None::<crate::vc::SharedReference>),
            },
    {
        match self.try_read_task_cell_untracked(current_task, index) {
            Ok(content) => content,
            Err(_) => CellContent(None),
        }
    }

    /// Atomically publish one cell. A content change invalidates every
    /// tracked reader of exactly that cell.
    pub fn update_task_cell(&mut self, task: TaskId, index: CellId, content: CellContent)
        requires
            old(self).is_task(task),
        ensures
            final(self).tasks@.len() == old(self).tasks@.len(),
            final(self).cache@ == old(self).cache@,
            final(self).spec_cell(task, index) == Some(content),
            forall|c2: CellId|
                c2 != index ==> #[trigger] final(self).spec_cell(task, c2) == old(self).spec_cell(
                    task,
                    c2,
                ),
            forall|t: TaskId|
                old(self).is_task(t) && t != task ==> eq_mod_dirty(
                    old(self).rec(t),
                    #[trigger] final(self).rec(t),
                ),
            final(self).rec(task) == (TaskRecord {
                cells: final(self).rec(task).cells,
                dirty: final(self).rec(task).dirty,
                ..old(self).rec(task)
            }),
            if old(self).spec_cell(task, index) == Some(content) {
                forall|t: TaskId|
                    old(self).is_task(t) ==> final(self).spec_dirty(t) == old(self).spec_dirty(t)
            } else {
                forall|t: TaskId|
                    old(self).is_task(t) ==> final(self).spec_dirty(t) == (old(self).spec_dirty(t)
                        || old(self).keyed_invalidates(task, DepKey::Cell(index), t))
            },
    {
        proof {
            assert(self.tasks.len() == self.tasks@.len());
        }
        let ti = task.0 as usize;
        let changed = match find_cell(&self.tasks[ti].cells, index) {
            Some(c) => !(c == content),
            None => true,
        };
        if changed {
            self.invalidate_keyed_readers(task, DepKey::Cell(index));
        }
        proof {
            assert(self.tasks.len() == self.tasks@.len());
        }
        self.tasks[ti].cells.insert(0, (index, content));
        proof {
            assert(self.rec(task).cells@.drop_first() =~= old(self).rec(task).cells@);
            assert(cell_lookup(self.rec(task).cells@, index) == Some(content));
            assert forall|c2: CellId| c2 != index implies cell_lookup(self.rec(task).cells@, c2)
                == cell_lookup(old(self).rec(task).cells@, c2) by {
                assert(self.rec(task).cells@[0].0 != c2);
            }
        }
    }

    /// Add one `(trait, item)` tag to the task's collectible multiset and
    /// invalidate every tracked reader of that trait's collectible set.
    pub fn emit_collectible(&mut self, trait_type: TraitTypeId, collectible: RawVc, task: TaskId)
        requires
            old(self).is_task(task),
        ensures
            final(self).tasks@.len() == old(self).tasks@.len(),
            final(self).cache@ == old(self).cache@,
            final(self).spec_collectibles(task) == old(self).spec_collectibles(task).insert(
                (trait_type, collectible),
            ),
            forall|t: TaskId|
                old(self).is_task(t) && t != task ==> eq_mod_dirty(
                    old(self).rec(t),
                    #[trigger] final(self).rec(t),
                ),
            final(self).rec(task) == (TaskRecord {
                collectibles: final(self).rec(task).collectibles,
                dirty: final(self).rec(task).dirty,
                ..old(self).rec(task)
            }),
            forall|t: TaskId|
                old(self).is_task(t) ==> final(self).spec_dirty(t) == (old(self).spec_dirty(t)
                    || old(self).keyed_invalidates(task, DepKey::Collectibles(trait_type), t)),
    {
        proof {
            assert(self.tasks.len() == self.tasks@.len());
        }
        self.invalidate_keyed_readers(task, DepKey::Collectibles(trait_type));
        let ti = task.0 as usize;
        let ghost before = self.rec(task).collectibles@;
        self.tasks[ti].collectibles.push((trait_type, collectible));
        proof {
            before.to_multiset_ensures();
            assert(self.rec(task).collectibles@ == before.push((trait_type, collectible)));
        }
    }

    /// Remove one occurrence of a `(trait, item)` tag, if present, and
    /// invalidate every tracked reader of that trait's collectible set.
    /// Removing an absent tag changes nothing.
    pub fn unemit_collectible(&mut self, trait_type: TraitTypeId, collectible: RawVc, task: TaskId)
        requires
            old(self).is_task(task),
        ensures
            final(self).tasks@.len() == old(self).tasks@.len(),
            final(self).cache@ == old(self).cache@,
            forall|t: TaskId|
                old(self).is_task(t) && t != task ==> eq_mod_dirty(
                    old(self).rec(t),
                    #[trigger] final(self).rec(t),
                ),
            final(self).rec(task) == (TaskRecord {
                collectibles: final(self).rec(task).collectibles,
                dirty: final(self).rec(task).dirty,
                ..old(self).rec(task)
            }),
            if old(self).spec_collectibles(task).count((trait_type, collectible)) > 0 {
                final(self).spec_collectibles(task) == old(self).spec_collectibles(task).remove(
                    (trait_type, collectible),
                ) && (forall|t: TaskId|
                    old(self).is_task(t) ==> final(self).spec_dirty(t) == (old(self).spec_dirty(t)
                        || old(self).keyed_invalidates(task, DepKey::Collectibles(trait_type), t)))
            } else {
                final(self).spec_collectibles(task) == old(self).spec_collectibles(task) && (forall|
                    t: TaskId,
                |
                    old(self).is_task(t) ==> final(self).spec_dirty(t) == old(self).spec_dirty(t))
            },
    {
        proof {
            assert(self.tasks.len() == self.tasks@.len());
        }
        let ti = task.0 as usize;
        let pair = (trait_type, collectible);
        let ghost before = self.rec(task).collectibles@;
        let mut j: usize = 0;
        let mut found: Option<usize> = None;
        let items_len = self.tasks[ti].collectibles.len();
        while j < items_len
            invariant_except_break
                found is None,
                forall|k: int| 0 <= k < j ==> self.rec(task).collectibles@[k] != pair,
            invariant
                j <= items_len,
                items_len == self.rec(task).collectibles@.len(),
                self.is_task(task),
                ti as int == task.0 as int,
                ti < self.tasks@.len(),
                pair == (trait_type, collectible),
            ensures
                match found {
                    Some(fj) => fj < items_len && self.rec(task).collectibles@[fj as int] == pair,
                    None => forall|k: int|
                        0 <= k < items_len ==> self.rec(task).collectibles@[k] != pair,
                },
            decreases items_len - j,
        {
            if self.tasks[ti].collectibles[j].0 == trait_type && self.tasks[ti].collectibles[j].1
                == collectible {
                found = Some(j);
                break;
            }
            j += 1;
        }
        proof {
            before.to_multiset_ensures();
        }
        match found {
            Some(fj) => {
                self.invalidate_keyed_readers(task, DepKey::Collectibles(trait_type));
                proof {
                    assert(self.tasks.len() == self.tasks@.len());
                }
                self.tasks[ti].collectibles.remove(fj);
                proof {
                    assert(self.rec(task).collectibles@ == before.remove(fj as int));
                    assert(before.to_multiset().count(pair) > 0) by {
                        assert(before.contains(pair)) by {
                            assert(before[fj as int] == pair);
                        }
                    }
                }
            },
            None => {
                proof {
                    assert(!before.contains(pair));
                    assert(before.to_multiset().count(pair) == 0);
                }
            },
        }
    }

    /// The distinct items emitted under one trait by the task, and a
    /// collectible-set dependency edge for the executing reader.
    pub fn read_task_collectibles(&mut self, task: TaskId, trait_id: TraitTypeId, reader: TaskId)
        -> (r: Vec<RawVc>)
        requires
            old(self).is_task(task),
            old(self).is_task(reader),
            old(self).spec_in_progress(reader),
        ensures
            forall|v: RawVc|
                #[trigger] r@.contains(v) <==> old(self).spec_collectibles(task).count(
                    (trait_id, v),
                ) > 0,
            final(self).tasks@.len() == old(self).tasks@.len(),
            final(self).cache@ == old(self).cache@,
            forall|t: TaskId|
                old(self).is_task(t) && t != reader ==> #[trigger] final(self).rec(t) == old(
                    self,
                ).rec(t),
            final(self).rec(reader).active_deps@ == old(self).rec(reader).active_deps@.push(
                Dependency { source: task, key: DepKey::Collectibles(trait_id) },
            ),
            final(self).rec(reader) == (TaskRecord {
                active_deps: final(self).rec(reader).active_deps,
                ..old(self).rec(reader)
            }),
    {
        proof {
            assert(self.tasks.len() == self.tasks@.len());
        }
        let ti = task.0 as usize;
        let ghost items = self.rec(task).collectibles@;
        let mut r: Vec<RawVc> = Vec::new();
        let mut i: usize = 0;
        let items_len = self.tasks[ti].collectibles.len();
        while i < items_len
            invariant
                i <= items_len,
                self.is_task(task),
                ti as int == task.0 as int,
                ti < self.tasks@.len(),
                items == self.rec(task).collectibles@,
                items_len == items.len(),
                forall|v: RawVc|
                    #[trigger] r@.contains(v) <==> exists|k: int|
                        0 <= k < i && items[k] == (trait_id, v),
            decreases items_len - i,
        {
            let entry = self.tasks[ti].collectibles[i];
            let ghost r_pre = r@;
            if entry.0 == trait_id && !vec_contains_vc(&r, entry.1) {
                r.push(entry.1);
            }
            proof {
                assert forall|v: RawVc| #[trigger] r@.contains(v) implies exists|k: int|
                    0 <= k < i + 1 && items[k] == (trait_id, v) by {
                    if r_pre.contains(v) {
                    } else {
                        let j2 = choose|j2: int| 0 <= j2 < r@.len() && r@[j2] == v;
                        assert(v == entry.1);
                        assert(items[i as int] == (trait_id, v));
                    }
                }
                assert forall|v: RawVc| (exists|k: int|
                    0 <= k < i + 1 && items[k] == (trait_id, v)) implies r@.contains(v) by {
                    let k = choose|k: int| 0 <= k < i + 1 && items[k] == (trait_id, v);
                    if k < i {
                        assert(r_pre.contains(v));
                        let j2 = choose|j2: int| 0 <= j2 < r_pre.len() && r_pre[j2] == v;
                        assert(r@[j2] == v);
                    } else {
                        assert(entry == (trait_id, v));
                        if r_pre.contains(v) {
                            let j2 = choose|j2: int| 0 <= j2 < r_pre.len() && r_pre[j2] == v;
                            assert(r@[j2] == v);
                        } else {
                            assert(r@[r@.len() - 1] == v);
                        }
                    }
                }
            }
            i += 1;
        }
        proof {
            items.to_multiset_ensures();
            assert forall|v: RawVc| #[trigger] r@.contains(v) implies items.to_multiset().count(
                (trait_id, v),
            ) > 0 by {
                let k = choose|k: int| 0 <= k < items.len() && items[k] == (trait_id, v);
                assert(items.contains((trait_id, v)));
            }
            assert forall|v: RawVc| items.to_multiset().count((trait_id, v)) > 0 implies r
                @.contains(v) by {
                assert(items.contains((trait_id, v)));
                let k = choose|k: int| 0 <= k < items.len() && items[k] == (trait_id, v);
            }
        }
        let ri = reader.0 as usize;
        self.tasks[ri].active_deps.push(
            Dependency { source: task, key: DepKey::Collectibles(trait_id) },
        );
        r
    }

    /// A hint that the task reached steady state; the model records
    /// nothing for it.
    pub fn mark_own_task_as_finished(&mut self, _task: TaskId)
        ensures
            *final(self) == *old(self),
    {
    }
}

/// Whether the vector holds this handle.
fn vec_contains_vc(v: &Vec<RawVc>, x: RawVc) -> (r: bool)
    ensures
        r == v@.contains(x),
{
    let mut i: usize = 0;
    while i < v.len()
        invariant
            i <= v@.len(),
            forall|j: int| 0 <= j < i ==> v@[j] != x,
        decreases v@.len() - i,
    {
        if v[i] == x {
            proof {
                assert(v@[i as int] == x);
            }
            return true;
        }
        i += 1;
    }
    false
}

impl PersistentTaskType {
    /// The human-readable name of the task: the registered function's
    /// name for native and resolve-native tasks, `Trait::method` for
    /// trait resolution.
    pub fn describe(&self, reg: &Registry) -> (r: String)
        requires
            self matches PersistentTaskType::Native(f, _) ==> reg.valid_function(*f),
            self matches PersistentTaskType::ResolveNative(f, _) ==> reg.valid_function(*f),
            self matches PersistentTaskType::ResolveTrait(t, _, _) ==> reg.valid_trait(*t),
        ensures
            match *self {
                PersistentTaskType::Native(f, _) => r@ == reg.functions@[f.0 as int].name@,
                PersistentTaskType::ResolveNative(f, _) => r@ == reg.functions@[f.0 as int].name@,
                PersistentTaskType::ResolveTrait(t, name, _) => r@ == reg.traits@[t.0 as int].name@
                    + "::"@ + name@,
            },
    {
        match self {
            PersistentTaskType::Native(f, _) => reg.functions[f.0 as usize].name.clone(),
            PersistentTaskType::ResolveNative(f, _) => reg.functions[f.0 as usize].name.clone(),
            PersistentTaskType::ResolveTrait(t, name, _) => {
                let mut s = reg.traits[t.0 as usize].name.clone();
                s.append("::");
                s.append(name.as_str());
                s
            },
        }
    }
}

impl MemoryBackend {
    /// A human-readable description of any task id; total, also over ids
    /// this backend never issued.
    pub fn get_task_description(&self, task: TaskId, reg: &Registry) -> (r: String) {
        proof {
            assert(self.tasks.len() == self.tasks@.len());
        }
        if task.0 >= self.tasks.len() as u64 {
            return String::from_str("unknown task");
        }
        let ti = task.0 as usize;
        match &self.tasks[ti].kind {
            TaskType::Transient(TransientTaskType::Root) => String::from_str("root task"),
            TaskType::Transient(TransientTaskType::Once) => String::from_str("once task"),
            TaskType::Persistent(p) => {
                let valid = match p {
                    PersistentTaskType::Native(f, _) => (f.0 as usize) < reg.functions.len(),
                    PersistentTaskType::ResolveNative(f, _) => (f.0 as usize)
                        < reg.functions.len(),
                    PersistentTaskType::ResolveTrait(t, _, _) => (t.0 as usize)
                        < reg.traits.len(),
                };
                if valid {
                    p.describe(reg)
                } else {
                    String::from_str("unknown task")
                }
            },
        }
    }
}

impl MemoryBackend {
    /// Startup lifecycle hook; the in-memory backend needs no work here.
    pub fn startup(&mut self)
        ensures
            *final(self) == *old(self),
    {
    }

    /// Shutdown lifecycle hook; transient tasks simply end with the
    /// session that owns this value.
    pub fn stop(&mut self)
        ensures
            *final(self) == *old(self),
    {
    }

    /// Idle notification hook; the in-memory backend schedules no
    /// background maintenance.
    pub fn idle_start(&mut self)
        ensures
            *final(self) == *old(self),
    {
    }
}

} // verus!
