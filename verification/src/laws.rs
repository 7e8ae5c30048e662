//! The engine's cross-cutting guarantees, stated and proved over the
//! backend's specification functions.

use vstd::prelude::*;
use vstd::multiset::Multiset;

use crate::TaskId;
use crate::backend::{
    lemma_invalidates_refl, lemma_invalidates_step, cache_lookup, MemoryBackend,
};
use crate::ids::TraitTypeId;
use crate::task::{type_key_eq, PersistentTaskType};
use crate::vc::RawVc;

verus! {

/// Key-equal task types are interchangeable as cache keys.
proof fn lemma_cache_lookup_key_eq(
    s: Seq<(PersistentTaskType, TaskId)>,
    ty1: PersistentTaskType,
    ty2: PersistentTaskType,
)
    requires
        type_key_eq(ty1, ty2),
    ensures
        cache_lookup(s, ty1) == cache_lookup(s, ty2),
    decreases s.len(),
{
    if s.len() > 0 {
        assert(type_key_eq(s[0].0, ty1) == type_key_eq(s[0].0, ty2));
        lemma_cache_lookup_key_eq(s.drop_first(), ty1, ty2);
    }
}

/// Memoization: once a persistent task is cached under a key, a lookup
/// with any key-equal type yields that same task id. Together with the
/// contract of `get_or_create_persistent_task` — which returns exactly
/// the cached id on a hit and caches the fresh id on a miss — two calls
/// with equal keys return the same `TaskId`.
pub proof fn lemma_memoization(
    s: MemoryBackend,
    ty1: PersistentTaskType,
    ty2: PersistentTaskType,
    t: TaskId,
)
    requires
        type_key_eq(ty1, ty2),
        s.spec_cached(ty1) == Some(t),
    ensures
        s.spec_cached(ty2) == Some(t),
{
    lemma_cache_lookup_key_eq(s.cache@, ty1, ty2);
}

/// Dependency closure: after an invalidation of `leaf`, every task with
/// a tracked edge to `leaf` is dirty. The hypothesis relating `s2` to
/// `s` is exactly what `invalidate_task(leaf)` ensures of its result
/// state.
pub proof fn lemma_dependency_closure(
    s: MemoryBackend,
    s2: MemoryBackend,
    leaf: TaskId,
    reader: TaskId,
)
    requires
        forall|t: TaskId|
            s.is_task(t) ==> (s2.spec_dirty(t) == (s.spec_dirty(t) || s.invalidates(leaf, t))),
        s.is_task(reader),
        s.depends_on_step(reader, leaf),
    ensures
        s2.spec_dirty(reader),
{
    lemma_invalidates_refl(s, leaf);
    lemma_invalidates_step(s, leaf, leaf, reader);
}

/// A task with no tracked edges is not invalidated by anything else:
/// untracked reads leave no edge, so such a reader never reaches the
/// leaf.
pub proof fn lemma_no_edges_not_invalidated(s: MemoryBackend, leaf: TaskId, reader: TaskId)
    requires
        reader != leaf,
        s.is_task(reader),
        s.rec(reader).deps@.len() == 0,
    ensures
        !s.invalidates(leaf, reader),
{
    assert forall|n: nat| !s.invalidates_n(leaf, reader, n) by {
        if n != 0 {
            if s.invalidates_n(leaf, reader, n) {
                assert(s.invalidates_via(leaf, reader, (n - 1) as nat));
                let m = choose|m: TaskId|
                    s.invalidates_n(leaf, m, (n - 1) as nat) && #[trigger] s.depends_on_step(
                        reader,
                        m,
                    );
                let i = choose|i: int|
                    0 <= i < s.rec(reader).deps@.len() && s.rec(reader).deps@[i].source == m;
                assert(false);
            }
        }
    }
}

/// Untracked reads do not propagate: a clean task that reaches the leaf
/// through no tracked edges stays clean across an invalidation of the
/// leaf. The hypothesis relating `s2` to `s` is what
/// `invalidate_task(leaf)` ensures of its result state.
pub proof fn lemma_untracked_reads_do_not_propagate(
    s: MemoryBackend,
    s2: MemoryBackend,
    leaf: TaskId,
    reader: TaskId,
)
    requires
        forall|t: TaskId|
            s.is_task(t) ==> (s2.spec_dirty(t) == (s.spec_dirty(t) || s.invalidates(leaf, t))),
        s.is_task(reader),
        !s.spec_dirty(reader),
        !s.invalidates(leaf, reader),
    ensures
        !s2.spec_dirty(reader),
{
}

/// Strong consistency: a strongly consistent read hands a value out only
/// when every transitive tracked dependency of the task is settled —
/// neither dirty nor executing — at that instant.
pub proof fn lemma_strong_consistency(s: MemoryBackend, task: TaskId, d: TaskId)
    requires
        s.output_read(task, true) matches Ok(res) && res is Ok,
        s.depends_on(task, d),
    ensures
        !s.spec_dirty(d),
        !s.spec_in_progress(d),
{
    if s.spec_dirty(d) || s.spec_in_progress(d) {
        assert(s.has_unsettled_dep(task));
    }
}

/// Collectibles: emitting and then unemitting the same `(trait, item)`
/// tag in a task whose set for that trait was empty leaves it empty.
/// `emit_collectible` ensures the insertion and `unemit_collectible` the
/// removal over `spec_collectibles`.
pub proof fn lemma_emit_unemit_empty(
    ms: Multiset<(TraitTypeId, RawVc)>,
    trait_type: TraitTypeId,
    item: RawVc,
)
    requires
        forall|v: RawVc| ms.count((trait_type, v)) == 0,
    ensures
        forall|v: RawVc|
            ms.insert((trait_type, item)).remove((trait_type, item)).count((trait_type, v)) == 0,
{
    assert forall|v: RawVc|
        ms.insert((trait_type, item)).remove((trait_type, item)).count((trait_type, v)) == 0 by {
        assert(ms.count((trait_type, v)) == 0);
    }
}

} // verus!
