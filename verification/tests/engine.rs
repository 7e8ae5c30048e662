use turbo_tasks_backend::TaskId;
use turbo_tasks_backend::backend::{DepKey, ExecutionResult, MemoryBackend, OutputSlot};
use turbo_tasks_backend::error::EngineError;
use turbo_tasks_backend::ids::{CellId, ValueTypeId};
use turbo_tasks_backend::registry::Registry;
use turbo_tasks_backend::resolve::{Resolution, TaskStep};
use turbo_tasks_backend::task::{PersistentTaskType, TaskInput, TransientTaskType};
use turbo_tasks_backend::vc::{CellContent, RawVc, SharedReference};

fn int_cell() -> CellId {
    CellId { type_id: ValueTypeId(0), index: 0 }
}

fn int_content(v: i64) -> CellContent {
    CellContent(Some(SharedReference(Some(ValueTypeId(0)), v)))
}

/// Run one full execution of `task`, writing `value` into its first cell
/// and publishing that cell as the output.
fn run_to_value(backend: &mut MemoryBackend, task: TaskId, value: i64) {
    let spec = backend.try_start_task_execution(task).expect("task should be eligible");
    assert_eq!(spec.task, task);
    backend.update_task_cell(task, int_cell(), int_content(value));
    backend.task_execution_result(
        task,
        ExecutionResult::Completed(RawVc::TaskCell(task, int_cell())),
    );
    let rerun = backend.task_execution_completed(task, false);
    assert!(!rerun);
}

fn read_resolved_value(backend: &MemoryBackend, task: TaskId) -> i64 {
    let vc = match backend.try_read_task_output_untracked(task, false) {
        Ok(Ok(vc)) => vc,
        other => panic!("expected a value, got {:?}", other.is_ok()),
    };
    let cell_vc = match backend.resolve(vc) {
        Resolution::Done(c) => c,
        _ => panic!("expected resolution to finish"),
    };
    let (t, c) = match cell_vc {
        RawVc::TaskCell(t, c) => (t, c),
        _ => panic!("resolution must end at a cell"),
    };
    let content = backend.try_read_task_cell_untracked(t, c).expect("cell must be written");
    content.cast(ValueTypeId(0)).expect("typed cell").value
}

#[test]
fn native_add_task_produces_three() {
    let mut reg = Registry::new();
    let add = reg.register_function("add".to_string());
    let mut backend = MemoryBackend::new();
    let root = backend.create_transient_task(TransientTaskType::Root);
    let ty = PersistentTaskType::Native(
        add,
        vec![TaskInput::Literal(1), TaskInput::Literal(2)],
    );
    let t = backend.get_or_create_persistent_task(ty, root);
    // the driver invokes add(1, 2) and reports 3
    run_to_value(&mut backend, t, 3);
    assert_eq!(read_resolved_value(&backend, t), 3);
}

#[test]
fn second_get_or_create_returns_same_task_without_rerun() {
    let mut reg = Registry::new();
    let add = reg.register_function("add".to_string());
    let mut backend = MemoryBackend::new();
    let root = backend.create_transient_task(TransientTaskType::Root);
    let ty1 = PersistentTaskType::Native(
        add,
        vec![TaskInput::Literal(1), TaskInput::Literal(2)],
    );
    let ty2 = PersistentTaskType::Native(
        add,
        vec![TaskInput::Literal(1), TaskInput::Literal(2)],
    );
    let t1 = backend.get_or_create_persistent_task(ty1, root);
    run_to_value(&mut backend, t1, 3);
    let t2 = backend.get_or_create_persistent_task(ty2, root);
    assert_eq!(t1, t2);
    // no re-execution was triggered: the task is clean
    assert!(backend.try_start_task_execution(t2).is_none());
}

#[test]
fn distinct_keys_get_distinct_tasks() {
    let mut reg = Registry::new();
    let add = reg.register_function("add".to_string());
    let mut backend = MemoryBackend::new();
    let root = backend.create_transient_task(TransientTaskType::Root);
    let t1 = backend.get_or_create_persistent_task(
        PersistentTaskType::Native(add, vec![TaskInput::Literal(1)]),
        root,
    );
    let t2 = backend.get_or_create_persistent_task(
        PersistentTaskType::Native(add, vec![TaskInput::Literal(2)]),
        root,
    );
    assert_ne!(t1, t2);
}

#[test]
fn cell_update_marks_tracked_reader_dirty() {
    let mut reg = Registry::new();
    let f = reg.register_function("f".to_string());
    let mut backend = MemoryBackend::new();
    let root = backend.create_transient_task(TransientTaskType::Root);
    let b = backend.get_or_create_persistent_task(
        PersistentTaskType::Native(f, vec![TaskInput::Literal(0)]),
        root,
    );
    run_to_value(&mut backend, b, 10);
    let a = backend.get_or_create_persistent_task(
        PersistentTaskType::Native(f, vec![TaskInput::Literal(1)]),
        root,
    );
    // task A reads B's cell during its execution; the edge commits when
    // A completes
    let spec = backend.try_start_task_execution(a).expect("fresh task is dirty");
    assert_eq!(spec.task, a);
    let content = backend.try_read_task_cell(b, int_cell(), a).expect("cell is written");
    assert_eq!(content.cast(ValueTypeId(0)).unwrap().value, 10);
    backend.task_execution_result(
        a,
        ExecutionResult::Completed(RawVc::TaskCell(a, int_cell())),
    );
    backend.task_execution_completed(a, false);
    assert!(backend.try_start_task_execution(a).is_none());
    // publishing a different value into the read cell dirties A
    backend.update_task_cell(b, int_cell(), int_content(20));
    assert!(backend.try_start_task_execution(a).is_some());
}

#[test]
fn unchanged_cell_update_does_not_invalidate() {
    let mut reg = Registry::new();
    let f = reg.register_function("f".to_string());
    let mut backend = MemoryBackend::new();
    let root = backend.create_transient_task(TransientTaskType::Root);
    let b = backend.get_or_create_persistent_task(
        PersistentTaskType::Native(f, vec![TaskInput::Literal(0)]),
        root,
    );
    run_to_value(&mut backend, b, 10);
    let a = backend.get_or_create_persistent_task(
        PersistentTaskType::Native(f, vec![TaskInput::Literal(1)]),
        root,
    );
    backend.try_start_task_execution(a).unwrap();
    backend.try_read_task_cell(b, int_cell(), a).unwrap();
    backend.task_execution_result(
        a,
        ExecutionResult::Completed(RawVc::TaskCell(a, int_cell())),
    );
    backend.task_execution_completed(a, false);
    // writing the same value again invalidates nobody
    backend.update_task_cell(b, int_cell(), int_content(10));
    assert!(backend.try_start_task_execution(a).is_none());
}

#[test]
fn untracked_read_does_not_propagate_invalidation() {
    let mut reg = Registry::new();
    let f = reg.register_function("f".to_string());
    let mut backend = MemoryBackend::new();
    let root = backend.create_transient_task(TransientTaskType::Root);
    let b = backend.get_or_create_persistent_task(
        PersistentTaskType::Native(f, vec![TaskInput::Literal(0)]),
        root,
    );
    run_to_value(&mut backend, b, 10);
    let a = backend.get_or_create_persistent_task(
        PersistentTaskType::Native(f, vec![TaskInput::Literal(1)]),
        root,
    );
    backend.try_start_task_execution(a).unwrap();
    // untracked read: no edge is recorded
    let out = backend.try_read_task_output_untracked(b, false);
    assert!(matches!(out, Ok(Ok(_))));
    backend.task_execution_result(
        a,
        ExecutionResult::Completed(RawVc::TaskCell(a, int_cell())),
    );
    backend.task_execution_completed(a, false);
    backend.invalidate_task(b);
    // A stays clean
    assert!(backend.try_start_task_execution(a).is_none());
}

#[test]
fn strongly_consistent_read_waits_for_dirty_dependency() {
    let mut reg = Registry::new();
    let f = reg.register_function("f".to_string());
    let mut backend = MemoryBackend::new();
    let root = backend.create_transient_task(TransientTaskType::Root);
    let b = backend.get_or_create_persistent_task(
        PersistentTaskType::Native(f, vec![TaskInput::Literal(0)]),
        root,
    );
    run_to_value(&mut backend, b, 10);
    // B goes dirty only after A committed its edge to B
    let a = backend.get_or_create_persistent_task(
        PersistentTaskType::Native(f, vec![TaskInput::Literal(1)]),
        root,
    );
    backend.try_start_task_execution(a).unwrap();
    backend.invalidate_task(b);
    backend.try_read_task_cell(b, int_cell(), a).unwrap();
    backend.task_execution_result(
        a,
        ExecutionResult::Completed(RawVc::TaskCell(a, int_cell())),
    );
    backend.task_execution_completed(a, false);
    // plain read of A succeeds, the strongly consistent one waits on the
    // dirty transitive dependency
    assert!(matches!(backend.try_read_task_output_untracked(a, false), Ok(Ok(_))));
    assert!(matches!(backend.try_read_task_output_untracked(a, true), Ok(Err(_))));
}

#[test]
fn root_is_rescheduled_after_dependency_invalidation() {
    let mut reg = Registry::new();
    let f = reg.register_function("f".to_string());
    let mut backend = MemoryBackend::new();
    let root = backend.create_transient_task(TransientTaskType::Root);
    let p = backend.get_or_create_persistent_task(
        PersistentTaskType::Native(f, vec![TaskInput::Literal(0)]),
        root,
    );
    run_to_value(&mut backend, p, 1);
    // the root runs, reading the persistent task's output
    let spec = backend.try_start_task_execution(root).expect("root is initially dirty");
    assert_eq!(spec.task, root);
    let vc = match backend.try_read_task_output(p, root, false) {
        Ok(Ok(vc)) => vc,
        _ => panic!("persistent task has settled"),
    };
    backend.task_execution_result(root, ExecutionResult::Completed(vc));
    backend.task_execution_completed(root, false);
    assert!(backend.try_start_task_execution(root).is_none());
    // invalidating the persistent task re-schedules the root
    backend.invalidate_task(p);
    run_to_value(&mut backend, p, 2);
    let spec = backend.try_start_task_execution(root).expect("root must be re-scheduled");
    assert_eq!(spec.task, root);
    let vc = match backend.try_read_task_output(p, root, false) {
        Ok(Ok(vc)) => vc,
        _ => panic!("persistent task has settled again"),
    };
    backend.task_execution_result(root, ExecutionResult::Completed(vc));
    backend.task_execution_completed(root, false);
    // after quiescence the root's output resolves to the new value
    assert_eq!(read_resolved_value(&backend, root), 2);
}

#[test]
fn emit_then_unemit_leaves_collectibles_empty() {
    let mut reg = Registry::new();
    let f = reg.register_function("f".to_string());
    let tr = reg.register_trait("Tag".to_string());
    let mut backend = MemoryBackend::new();
    let root = backend.create_transient_task(TransientTaskType::Root);
    let t = backend.get_or_create_persistent_task(
        PersistentTaskType::Native(f, vec![TaskInput::Literal(0)]),
        root,
    );
    run_to_value(&mut backend, t, 1);
    let item = RawVc::TaskCell(t, int_cell());
    backend.emit_collectible(tr, item, t);
    backend.unemit_collectible(tr, item, t);
    // reading the collectibles needs an executing reader
    let reader = backend.create_transient_task(TransientTaskType::Once);
    backend.try_start_task_execution(reader).unwrap();
    let set = backend.read_task_collectibles(t, tr, reader);
    assert!(set.is_empty());
}

#[test]
fn emitted_collectible_is_readable_and_invalidates_readers() {
    let mut reg = Registry::new();
    let f = reg.register_function("f".to_string());
    let tr = reg.register_trait("Tag".to_string());
    let mut backend = MemoryBackend::new();
    let root = backend.create_transient_task(TransientTaskType::Root);
    let t = backend.get_or_create_persistent_task(
        PersistentTaskType::Native(f, vec![TaskInput::Literal(0)]),
        root,
    );
    run_to_value(&mut backend, t, 1);
    let item = RawVc::TaskCell(t, int_cell());
    backend.emit_collectible(tr, item, t);
    let reader = backend.create_transient_task(TransientTaskType::Once);
    backend.try_start_task_execution(reader).unwrap();
    let set = backend.read_task_collectibles(t, tr, reader);
    assert_eq!(set, vec![item]);
    backend.task_execution_result(
        reader,
        ExecutionResult::Completed(RawVc::TaskCell(t, int_cell())),
    );
    backend.task_execution_completed(reader, false);
    assert!(backend.try_start_task_execution(reader).is_none());
    // a second emission invalidates the committed collectible reader
    backend.emit_collectible(tr, RawVc::TaskOutput(t), t);
    assert!(backend.try_start_task_execution(reader).is_some());
}

#[test]
fn resolve_is_idempotent() {
    let mut reg = Registry::new();
    let f = reg.register_function("f".to_string());
    let mut backend = MemoryBackend::new();
    let root = backend.create_transient_task(TransientTaskType::Root);
    let t = backend.get_or_create_persistent_task(
        PersistentTaskType::Native(f, vec![TaskInput::Literal(0)]),
        root,
    );
    run_to_value(&mut backend, t, 7);
    let once = match backend.resolve(RawVc::TaskOutput(t)) {
        Resolution::Done(c) => c,
        _ => panic!("resolution should finish"),
    };
    let twice = match backend.resolve(once) {
        Resolution::Done(c) => c,
        _ => panic!("resolving a cell handle finishes immediately"),
    };
    assert_eq!(once, twice);
    assert_eq!(once, RawVc::TaskCell(t, int_cell()));
}

#[test]
fn resolve_detects_cycles() {
    let mut backend = MemoryBackend::new();
    let a = backend.create_transient_task(TransientTaskType::Once);
    let b = backend.create_transient_task(TransientTaskType::Once);
    backend.try_start_task_execution(a).unwrap();
    backend.task_execution_result(a, ExecutionResult::Completed(RawVc::TaskOutput(b)));
    backend.task_execution_completed(a, false);
    backend.try_start_task_execution(b).unwrap();
    backend.task_execution_result(b, ExecutionResult::Completed(RawVc::TaskOutput(a)));
    backend.task_execution_completed(b, false);
    match backend.resolve(RawVc::TaskOutput(a)) {
        Resolution::Fail(EngineError::CycleDetected) => {},
        _ => panic!("a resolve loop must surface as a cycle error"),
    }
}

#[test]
fn failed_task_serves_its_error_to_readers() {
    let mut backend = MemoryBackend::new();
    let t = backend.create_transient_task(TransientTaskType::Once);
    backend.try_start_task_execution(t).unwrap();
    backend.task_execution_result(t, ExecutionResult::Error("boom".to_string()));
    backend.task_execution_completed(t, false);
    match backend.try_read_task_output_untracked(t, false) {
        Err(EngineError::TaskError { message }) => assert_eq!(message, "boom"),
        _ => panic!("the retained error must be served"),
    }
}

#[test]
fn panicked_task_does_not_invalidate_readers() {
    let mut reg = Registry::new();
    let f = reg.register_function("f".to_string());
    let mut backend = MemoryBackend::new();
    let root = backend.create_transient_task(TransientTaskType::Root);
    let b = backend.get_or_create_persistent_task(
        PersistentTaskType::Native(f, vec![TaskInput::Literal(0)]),
        root,
    );
    run_to_value(&mut backend, b, 10);
    let a = backend.get_or_create_persistent_task(
        PersistentTaskType::Native(f, vec![TaskInput::Literal(1)]),
        root,
    );
    backend.try_start_task_execution(a).unwrap();
    backend.try_read_task_output(b, a, false).unwrap().unwrap();
    backend.task_execution_result(
        a,
        ExecutionResult::Completed(RawVc::TaskCell(a, int_cell())),
    );
    backend.task_execution_completed(a, false);
    // B is re-run and crashes: readers are not invalidated by the panic
    backend.invalidate_task(b);
    // A is dirty from the invalidation; complete one A run to settle it
    assert!(backend.try_start_task_execution(a).is_some());
    backend.task_execution_result(
        a,
        ExecutionResult::Completed(RawVc::TaskCell(a, int_cell())),
    );
    backend.task_execution_completed(a, false);
    backend.try_start_task_execution(b).unwrap();
    backend.task_execution_result(
        b,
        ExecutionResult::Panic(Some("crash".to_string())),
    );
    backend.task_execution_completed(b, false);
    assert!(backend.try_start_task_execution(a).is_none());
    match backend.try_read_task_output_untracked(b, false) {
        Err(EngineError::TaskPanicked { message }) => assert_eq!(message.as_deref(), Some("crash")),
        _ => panic!("a panicked task serves the panic to readers"),
    }
}

#[test]
fn completed_execution_requests_rerun_when_invalidated_mid_run() {
    let mut backend = MemoryBackend::new();
    let t = backend.create_transient_task(TransientTaskType::Once);
    backend.try_start_task_execution(t).unwrap();
    backend.invalidate_task(t);
    backend.task_execution_result(t, ExecutionResult::Completed(RawVc::TaskOutput(t)));
    assert!(backend.task_execution_completed(t, true));
}

#[test]
fn task_descriptions_are_total() {
    let mut reg = Registry::new();
    let add = reg.register_function("add".to_string());
    let tr = reg.register_trait("Printable".to_string());
    let mut backend = MemoryBackend::new();
    let root = backend.create_transient_task(TransientTaskType::Root);
    let t = backend.get_or_create_persistent_task(
        PersistentTaskType::Native(add, vec![]),
        root,
    );
    let t2 = backend.get_or_create_persistent_task(
        PersistentTaskType::ResolveTrait(tr, "fmt".to_string(), vec![TaskInput::Literal(0)]),
        root,
    );
    assert_eq!(backend.get_task_description(t, &reg), "add");
    assert_eq!(backend.get_task_description(t2, &reg), "Printable::fmt");
    assert_eq!(backend.get_task_description(root, &reg), "root task");
    assert_eq!(backend.get_task_description(TaskId(999), &reg), "unknown task");
}

#[test]
fn output_slot_and_dep_key_are_plain_values() {
    let slot = OutputSlot::NotComputed;
    assert!(matches!(slot, OutputSlot::NotComputed));
    let key = DepKey::Output;
    assert!(matches!(key, DepKey::Output));
    let step = TaskStep::Wait(TaskId(0));
    assert!(matches!(step, TaskStep::Wait(TaskId(0))));
}

/// Build a backend, run `first_update` and `second_update` in the given
/// order over two settled producers, and hand back the final resolved
/// outputs of both.
fn run_update_schedule(swap: bool) -> (i64, i64) {
    let mut reg = Registry::new();
    let f = reg.register_function("f".to_string());
    let mut backend = MemoryBackend::new();
    let root = backend.create_transient_task(TransientTaskType::Root);
    let x = backend.get_or_create_persistent_task(
        PersistentTaskType::Native(f, vec![TaskInput::Literal(1)]),
        root,
    );
    let y = backend.get_or_create_persistent_task(
        PersistentTaskType::Native(f, vec![TaskInput::Literal(2)]),
        root,
    );
    run_to_value(&mut backend, x, 1);
    run_to_value(&mut backend, y, 2);
    // two independent cell updates, in either interleaving
    if swap {
        backend.update_task_cell(y, int_cell(), int_content(20));
        backend.update_task_cell(x, int_cell(), int_content(10));
    } else {
        backend.update_task_cell(x, int_cell(), int_content(10));
        backend.update_task_cell(y, int_cell(), int_content(20));
    }
    (read_resolved_value(&backend, x), read_resolved_value(&backend, y))
}

#[test]
fn independent_updates_commute() {
    assert_eq!(run_update_schedule(false), run_update_schedule(true));
    assert_eq!(run_update_schedule(false), (10, 20));
}
