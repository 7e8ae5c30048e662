use turbo_tasks_backend::backend::{ExecutionResult, MemoryBackend};
use turbo_tasks_backend::error::EngineError;
use turbo_tasks_backend::ids::{CellId, ValueTypeId};
use turbo_tasks_backend::registry::Registry;
use turbo_tasks_backend::resolve::TaskStep;
use turbo_tasks_backend::task::{PersistentTaskType, TaskInput, TransientTaskType};
use turbo_tasks_backend::vc::{CellContent, RawVc, ReadRef, SharedReference};

fn cell(ty: u32) -> CellId {
    CellId { type_id: ValueTypeId(ty), index: 0 }
}

/// A backend with one settled task whose cell 0 holds a value of type
/// `ty`, published as the task's output.
fn backend_with_value(ty: u32, value: i64) -> (MemoryBackend, RawVc) {
    let mut backend = MemoryBackend::new();
    let t = backend.create_transient_task(TransientTaskType::Once);
    backend.try_start_task_execution(t).unwrap();
    backend.update_task_cell(
        t,
        cell(ty),
        CellContent(Some(SharedReference(Some(ValueTypeId(ty)), value))),
    );
    backend.task_execution_result(
        t,
        ExecutionResult::Completed(RawVc::TaskCell(t, cell(ty))),
    );
    backend.task_execution_completed(t, false);
    (backend, RawVc::TaskOutput(t))
}

#[test]
fn run_native_invokes_the_function_directly() {
    let mut reg = Registry::new();
    let add = reg.register_function("add".to_string());
    let backend = MemoryBackend::new();
    let ty = PersistentTaskType::Native(
        add,
        vec![TaskInput::Literal(1), TaskInput::Literal(2)],
    );
    match ty.run(&backend, &reg) {
        TaskStep::Invoke(f, args) => {
            assert_eq!(f, add);
            assert_eq!(args, vec![TaskInput::Literal(1), TaskInput::Literal(2)]);
        },
        _ => panic!("a native task invokes its function"),
    }
}

#[test]
fn run_resolve_native_resolves_references_to_cells() {
    let mut reg = Registry::new();
    let add = reg.register_function("add".to_string());
    let (backend, output_vc) = backend_with_value(0, 5);
    let producer = match output_vc {
        RawVc::TaskOutput(t) => t,
        _ => unreachable!(),
    };
    let ty = PersistentTaskType::ResolveNative(
        add,
        vec![TaskInput::Reference(output_vc), TaskInput::Literal(2)],
    );
    match ty.run(&backend, &reg) {
        TaskStep::NativeCall(f, resolved) => {
            assert_eq!(f, add);
            assert_eq!(
                resolved,
                vec![
                    TaskInput::Reference(RawVc::TaskCell(producer, cell(0))),
                    TaskInput::Literal(2),
                ]
            );
        },
        _ => panic!("all inputs are settled, the call must be issued"),
    }
}

#[test]
fn run_resolve_native_waits_on_unfinished_producer() {
    let mut reg = Registry::new();
    let add = reg.register_function("add".to_string());
    let mut backend = MemoryBackend::new();
    let t = backend.create_transient_task(TransientTaskType::Once);
    let ty = PersistentTaskType::ResolveNative(
        add,
        vec![TaskInput::Reference(RawVc::TaskOutput(t))],
    );
    match ty.run(&backend, &reg) {
        TaskStep::Wait(w) => assert_eq!(w, t),
        _ => panic!("an unfinished producer blocks resolution"),
    }
}

#[test]
fn resolve_trait_dispatches_to_the_registered_method() {
    let mut reg = Registry::new();
    let fmt_impl = reg.register_function("text_fmt".to_string());
    let printable = reg.register_trait("Printable".to_string());
    let text = reg.register_value_type("Text".to_string(), vec![printable]);
    reg.register_trait_method(text, printable, "fmt".to_string(), fmt_impl);
    let (backend, output_vc) = backend_with_value(text.0, 42);
    let producer = match output_vc {
        RawVc::TaskOutput(t) => t,
        _ => unreachable!(),
    };
    let ty = PersistentTaskType::ResolveTrait(
        printable,
        "fmt".to_string(),
        vec![TaskInput::Reference(output_vc), TaskInput::Literal(1)],
    );
    match ty.run(&backend, &reg) {
        TaskStep::DynamicCall(f, args) => {
            assert_eq!(f, fmt_impl);
            // `self` is resolved, the remaining inputs stay as given
            assert_eq!(
                args,
                vec![
                    TaskInput::Reference(RawVc::TaskCell(producer, cell(text.0))),
                    TaskInput::Literal(1),
                ]
            );
        },
        _ => panic!("the method is implemented and must be dispatched"),
    }
}

#[test]
fn resolve_trait_reports_missing_trait_with_implemented_list() {
    let mut reg = Registry::new();
    let printable = reg.register_trait("Printable".to_string());
    let debuggable = reg.register_trait("Debuggable".to_string());
    // the value's type implements only Debuggable
    let blob = reg.register_value_type("Blob".to_string(), vec![debuggable]);
    let (backend, output_vc) = backend_with_value(blob.0, 0);
    let ty = PersistentTaskType::ResolveTrait(
        printable,
        "fmt".to_string(),
        vec![TaskInput::Reference(output_vc)],
    );
    match ty.run(&backend, &reg) {
        TaskStep::Fail(e @ EngineError::TraitNotImplemented { .. }) => {
            match &e {
                EngineError::TraitNotImplemented { trait_type, implemented } => {
                    assert_eq!(*trait_type, printable);
                    assert_eq!(*implemented, vec![debuggable]);
                },
                _ => unreachable!(),
            }
            // the rendered text enumerates the traits the value's type
            // does implement
            assert_eq!(
                reg.describe_resolve_error("the value", &e),
                "the value doesn't implement Printable (only Debuggable)"
            );
        },
        _ => panic!("the diagnostic must name the implemented traits"),
    }
}

#[test]
fn resolve_trait_reports_missing_method() {
    let mut reg = Registry::new();
    let printable = reg.register_trait("Printable".to_string());
    // the type implements the trait but registers no `fmt` method
    let text = reg.register_value_type("Text".to_string(), vec![printable]);
    let (backend, output_vc) = backend_with_value(text.0, 0);
    let ty = PersistentTaskType::ResolveTrait(
        printable,
        "fmt".to_string(),
        vec![TaskInput::Reference(output_vc)],
    );
    match ty.run(&backend, &reg) {
        TaskStep::Fail(e @ EngineError::MethodMissing { .. }) => {
            match &e {
                EngineError::MethodMissing { trait_type, method } => {
                    assert_eq!(*trait_type, printable);
                    assert_eq!(method, "fmt");
                },
                _ => unreachable!(),
            }
            assert_eq!(
                reg.describe_resolve_error("the value", &e),
                "the value implements trait Printable, but method fmt is missing"
            );
        },
        _ => panic!("the diagnostic must distinguish a missing method"),
    }
}

#[test]
fn resolve_trait_on_untagged_payload_is_untyped() {
    let printable_reg = {
        let mut reg = Registry::new();
        reg.register_trait("Printable".to_string());
        reg
    };
    let mut backend = MemoryBackend::new();
    let t = backend.create_transient_task(TransientTaskType::Once);
    backend.try_start_task_execution(t).unwrap();
    backend.update_task_cell(t, cell(0), CellContent(Some(SharedReference(None, 9))));
    backend.task_execution_result(
        t,
        ExecutionResult::Completed(RawVc::TaskCell(t, cell(0))),
    );
    backend.task_execution_completed(t, false);
    let ty = PersistentTaskType::ResolveTrait(
        turbo_tasks_backend::ids::TraitTypeId(0),
        "fmt".to_string(),
        vec![TaskInput::Reference(RawVc::TaskOutput(t))],
    );
    match ty.run(&backend, &printable_reg) {
        TaskStep::Fail(EngineError::Untyped) => {},
        _ => panic!("an untagged payload cannot dispatch a trait method"),
    }
}

#[test]
fn task_type_accessors_follow_the_inputs() {
    let inputs = vec![TaskInput::Literal(1), TaskInput::Literal(2), TaskInput::Literal(3)];
    let mut ty = PersistentTaskType::ResolveTrait(
        turbo_tasks_backend::ids::TraitTypeId(7),
        "m".to_string(),
        inputs,
    );
    assert_eq!(ty.len(), 3);
    assert!(!ty.is_empty());
    let partial = ty.partial(2);
    assert_eq!(partial.len(), 2);
    match partial {
        PersistentTaskType::ResolveTrait(t, name, v) => {
            assert_eq!(t, turbo_tasks_backend::ids::TraitTypeId(7));
            assert_eq!(name, "m");
            assert_eq!(v, vec![TaskInput::Literal(1), TaskInput::Literal(2)]);
        },
        _ => panic!("partial keeps the variant"),
    }
    ty.shrink_to_fit();
    assert_eq!(ty.len(), 3);
    let empty = PersistentTaskType::Native(turbo_tasks_backend::ids::FunctionId(0), vec![]);
    assert!(empty.is_empty());
    assert_eq!(empty.len(), 0);
}

#[test]
fn cell_content_casts() {
    let empty = CellContent(None);
    assert!(matches!(empty.cast(ValueTypeId(0)), Err(EngineError::CellEmpty)));
    assert!(matches!(empty.cast_trait(), Err(EngineError::CellEmpty)));
    assert!(empty.try_cast(ValueTypeId(0)).is_none());
    let typed = CellContent(Some(SharedReference(Some(ValueTypeId(3)), 11)));
    assert_eq!(
        typed.cast(ValueTypeId(3)).unwrap(),
        ReadRef { type_id: ValueTypeId(3), value: 11 }
    );
    assert!(matches!(typed.cast(ValueTypeId(4)), Err(EngineError::TypeMismatch)));
    assert_eq!(typed.try_cast(ValueTypeId(3)).unwrap().value, 11);
    let tagged = typed.cast_trait().unwrap();
    assert_eq!(tagged.reference, SharedReference(Some(ValueTypeId(3)), 11));
    let untagged = CellContent(Some(SharedReference(None, 5)));
    assert!(matches!(untagged.cast_trait(), Err(EngineError::Untyped)));
    assert_eq!(untagged.cast(ValueTypeId(0)).err().map(|e| matches!(e, EngineError::TypeMismatch)), Some(true));
}
