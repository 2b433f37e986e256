use waw::cache::ComponentCache;
use waw::value::NativeValue;
use waw::workflow::{RawInput, RawStep, Workflow, WorkflowError};
use waw::workflow_engine::{
    run_report, Execution, StepAction, StepEvent, WorkflowEngine, WorkflowEngineError,
};

fn raw_step(function: &str, wasm: &str, inputs: Vec<(&str, &str)>) -> RawStep {
    RawStep {
        function: function.to_string(),
        wasm: wasm.to_string(),
        inputs: inputs
            .into_iter()
            .map(|(t, l)| RawInput { ty: t.to_string(), value: l.to_string() })
            .collect(),
    }
}

fn engine_with(paths: &[&str]) -> WorkflowEngine {
    let mut engine = WorkflowEngine::new(wasmtime::Engine::default());
    for p in paths {
        engine
            .load_from_bytes(p.to_string(), b"(component)")
            .expect("an empty component must compile");
    }
    engine
}

#[test]
fn cache_loads_each_path_once() {
    let mut cache: ComponentCache<u32> = ComponentCache::new();
    let mut loads: u32 = 0;
    for path in ["a.wasm", "a.wasm", "b.wasm", "a.wasm"] {
        let key = path.to_string();
        if !cache.contains(&key) {
            loads += 1;
            cache.insert(key, loads);
        }
    }
    assert_eq!(loads, 2);
    assert_eq!(cache.get(&"a.wasm".to_string()), Some(&1));
    assert_eq!(cache.get(&"b.wasm".to_string()), Some(&2));
    assert_eq!(cache.get(&"c.wasm".to_string()), None);
}

#[test]
fn plan_lists_each_missing_path_once() {
    let w = Workflow::new(vec![
        raw_step("f", "a.wasm", vec![]),
        raw_step("g", "a.wasm", vec![]),
        raw_step("h", "b.wasm", vec![]),
    ])
    .unwrap();
    let engine = WorkflowEngine::new(wasmtime::Engine::default());
    let plan = engine.missing_paths(&w);
    assert_eq!(plan, vec!["a.wasm".to_string(), "b.wasm".to_string()]);
}

#[test]
fn plan_skips_loaded_paths() {
    let w = Workflow::new(vec![
        raw_step("f", "a.wasm", vec![]),
        raw_step("g", "b.wasm", vec![]),
    ])
    .unwrap();
    let engine = engine_with(&["a.wasm"]);
    let plan = engine.missing_paths(&w);
    assert_eq!(plan, vec!["b.wasm".to_string()]);
    assert!(engine.has_component(&"a.wasm".to_string()));
    assert!(!engine.has_component(&"b.wasm".to_string()));
}

#[test]
fn loading_twice_reads_once() {
    let w = Workflow::new(vec![
        raw_step("f", "a.wasm", vec![]),
        raw_step("g", "a.wasm", vec![]),
    ])
    .unwrap();
    let mut engine = WorkflowEngine::new(wasmtime::Engine::default());
    let mut reads: usize = 0;
    for path in engine.missing_paths(&w) {
        reads += 1;
        engine.load_from_bytes(path, b"(component)").unwrap();
    }
    assert_eq!(reads, 1);
    // loading an already-cached path is a no-op, not a second read: even
    // invalid bytes are accepted, since nothing is re-verified
    engine.load_from_bytes("a.wasm".to_string(), b"(component)").unwrap();
    engine.load_from_bytes("a.wasm".to_string(), b"changed file contents").unwrap();
    assert!(engine.missing_paths(&w).is_empty());
}

#[test]
fn invalid_artifact_is_rejected() {
    let mut engine = WorkflowEngine::new(wasmtime::Engine::default());
    let err = engine
        .load_from_bytes("bad.wasm".to_string(), b"not a component")
        .unwrap_err();
    match err {
        WorkflowEngineError::ArtifactVerification { path, .. } => assert_eq!(path, "bad.wasm"),
        _ => panic!("expected an artifact verification error"),
    }
    assert!(!engine.has_component(&"bad.wasm".to_string()));
}

#[test]
fn empty_workflow_reports_no_result() {
    let w = Workflow::new(vec![]).unwrap();
    let engine = WorkflowEngine::new(wasmtime::Engine::default());
    let ex = Execution::new(w);
    assert!(ex.is_finished());
    match ex.next_action(&engine).unwrap() {
        StepAction::Finish => {}
        _ => panic!("an empty workflow must finish at once"),
    }
    let result = ex.into_result();
    assert_eq!(result, None);
    assert_eq!(run_report(&result), "no result");
}

#[test]
fn add_step_reports_sum() {
    let w = Workflow::new(vec![raw_step(
        "add",
        "adder.wasm",
        vec![("s32", "5"), ("s32", "3")],
    )])
    .unwrap();
    let engine = engine_with(&["adder.wasm"]);
    let mut ex = Execution::new(w);
    assert!(!ex.is_finished());
    let (a, b) = match ex.next_action(&engine).unwrap() {
        StepAction::Invoke { wasm, function, args } => {
            assert_eq!(wasm, "adder.wasm");
            assert_eq!(function, "add");
            assert_eq!(args, vec![NativeValue::S32(5), NativeValue::S32(3)]);
            match (&args[0], &args[1]) {
                (NativeValue::S32(a), NativeValue::S32(b)) => (*a, *b),
                _ => unreachable!(),
            }
        }
        _ => panic!("expected an invocation"),
    };
    // stand in for a component whose export adds its two arguments
    ex.apply_event(StepEvent::Returned { results: vec![NativeValue::S32(a + b)] })
        .unwrap();
    assert!(ex.is_finished());
    match ex.next_action(&engine).unwrap() {
        StepAction::Finish => {}
        _ => panic!("the single step must be done"),
    }
    assert_eq!(run_report(&ex.into_result()), "8");
}

#[test]
fn out_of_range_literal_fails_before_any_call() {
    let w = Workflow::new(vec![raw_step("f", "a.wasm", vec![("s8", "200")])]).unwrap();
    let engine = engine_with(&["a.wasm"]);
    let ex = Execution::new(w);
    match ex.next_action(&engine).unwrap_err() {
        WorkflowEngineError::ValueParse { step, arg } => {
            assert_eq!(step, 0);
            assert_eq!(arg, 0);
        }
        _ => panic!("expected a value parse error"),
    }
}

#[test]
fn missing_component_is_named() {
    let w = Workflow::new(vec![raw_step("f", "ghost.wasm", vec![])]).unwrap();
    let engine = WorkflowEngine::new(wasmtime::Engine::default());
    let ex = Execution::new(w);
    match ex.next_action(&engine).unwrap_err() {
        WorkflowEngineError::ComponentNotFound(p) => assert_eq!(p, "ghost.wasm"),
        _ => panic!("expected a component-not-found error"),
    }
}

#[test]
fn missing_function_in_second_step_keeps_first_result() {
    let w = Workflow::new(vec![
        raw_step("go", "a.wasm", vec![]),
        raw_step("absent", "a.wasm", vec![]),
    ])
    .unwrap();
    let engine = engine_with(&["a.wasm"]);
    let mut ex = Execution::new(w);
    match ex.next_action(&engine).unwrap() {
        StepAction::Invoke { function, .. } => assert_eq!(function, "go"),
        _ => panic!("expected the first invocation"),
    }
    ex.apply_event(StepEvent::Returned { results: vec![NativeValue::S32(1)] })
        .unwrap();
    match ex.next_action(&engine).unwrap() {
        StepAction::Invoke { function, .. } => assert_eq!(function, "absent"),
        _ => panic!("expected the second invocation"),
    }
    let err = ex
        .apply_event(StepEvent::FunctionMissing)
        .unwrap_err();
    match err {
        WorkflowEngineError::FunctionNotFound(f) => assert_eq!(f, "absent"),
        _ => panic!("expected a function-not-found error"),
    }
    // the completed first step is not rolled back by the later failure
    assert_eq!(ex.into_result(), Some(NativeValue::S32(1)));
}

#[test]
fn same_path_instantiates_per_step() {
    let w = Workflow::new(vec![
        raw_step("f", "a.wasm", vec![]),
        raw_step("g", "a.wasm", vec![]),
    ])
    .unwrap();
    let mut engine = WorkflowEngine::new(wasmtime::Engine::default());
    let plan = engine.missing_paths(&w);
    assert_eq!(plan.len(), 1);
    for p in plan {
        engine.load_from_bytes(p, b"(component)").unwrap();
    }
    let mut ex = Execution::new(w);
    let mut invocations = 0;
    loop {
        match ex.next_action(&engine).unwrap() {
            StepAction::Invoke { wasm, .. } => {
                assert_eq!(wasm, "a.wasm");
                invocations += 1;
                ex.apply_event(StepEvent::Returned { results: vec![] }).unwrap();
            }
            StepAction::Finish => break,
        }
    }
    assert_eq!(invocations, 2);
    assert_eq!(run_report(&ex.into_result()), "no result");
}

#[test]
fn trap_and_host_failures_are_distinct() {
    let w = Workflow::new(vec![raw_step("f", "a.wasm", vec![])]).unwrap();
    let engine = engine_with(&["a.wasm"]);
    let mut ex = Execution::new(w);
    assert!(matches!(ex.next_action(&engine), Ok(StepAction::Invoke { .. })));
    let err = ex
        .apply_event(StepEvent::Trapped { detail: "division by zero".to_string() })
        .unwrap_err();
    assert!(matches!(err, WorkflowEngineError::CallTrap(_)));

    let w2 = Workflow::new(vec![raw_step("f", "a.wasm", vec![])]).unwrap();
    let mut ex2 = Execution::new(w2);
    assert!(matches!(ex2.next_action(&engine), Ok(StepAction::Invoke { .. })));
    let err2 = ex2
        .apply_event(StepEvent::HostFailed { detail: "capability closed".to_string() })
        .unwrap_err();
    assert!(matches!(err2, WorkflowEngineError::HostCapability(_)));
}

#[test]
fn unrecognized_type_tag_fails_loading() {
    let err = Workflow::new(vec![
        raw_step("f", "a.wasm", vec![("s32", "1")]),
        raw_step("g", "a.wasm", vec![("s32", "1"), ("i32", "2")]),
    ])
    .unwrap_err();
    match err {
        WorkflowError::ManifestType { step, arg, tag } => {
            assert_eq!(step, 1);
            assert_eq!(arg, 1);
            assert_eq!(tag, "i32");
        }
        _ => panic!("expected a manifest type error"),
    }
}
