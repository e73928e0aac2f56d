use std::cell::Cell;

use turbo_engine::engine::{BodyStep, Engine, TaskBody, TaskState};
use turbo_engine::erased::{ErasedValue, Vc};
use turbo_engine::errors::EngineError;

const DOUBLE: u64 = 1;
const IDENTITY: u64 = 2;
const SUM_OF_TWO: u64 = 3;
const SELF_READER: u64 = 4;
const ALIAS: u64 = 5;
const PARITY: u64 = 6;
const FOLLOWER: u64 = 7;

/// Test bodies, dispatched by function identifier. Handles read by the
/// bodies are passed through the erased arguments, so a body stays a pure
/// function of its arguments and its read outcomes.
struct Bodies {
    parity_source: Cell<u32>,
}

impl Bodies {
    fn new() -> Bodies {
        Bodies { parity_source: Cell::new(0) }
    }
}

fn arg_u32(args: &[ErasedValue], i: usize) -> u32 {
    match &args[i] {
        ErasedValue::U32(n) => *n,
        other => panic!("expected a number argument, got {:?}", other),
    }
}

fn arg_vc(args: &[ErasedValue], i: usize) -> Vc {
    match &args[i] {
        ErasedValue::Output { task } => Vc::Output { task: *task },
        ErasedValue::Cell { task, index } => Vc::Cell { task: *task, index: *index },
        other => panic!("expected a handle argument, got {:?}", other),
    }
}

fn read_u32(reads: &[Result<ErasedValue, EngineError>], i: usize) -> Result<u32, EngineError> {
    match &reads[i] {
        Ok(ErasedValue::U32(n)) => Ok(*n),
        Ok(other) => panic!("expected a number, got {:?}", other),
        Err(e) => Err(e.clone()),
    }
}

impl TaskBody for Bodies {
    fn step(
        &self,
        function_id: u64,
        args: &Vec<ErasedValue>,
        reads: &Vec<Result<ErasedValue, EngineError>>,
    ) -> BodyStep {
        match function_id {
            DOUBLE => BodyStep::Finish {
                cells: vec![],
                outcome: Ok(ErasedValue::U32(arg_u32(args, 0) * 2)),
            },
            IDENTITY => BodyStep::Finish {
                cells: vec![ErasedValue::U32(arg_u32(args, 0))],
                outcome: Ok(ErasedValue::U32(arg_u32(args, 0))),
            },
            SUM_OF_TWO => {
                if reads.is_empty() {
                    BodyStep::NeedsRead(arg_vc(args, 0))
                } else if reads.len() == 1 {
                    BodyStep::NeedsRead(arg_vc(args, 1))
                } else {
                    let a = read_u32(reads, 0);
                    let b = read_u32(reads, 1);
                    match (a, b) {
                        (Ok(a), Ok(b)) => BodyStep::Finish {
                            cells: vec![],
                            outcome: Ok(ErasedValue::U32(a + b)),
                        },
                        (Err(e), _) | (_, Err(e)) => BodyStep::Finish {
                            cells: vec![],
                            outcome: Err(e),
                        },
                    }
                }
            }
            SELF_READER => {
                if reads.is_empty() {
                    BodyStep::NeedsRead(arg_vc(args, 0))
                } else {
                    match &reads[0] {
                        Ok(v) => BodyStep::Finish {
                            cells: vec![],
                            outcome: Ok(ErasedValue::U32(match v {
                                ErasedValue::U32(n) => *n,
                                _ => 0,
                            })),
                        },
                        Err(e) => BodyStep::Finish {
                            cells: vec![],
                            outcome: Err(e.clone()),
                        },
                    }
                }
            }
            ALIAS => BodyStep::Finish {
                cells: vec![],
                outcome: Ok(match arg_vc(args, 0) {
                    Vc::Output { task } => ErasedValue::Output { task },
                    Vc::Cell { task, index } => ErasedValue::Cell { task, index },
                }),
            },
            PARITY => BodyStep::Finish {
                cells: vec![],
                outcome: Ok(ErasedValue::U32(self.parity_source.get() % 2)),
            },
            FOLLOWER => {
                if reads.is_empty() {
                    BodyStep::NeedsRead(arg_vc(args, 0))
                } else {
                    match read_u32(reads, 0) {
                        Ok(n) => BodyStep::Finish {
                            cells: vec![],
                            outcome: Ok(ErasedValue::U32(n + 100)),
                        },
                        Err(e) => BodyStep::Finish { cells: vec![], outcome: Err(e) },
                    }
                }
            }
            other => panic!("no body registered for function {}", other),
        }
    }
}

fn expect_u32(r: Result<ErasedValue, EngineError>) -> u32 {
    match r {
        Ok(ErasedValue::U32(n)) => n,
        other => panic!("expected a number, got {:?}", other),
    }
}

#[test]
fn double_is_memoized() {
    let bodies = Bodies::new();
    let mut eng = Engine::new();
    eng.register(DOUBLE);
    assert!(eng.is_registered(DOUBLE));
    let vc = eng.call(DOUBLE, vec![ErasedValue::U32(5)]);
    assert_eq!(expect_u32(eng.read(&bodies, vc)), 10);
    // a second call with structurally equal arguments resolves to the same
    // task and does not run the body again
    let vc2 = eng.call(DOUBLE, vec![ErasedValue::U32(5)]);
    assert_eq!(vc, vc2);
    assert_eq!(eng.task_count(), 1);
    assert_eq!(expect_u32(eng.read(&bodies, vc2)), 10);
    assert_eq!(eng.execution_count(0), Some(1));
    // different arguments make a different task
    let vc3 = eng.call(DOUBLE, vec![ErasedValue::U32(6)]);
    assert_ne!(vc, vc3);
    assert_eq!(expect_u32(eng.read(&bodies, vc3)), 12);
}

#[test]
fn fifty_callers_one_execution() {
    let bodies = Bodies::new();
    let mut eng = Engine::new();
    eng.register(DOUBLE);
    let mut handles = Vec::new();
    for _ in 0..50 {
        handles.push(eng.call(DOUBLE, vec![ErasedValue::U32(42)]));
    }
    for vc in handles {
        assert_eq!(expect_u32(eng.read(&bodies, vc)), 84);
    }
    assert_eq!(eng.task_count(), 1);
    assert_eq!(eng.execution_count(0), Some(1));
}

#[test]
fn invalidated_cell_propagates() {
    let bodies = Bodies::new();
    let mut eng = Engine::new();
    eng.register(IDENTITY);
    eng.register(SUM_OF_TWO);
    let f1 = eng.call(IDENTITY, vec![ErasedValue::U32(1)]);
    let f2 = eng.call(IDENTITY, vec![ErasedValue::U32(2)]);
    let g = eng.call(
        SUM_OF_TWO,
        vec![
            match f1 {
                Vc::Output { task } => ErasedValue::Output { task },
                Vc::Cell { task, index } => ErasedValue::Cell { task, index },
            },
            match f2 {
                Vc::Output { task } => ErasedValue::Output { task },
                Vc::Cell { task, index } => ErasedValue::Cell { task, index },
            },
        ],
    );
    assert_eq!(expect_u32(eng.read(&bodies, g)), 3);
    assert_eq!(eng.execution_count(2), Some(1));
    // overwrite the first dependency's output with a new value: the
    // dependent is recomputed on its next demand and sees it
    let t1 = match f1 {
        Vc::Output { task } => task,
        Vc::Cell { task, .. } => task,
    };
    eng.set_output_value(t1, ErasedValue::U32(100)).unwrap();
    assert_eq!(eng.task_state(2), Some(TaskState::Pending));
    assert_eq!(expect_u32(eng.read(&bodies, g)), 102);
    assert_eq!(eng.execution_count(2), Some(2));
}

#[test]
fn equal_output_short_circuit() {
    let bodies = Bodies::new();
    let mut eng = Engine::new();
    eng.register(PARITY);
    eng.register(FOLLOWER);
    let p = eng.call(PARITY, vec![]);
    let f = eng.call(
        FOLLOWER,
        vec![ErasedValue::Output { task: 0 }],
    );
    let _ = p;
    assert_eq!(expect_u32(eng.read(&bodies, f)), 100);
    assert_eq!(eng.execution_count(0), Some(1));
    assert_eq!(eng.execution_count(1), Some(1));
    // the source moves from 0 to 2: the parity task re-runs but produces an
    // equal output, so its dependent is not re-executed
    bodies.parity_source.set(2);
    eng.invalidate_task(0).unwrap();
    assert_eq!(eng.task_state(0), Some(TaskState::Pending));
    assert_eq!(expect_u32(eng.read(&bodies, f)), 100);
    assert_eq!(eng.execution_count(0), Some(2));
    assert_eq!(eng.execution_count(1), Some(1));
    // the source moves to an odd value: the output changes and the
    // dependent is recomputed on the next demand
    bodies.parity_source.set(3);
    eng.invalidate_task(0).unwrap();
    assert_eq!(expect_u32(eng.read(&bodies, f)), 101);
    assert_eq!(eng.execution_count(0), Some(3));
    assert_eq!(eng.execution_count(1), Some(2));
}

#[test]
fn change_propagates_transitively() {
    let bodies = Bodies::new();
    let mut eng = Engine::new();
    eng.register(IDENTITY);
    eng.register(FOLLOWER);
    let a = eng.call(IDENTITY, vec![ErasedValue::U32(7)]);
    let _ = a;
    let b = eng.call(FOLLOWER, vec![ErasedValue::Output { task: 0 }]);
    let _ = b;
    let c = eng.call(FOLLOWER, vec![ErasedValue::Output { task: 1 }]);
    assert_eq!(expect_u32(eng.read(&bodies, c)), 207);
    // a changed leaf value reaches every transitive dependent on demand
    eng.set_output_value(0, ErasedValue::U32(50)).unwrap();
    assert_eq!(expect_u32(eng.read(&bodies, c)), 250);
    assert_eq!(eng.execution_count(1), Some(2));
    assert_eq!(eng.execution_count(2), Some(2));
}

#[test]
fn cycle_is_detected() {
    let bodies = Bodies::new();
    let mut eng = Engine::new();
    eng.register(SELF_READER);
    // the task reads its own pending output: reported, not a hang
    let h = eng.call(SELF_READER, vec![ErasedValue::Output { task: 0 }]);
    match eng.read(&bodies, h) {
        Err(EngineError::CycleDetected) => {}
        other => panic!("expected a detected cycle, got {:?}", other),
    }
}

#[test]
fn output_alias_is_followed_once() {
    let bodies = Bodies::new();
    let mut eng = Engine::new();
    eng.register(DOUBLE);
    eng.register(ALIAS);
    let d = eng.call(DOUBLE, vec![ErasedValue::U32(21)]);
    let _ = d;
    let a = eng.call(ALIAS, vec![ErasedValue::Output { task: 0 }]);
    // the alias's output is a handle; one further indirection reaches the
    // terminal value
    assert_eq!(expect_u32(eng.read(&bodies, a)), 42);
    // an alias to an alias is a misuse and fails rather than loop
    let aa = eng.call(ALIAS, vec![ErasedValue::Output { task: 1 }]);
    match eng.read(&bodies, aa) {
        Err(EngineError::UnknownVariant) => {}
        other => panic!("expected an unrecognized resolution, got {:?}", other),
    }
}

#[test]
fn cells_are_readable_and_settable() {
    let bodies = Bodies::new();
    let mut eng = Engine::new();
    eng.register(IDENTITY);
    let f = eng.call(IDENTITY, vec![ErasedValue::U32(9)]);
    let t = match f {
        Vc::Output { task } => task,
        Vc::Cell { task, .. } => task,
    };
    assert_eq!(expect_u32(eng.read(&bodies, f)), 9);
    // the body wrote one cell, in write order
    assert_eq!(expect_u32(eng.read(&bodies, Vc::Cell { task: t, index: 0 })), 9);
    // a missing cell is not recognized
    match eng.read(&bodies, Vc::Cell { task: t, index: 5 }) {
        Err(EngineError::UnknownVariant) => {}
        other => panic!("expected an unrecognized slot, got {:?}", other),
    }
    // an externally overwritten cell serves the new value
    eng.set_cell_value(t, 0, ErasedValue::U32(33)).unwrap();
    assert_eq!(expect_u32(eng.read(&bodies, Vc::Cell { task: t, index: 0 })), 33);
}

#[test]
fn failure_is_cached_and_forwarded() {
    let bodies = Bodies::new();
    let mut eng = Engine::new();
    eng.register(SELF_READER);
    eng.register(FOLLOWER);
    let h = eng.call(SELF_READER, vec![ErasedValue::Output { task: 0 }]);
    let _ = h;
    let f = eng.call(FOLLOWER, vec![ErasedValue::Output { task: 0 }]);
    // the dependent reads the cached error verbatim
    match eng.read(&bodies, f) {
        Err(EngineError::CycleDetected) => {}
        other => panic!("expected the forwarded cycle error, got {:?}", other),
    }
    assert_eq!(eng.task_state(0), Some(TaskState::Failed));
}

#[test]
fn unknown_handles_are_reported() {
    let bodies = Bodies::new();
    let mut eng = Engine::new();
    match eng.read(&bodies, Vc::Output { task: 3 }) {
        Err(EngineError::UnknownVariant) => {}
        other => panic!("expected an unrecognized handle, got {:?}", other),
    }
    assert!(eng.invalidate_task(0).is_err());
    assert!(eng.set_output_value(0, ErasedValue::Bool(true)).is_err());
    assert_eq!(eng.task_state(0), None);
    assert_eq!(eng.execution_count(0), None);
}
