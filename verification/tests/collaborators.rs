use turbo_engine::chunk::{AvailableAssets, EvaluatableAssets};
use turbo_engine::compile_time::{CompileTimeDefineValue, CompileTimeDefines};
use turbo_engine::erased::Vc;

#[test]
fn evaluatable_assets_build_up() {
    let none = EvaluatableAssets::empty();
    assert!(none.entries.is_empty());
    let one = EvaluatableAssets::one(Vc::Output { task: 4 });
    assert_eq!(one.entries, vec![Vc::Output { task: 4 }]);
    let two = one.with_entry(Vc::Cell { task: 7, index: 0 });
    assert_eq!(
        two.entries,
        vec![Vc::Output { task: 4 }, Vc::Cell { task: 7, index: 0 }]
    );
}

#[test]
fn available_assets_chain() {
    let head = AvailableAssets::new(vec![Vc::Output { task: 0 }]);
    assert!(head.parent.is_none());
    let linked = AvailableAssets::new_normalized(
        Some(Vc::Output { task: 1 }),
        vec![Vc::Output { task: 2 }],
    );
    assert_eq!(linked.parent, Some(Vc::Output { task: 1 }));
    assert_eq!(linked.roots, vec![Vc::Output { task: 2 }]);
}

#[test]
fn compile_time_defines() {
    let mut defines = CompileTimeDefines::empty();
    assert!(defines.entries.is_empty());
    let node_env: Vec<String> = vec!["process".into(), "env".into(), "NODE_ENV".into()];
    defines.define(node_env.clone(), String::from("development").into());
    defines.define(vec!["DEBUG".into()], true.into());
    assert_eq!(defines.entries.len(), 2);
    // redefining a name replaces its binding and keeps names unique
    defines.define(node_env.clone(), String::from("production").into());
    assert_eq!(defines.entries.len(), 2);
    match defines.get(&node_env) {
        Some(CompileTimeDefineValue::Str(v)) => assert_eq!(v, "production"),
        other => panic!("expected the replaced binding, got {:?}", other),
    }
    assert!(defines.get(&vec![String::from("missing")]).is_none());
    let b: CompileTimeDefineValue = true.into();
    assert!(matches!(b, CompileTimeDefineValue::Bool(true)));
    let s: CompileTimeDefineValue = String::from("production").into();
    match s {
        CompileTimeDefineValue::Str(v) => assert_eq!(v, "production"),
        other => panic!("expected a string define, got {:?}", other),
    }
}
