use turbo_engine::erased::{eq_erased, ErasedValue, Tag, Vc};
use turbo_engine::errors::EngineError;
use turbo_engine::task_input::{TaskInput, TransientInstance, TransientValue, Value};

fn round_trips<T: TaskInput + Clone + PartialEq + std::fmt::Debug>(v: T) {
    let erased = v.clone().into_concrete();
    let back = T::try_from_concrete(&erased).unwrap();
    assert_eq!(back, v);
}

#[test]
fn scalar_round_trips() {
    round_trips(true);
    round_trips(false);
    round_trips(0u32);
    round_trips(4_000_000_000u32);
    round_trips(-17i32);
    round_trips(u64::MAX);
    round_trips(usize::MAX);
    round_trips(String::from("hello"));
    round_trips(String::new());
    round_trips(Vc::Output { task: 3 });
    round_trips(Vc::Cell { task: 3, index: 1 });
}

#[test]
fn option_round_trips() {
    round_trips(Option::<u32>::None);
    round_trips(Some(5u32));
    round_trips(Some(Some(5u32)));
    round_trips(Option::<Option<u32>>::Some(None));
    round_trips(Option::<Option<u32>>::None);
}

#[test]
fn list_round_trips() {
    round_trips(Vec::<u32>::new());
    round_trips(vec![1u32, 2, 3]);
    round_trips(vec![String::from("a"), String::from("b")]);
}

#[test]
fn composite_round_trip() {
    // a nested sequence-of-sequences survives erase and narrow intact
    let nested: Vec<Vec<u32>> = vec![vec![1, 2], vec![], vec![3]];
    round_trips(nested.clone());
    let erased = nested.clone().into_concrete();
    let back: Vec<Vec<u32>> = Vec::try_from_concrete(&erased).unwrap();
    assert_eq!(back, nested);
}

#[test]
fn type_safety_bool_through_string() {
    // narrowing an erased boolean through the string contract is a
    // TypeMismatch, never a panic or a silent wrong value
    let erased = true.into_concrete();
    match <String as TaskInput>::try_from_concrete(&erased) {
        Err(EngineError::TypeMismatch { expected, actual }) => {
            assert_eq!(expected, Tag::Str);
            assert_eq!(actual, Tag::Bool);
        }
        other => panic!("expected a type mismatch, got {:?}", other),
    }
}

#[test]
fn type_safety_across_tags() {
    let erased = 7u32.into_concrete();
    assert!(matches!(
        <i32 as TaskInput>::try_from_concrete(&erased),
        Err(EngineError::TypeMismatch { expected: Tag::I32, actual: Tag::U32 })
    ));
    assert!(matches!(
        <Vec<u32> as TaskInput>::try_from_concrete(&erased),
        Err(EngineError::TypeMismatch { expected: Tag::List, actual: Tag::U32 })
    ));
    // a list whose element mismatches reports the element's error
    let erased = vec![String::from("x")].into_concrete();
    assert!(matches!(
        <Vec<u32> as TaskInput>::try_from_concrete(&erased),
        Err(EngineError::TypeMismatch { expected: Tag::U32, actual: Tag::Str })
    ));
}

#[test]
fn shared_value_kinds_stay_distinct() {
    let persisted = Value { type_id: 7, reference: 40 };
    let transient = TransientValue { type_id: 7, reference: 40 };
    let instance = TransientInstance { type_id: 7, reference: 40 };
    let ep = persisted.into_concrete();
    let et = transient.into_concrete();
    let ei = instance.into_concrete();
    assert!(!eq_erased(&ep, &et));
    assert!(!eq_erased(&et, &ei));
    assert_eq!(Value::try_from_concrete(&ep, 7).unwrap(), persisted);
    assert_eq!(TransientValue::try_from_concrete(&et, 7).unwrap(), transient);
    assert_eq!(TransientInstance::try_from_concrete(&ei, 7).unwrap(), instance);
    // the conversions do not conflate the kinds
    assert!(Value::try_from_concrete(&et, 7).is_err());
    assert!(TransientValue::try_from_concrete(&ep, 7).is_err());
    assert!(TransientInstance::try_from_concrete(&ep, 7).is_err());
}

#[test]
fn shared_value_type_id_checked() {
    let persisted = Value { type_id: 7, reference: 40 };
    let erased = persisted.into_concrete();
    match Value::try_from_concrete(&erased, 8) {
        Err(EngineError::TypeMismatch { expected, actual }) => {
            assert_eq!(expected, Tag::Shared);
            assert_eq!(actual, Tag::Shared);
        }
        other => panic!("expected a type mismatch, got {:?}", other),
    }
}

#[test]
fn structural_equality_of_erased_values() {
    // two independently constructed erased values representing the same
    // logical argument are equal
    let a = vec![1u32, 2].into_concrete();
    let b = vec![1u32, 2].into_concrete();
    assert!(eq_erased(&a, &b));
    let c = vec![1u32, 3].into_concrete();
    assert!(!eq_erased(&a, &c));
    assert!(!eq_erased(&ErasedValue::Nothing, &ErasedValue::Bool(false)));
    assert!(eq_erased(
        &ErasedValue::Str(String::from("x")),
        &ErasedValue::Str(String::from("x"))
    ));
}
