use tracing_toolbox::types::{DebugObject, TracedError, TracedValue, TracingLevel};
use tracing_toolbox::values::TracedValues;

#[test]
fn values_keep_insertion_order() {
    let mut values = TracedValues::new();
    assert!(values.is_empty());
    assert_eq!(values.insert("b".to_owned(), TracedValue::Int(1)), None);
    assert_eq!(values.insert("a".to_owned(), TracedValue::Bool(false)), None);
    assert_eq!(values.len(), 2);
    let names: Vec<_> = values.iter().iter().map(|(name, _)| name.as_str()).collect();
    assert_eq!(names, ["b", "a"]);
}

#[test]
fn overwritten_value_keeps_its_place() {
    let mut values = TracedValues::from_iter(vec![
        ("x".to_owned(), TracedValue::UInt(1)),
        ("y".to_owned(), TracedValue::UInt(2)),
    ]);
    let previous = values.insert("x".to_owned(), TracedValue::UInt(3));
    assert_eq!(previous, Some(TracedValue::UInt(1)));
    assert_eq!(values.get("x"), Some(&TracedValue::UInt(3)));
    assert_eq!(*values.index("y"), TracedValue::UInt(2));
    assert_eq!(values.iter()[0].0, "x");
    assert_eq!(values.len(), 2);
    assert_eq!(values.get("z"), None);
}

#[test]
fn extending_values() {
    let mut values = TracedValues::from_iter(vec![("a".to_owned(), TracedValue::Int(1))]);
    values.extend(vec![
        ("b".to_owned(), TracedValue::Int(2)),
        ("a".to_owned(), TracedValue::Int(3)),
        ("b".to_owned(), TracedValue::Int(4)),
    ]);
    let pairs = values.into_inner();
    assert_eq!(
        pairs,
        vec![("a".to_owned(), TracedValue::Int(3)), ("b".to_owned(), TracedValue::Int(4))]
    );
}

#[test]
fn value_accessors() {
    assert_eq!(TracedValue::Bool(true).as_bool(), Some(true));
    assert_eq!(TracedValue::Int(-5).as_int(), Some(-5));
    assert_eq!(TracedValue::UInt(5).as_uint(), Some(5));
    assert_eq!(TracedValue::Int(5).as_uint(), None);
    assert_eq!(TracedValue::Float(1.5_f64.to_bits()).as_float_bits(), Some(1.5_f64.to_bits()));
    assert_eq!(TracedValue::String("s".to_owned()).as_str(), Some("s"));
    let object = TracedValue::debug("Foo { x: 1 }".to_owned());
    assert_eq!(object, TracedValue::Object(DebugObject("Foo { x: 1 }".to_owned())));
    assert_eq!(object.as_debug_str(), Some("Foo { x: 1 }"));
    assert!(object.is_debug("Foo { x: 1 }"));
    assert!(!object.is_debug("Foo"));
    assert_eq!(TracedValue::String("s".to_owned()).as_debug_str(), None);
    let error = TracedError::new("failure".to_owned(), Some(TracedError::new("cause".to_owned(), None)));
    let value = TracedValue::error(error.clone());
    assert_eq!(value, TracedValue::Error(error));
}

#[test]
fn level_verbosity() {
    assert_eq!(TracingLevel::Error.verbosity(), 0);
    assert_eq!(TracingLevel::Trace.verbosity(), 4);
    assert!(TracingLevel::Info.is_at_most(&TracingLevel::Debug));
    assert!(TracingLevel::Info.is_at_most(&TracingLevel::Info));
    assert!(!TracingLevel::Trace.is_at_most(&TracingLevel::Warn));
}

#[test]
fn value_conversions() {
    assert_eq!(TracedValue::from(true), TracedValue::Bool(true));
    assert_eq!(TracedValue::from(-42_i64), TracedValue::Int(-42));
    assert_eq!(TracedValue::from(42_u64), TracedValue::UInt(42));
    assert_eq!(TracedValue::from(i128::MIN), TracedValue::Int(i128::MIN));
    assert_eq!(TracedValue::from(u128::MAX), TracedValue::UInt(u128::MAX));
    assert_eq!(TracedValue::from("s".to_owned()), TracedValue::String("s".to_owned()));
}

#[test]
fn building_values_keeps_first_places_and_last_values() {
    let values = TracedValues::from_iter(vec![
        ("b".to_owned(), TracedValue::Int(1)),
        ("a".to_owned(), TracedValue::Int(2)),
        ("b".to_owned(), TracedValue::Int(3)),
        ("c".to_owned(), TracedValue::Int(4)),
        ("a".to_owned(), TracedValue::Int(5)),
    ]);
    assert_eq!(
        values.into_inner(),
        vec![
            ("b".to_owned(), TracedValue::Int(3)),
            ("a".to_owned(), TracedValue::Int(5)),
            ("c".to_owned(), TracedValue::Int(4)),
        ]
    );
}
