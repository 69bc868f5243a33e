use merge_rs::MergeError;
use merge_rs::structural::Field;
use merge_rs::structural::FieldId;
use merge_rs::structural::FieldRule;
use merge_rs::structural::Record;
use merge_rs::structural::Value;
use merge_rs::structural::merge_record;
use merge_rs::structural::merge_record_mut;
use std::cell::Cell;

fn named(name: &str, skip: bool, strategy: Option<&str>, value: Value) -> Field {
    Field {
        rule: FieldRule {
            id: FieldId::Named(name.to_string()),
            skip,
            strategy: strategy.map(|s| s.to_string()),
        },
        value,
    }
}

fn pos(i: usize, skip: bool, strategy: Option<&str>, value: Value) -> Field {
    Field {
        rule: FieldRule {
            id: FieldId::Pos(i),
            skip,
            strategy: strategy.map(|s| s.to_string()),
        },
        value,
    }
}

fn resolve(name: &String, a: &Value, b: &Value) -> Result<Value, MergeError> {
    match (name.as_str(), a, b) {
        ("max", Value::Uint(x), Value::Uint(y)) => {
            Ok(Value::Uint(if x < y { *y } else { *x }))
        }
        ("sum", Value::Uint(x), Value::Uint(y)) => Ok(Value::Uint(x + y)),
        ("concat_string", Value::Text(x), Value::Text(y)) => {
            Ok(Value::Text(format!("{}{}", x, y)))
        }
        _ => Err(MergeError::Strategy(name.clone())),
    }
}

fn nested(name: &str, name_len: u64, age: u64) -> Value {
    Value::Rec(Record {
        fields: vec![
            named("name", false, Some("concat_string"), Value::Text(name.to_string())),
            named("name_len", true, None, Value::Uint(name_len)),
            named("age", false, Some("sum"), Value::Uint(age)),
        ],
    })
}

#[test]
fn merge_tests_test_named_structs() {
    let left = Record {
        fields: vec![
            named("id", true, None, Value::Uint(123)),
            named("timestamp", false, Some("max"), Value::Uint(1700265850314)),
            named("person", false, None, nested("A", 1, 22)),
        ],
    };
    let right = Record {
        fields: vec![
            named("id", true, None, Value::Uint(456)),
            named("timestamp", false, Some("max"), Value::Uint(1700265910060)),
            named("person", false, None, nested("BB", 2, 12)),
        ],
    };
    let actual = merge_record(&resolve, &left, &right).expect("merge should be successful");
    assert_eq!(actual.fields[0].value, Value::Uint(123));
    assert_eq!(actual.fields[1].value, Value::Uint(1700265910060));
    assert_eq!(actual.fields[2].value, nested("ABB", 1, 34));
}

#[test]
fn merge_tests_test_unit_structs() {
    let left = Record { fields: vec![] };
    let right = Record { fields: vec![] };
    let _actual = merge_record(&resolve, &left, &right).expect("merge should be successful");
}

#[test]
fn merge_tests_test_tuple_struct() {
    let left = Record {
        fields: vec![
            pos(0, true, None, Value::Uint(789)),
            pos(1, false, Some("max"), Value::Uint(1700319581526)),
            pos(2, false, None, nested("C", 1, 5)),
        ],
    };
    let right = Record {
        fields: vec![
            pos(0, true, None, Value::Uint(987)),
            pos(1, false, Some("max"), Value::Uint(1700319612124)),
            pos(2, false, None, nested("DD", 2, 65)),
        ],
    };
    let actual = merge_record(&resolve, &left, &right).expect("merge should be successful");
    assert_eq!(actual.fields[0].value, Value::Uint(789));
    assert_eq!(actual.fields[1].value, Value::Uint(1700319612124));
    assert_eq!(actual.fields[2].value, nested("CDD", 1, 70));
}

#[test]
fn merge_mut_tests_test_named_structs() {
    let mut left = Record {
        fields: vec![
            named("id", true, None, Value::Uint(123)),
            named("timestamp", false, Some("max"), Value::Uint(1700265850314)),
            named("person", false, None, nested("A", 1, 22)),
        ],
    };
    let right = Record {
        fields: vec![
            named("id", true, None, Value::Uint(456)),
            named("timestamp", false, Some("max"), Value::Uint(1700265910060)),
            named("person", false, None, nested("BB", 2, 12)),
        ],
    };
    merge_record_mut(&resolve, &mut left, &right).expect("merge should be successful");
    assert_eq!(left.fields[0].value, Value::Uint(123));
    assert_eq!(left.fields[1].value, Value::Uint(1700265910060));
    assert_eq!(left.fields[2].value, nested("ABB", 1, 34));
}

#[test]
fn merge_mut_tests_test_unit_structs() {
    let mut left = Record { fields: vec![] };
    let right = Record { fields: vec![] };
    merge_record_mut(&resolve, &mut left, &right).expect("merge should be successful");
}

#[test]
fn merge_mut_tests_test_tuple_struct() {
    let mut left = Record {
        fields: vec![
            pos(0, true, None, Value::Uint(789)),
            pos(1, false, Some("max"), Value::Uint(1700319581526)),
            pos(2, false, None, nested("C", 1, 5)),
        ],
    };
    let right = Record {
        fields: vec![
            pos(0, true, None, Value::Uint(987)),
            pos(1, false, Some("max"), Value::Uint(1700319612124)),
            pos(2, false, None, nested("DD", 2, 65)),
        ],
    };
    merge_record_mut(&resolve, &mut left, &right).expect("merge should be successful");
    assert_eq!(left.fields[0].value, Value::Uint(789));
    assert_eq!(left.fields[1].value, Value::Uint(1700319612124));
    assert_eq!(left.fields[2].value, nested("CDD", 1, 70));
}

#[test]
fn test_scalar_without_strategy_is_not_mergeable() {
    let left = Record { fields: vec![named("port", false, None, Value::Uint(80))] };
    let right = Record { fields: vec![named("port", false, None, Value::Uint(8080))] };
    let actual = merge_record(&resolve, &left, &right);
    assert_eq!(actual, Err(MergeError::NotMergeable));
}

#[test]
fn test_unknown_strategy_reports_its_name() {
    let left = Record { fields: vec![named("port", false, Some("pick"), Value::Uint(80))] };
    let right = Record { fields: vec![named("port", false, Some("pick"), Value::Uint(8080))] };
    let actual = merge_record(&resolve, &left, &right);
    assert_eq!(actual, Err(MergeError::Strategy("pick".to_string())));
}

#[test]
fn test_fail_fast_skips_later_fields() {
    let calls = Cell::new(0u32);
    let probe = |name: &String, a: &Value, b: &Value| -> Result<Value, MergeError> {
        calls.set(calls.get() + 1);
        if name.as_str() == "boom" {
            Err(MergeError::Strategy("boom".to_string()))
        } else {
            resolve(name, a, b)
        }
    };
    let left = Record {
        fields: vec![
            named("a", false, Some("sum"), Value::Uint(1)),
            named("b", false, Some("boom"), Value::Uint(2)),
            named("c", false, Some("sum"), Value::Uint(3)),
        ],
    };
    let right = Record {
        fields: vec![
            named("a", false, Some("sum"), Value::Uint(10)),
            named("b", false, Some("boom"), Value::Uint(20)),
            named("c", false, Some("sum"), Value::Uint(30)),
        ],
    };
    let actual = merge_record(&probe, &left, &right);
    assert_eq!(actual, Err(MergeError::Strategy("boom".to_string())));
    assert_eq!(calls.get(), 2);
}

#[test]
fn test_skipped_field_never_reaches_the_strategy() {
    let calls = Cell::new(0u32);
    let probe = |name: &String, a: &Value, b: &Value| -> Result<Value, MergeError> {
        calls.set(calls.get() + 1);
        resolve(name, a, b)
    };
    let left = Record { fields: vec![named("id", true, Some("sum"), Value::Uint(7))] };
    let right = Record { fields: vec![named("id", true, Some("sum"), Value::Uint(9))] };
    let actual = merge_record(&probe, &left, &right).expect("merge should be successful");
    assert_eq!(actual.fields[0].value, Value::Uint(7));
    assert_eq!(calls.get(), 0);
}

#[test]
fn test_in_place_failure_keeps_earlier_fields_merged() {
    let left_fields = vec![
        named("a", false, Some("sum"), Value::Uint(1)),
        named("b", false, Some("boom"), Value::Uint(2)),
        named("c", false, Some("sum"), Value::Uint(3)),
    ];
    let mut left = Record { fields: left_fields };
    let right = Record {
        fields: vec![
            named("a", false, Some("sum"), Value::Uint(10)),
            named("b", false, Some("boom"), Value::Uint(20)),
            named("c", false, Some("sum"), Value::Uint(30)),
        ],
    };
    let probe = |name: &String, a: &Value, b: &Value| -> Result<Value, MergeError> {
        if name.as_str() == "boom" {
            Err(MergeError::Strategy("boom".to_string()))
        } else {
            resolve(name, a, b)
        }
    };
    let actual = merge_record_mut(&probe, &mut left, &right);
    assert_eq!(actual, Err(MergeError::Strategy("boom".to_string())));
    assert_eq!(left.fields[0].value, Value::Uint(11));
    assert_eq!(left.fields[1].value, Value::Uint(2));
    assert_eq!(left.fields[2].value, Value::Uint(3));
}
