//! The built-in operation handlers.

use workflow_engine::ops::apply_operation;
use workflow_engine::ops::builtin_operation_names;
use workflow_engine::value::Field;
use workflow_engine::value::Value;

fn obj(entries: &[(&str, Value)]) -> Value {
    Value::Object(
        entries
            .iter()
            .map(|(k, v)| Field { key: k.to_string(), val: v.clone() })
            .collect(),
    )
}

fn ints(ns: &[i64]) -> Value {
    Value::List(ns.iter().map(|&n| Value::Int(n)).collect())
}

fn text(s: &str) -> Value {
    Value::Text(s.to_string())
}

#[test]
fn registry_lists_the_built_ins() {
    let names = builtin_operation_names();
    assert_eq!(
        names,
        vec![
            "data_transform".to_string(),
            "file_operation".to_string(),
            "conditional".to_string(),
            "delay".to_string()
        ]
    );
}

#[test]
fn aggregate_sum_adds_the_numbers() {
    let params = obj(&[("operation", text("aggregate")), ("function", text("sum"))]);
    let r = apply_operation("data_transform", &ints(&[1, 2, 3, 4, 5]), Some(&params));
    assert_eq!(r, Ok(obj(&[("sum", Value::Int(15))])));
}

#[test]
fn aggregate_average_truncates() {
    let params = obj(&[("operation", text("aggregate")), ("function", text("average"))]);
    let r = apply_operation("data_transform", &ints(&[1, 2, 4]), Some(&params));
    assert_eq!(
        r,
        Ok(obj(&[("average", Value::Int(2)), ("count", Value::Int(3))]))
    );
}

#[test]
fn aggregate_average_of_no_numbers_is_zero() {
    let params = obj(&[("operation", text("aggregate")), ("function", text("average"))]);
    let r = apply_operation(
        "data_transform",
        &Value::List(vec![text("x"), text("y")]),
        Some(&params),
    );
    assert_eq!(
        r,
        Ok(obj(&[("average", Value::Int(0)), ("count", Value::Int(0))]))
    );
}

#[test]
fn aggregate_count_counts_every_item() {
    let params = obj(&[("operation", text("aggregate")), ("function", text("count"))]);
    let r = apply_operation(
        "data_transform",
        &Value::List(vec![Value::Int(7), text("x")]),
        Some(&params),
    );
    assert_eq!(r, Ok(obj(&[("count", Value::Int(2))])));
}

#[test]
fn aggregate_unknown_function_is_reported() {
    let params = obj(&[("operation", text("aggregate")), ("function", text("median"))]);
    let r = apply_operation("data_transform", &ints(&[1]), Some(&params));
    assert_eq!(r, Err("Unknown aggregate function: median".to_string()));
}

#[test]
fn aggregate_sum_saturates_at_the_integer_bounds() {
    let params = obj(&[("operation", text("aggregate")), ("function", text("sum"))]);
    let r = apply_operation("data_transform", &ints(&[i64::MAX, 1]), Some(&params));
    assert_eq!(r, Ok(obj(&[("sum", Value::Int(i64::MAX))])));
}

#[test]
fn filter_keeps_values_above_the_threshold() {
    let params = obj(&[("operation", text("filter")), ("threshold", Value::Int(2))]);
    let r = apply_operation("data_transform", &ints(&[1, 2, 3, 4]), Some(&params));
    assert_eq!(
        r,
        Ok(obj(&[
            ("filtered_data", ints(&[3, 4])),
            ("original_count", Value::Int(4)),
            ("filtered_count", Value::Int(2)),
            ("threshold", Value::Int(2)),
        ]))
    );
}

#[test]
fn filter_threshold_defaults_to_zero() {
    let params = obj(&[("operation", text("filter"))]);
    let r = apply_operation("data_transform", &ints(&[-1, 0, 1]), Some(&params));
    assert_eq!(
        r,
        Ok(obj(&[
            ("filtered_data", ints(&[1])),
            ("original_count", Value::Int(3)),
            ("filtered_count", Value::Int(1)),
            ("threshold", Value::Int(0)),
        ]))
    );
}

#[test]
fn sort_ascending_is_the_default() {
    let params = obj(&[("operation", text("sort"))]);
    let r = apply_operation("data_transform", &ints(&[3, 1, 2]), Some(&params));
    assert_eq!(
        r,
        Ok(obj(&[
            ("sorted_data", ints(&[1, 2, 3])),
            ("order", text("asc")),
            ("count", Value::Int(3)),
        ]))
    );
}

#[test]
fn sort_descending_reverses_the_comparison() {
    let params = obj(&[("operation", text("sort")), ("order", text("desc"))]);
    let r = apply_operation("data_transform", &ints(&[3, 1, 2]), Some(&params));
    assert_eq!(
        r,
        Ok(obj(&[
            ("sorted_data", ints(&[3, 2, 1])),
            ("order", text("desc")),
            ("count", Value::Int(3)),
        ]))
    );
}

#[test]
fn sort_is_stable_for_equal_keys() {
    // Non-integers all carry key zero and must keep their order.
    let params = obj(&[("operation", text("sort"))]);
    let input = Value::List(vec![text("b"), Value::Int(-1), text("a")]);
    let r = apply_operation("data_transform", &input, Some(&params));
    assert_eq!(
        r,
        Ok(obj(&[
            (
                "sorted_data",
                Value::List(vec![Value::Int(-1), text("b"), text("a")])
            ),
            ("order", text("asc")),
            ("count", Value::Int(3)),
        ]))
    );
}

#[test]
fn data_transform_requires_an_operation_parameter() {
    let r = apply_operation("data_transform", &ints(&[1]), None);
    assert_eq!(
        r,
        Err("Data transform requires 'operation' parameter".to_string())
    );
}

#[test]
fn data_transform_requires_list_input() {
    let params = obj(&[("operation", text("filter"))]);
    let r = apply_operation("data_transform", &Value::Int(3), Some(&params));
    assert_eq!(r, Err("Data must be an array".to_string()));
}

#[test]
fn data_transform_unknown_operation_is_reported() {
    let params = obj(&[("operation", text("rotate"))]);
    let r = apply_operation("data_transform", &ints(&[1]), Some(&params));
    assert_eq!(r, Err("Unknown data transform operation: rotate".to_string()));
}

#[test]
fn conditional_greater_than() {
    let params = obj(&[("condition", text("greater_than")), ("threshold", Value::Int(3))]);
    let r = apply_operation("conditional", &Value::Int(5), Some(&params));
    assert_eq!(
        r,
        Ok(obj(&[
            ("condition", text("greater_than")),
            ("value", Value::Int(5)),
            ("threshold", Value::Int(3)),
            ("result", Value::Bool(true)),
        ]))
    );
}

#[test]
fn conditional_less_than_and_equals() {
    let params = obj(&[("condition", text("less_than")), ("threshold", Value::Int(3))]);
    let r = apply_operation("conditional", &Value::Int(5), Some(&params)).unwrap();
    assert_eq!(r.get("result"), Some(&Value::Bool(false)));

    let params = obj(&[("condition", text("equals")), ("threshold", Value::Int(5))]);
    let r = apply_operation("conditional", &Value::Int(5), Some(&params)).unwrap();
    assert_eq!(r.get("result"), Some(&Value::Bool(true)));

    let params = obj(&[("condition", text("not_equals")), ("threshold", Value::Int(5))]);
    let r = apply_operation("conditional", &Value::Int(5), Some(&params)).unwrap();
    assert_eq!(r.get("result"), Some(&Value::Bool(false)));
}

#[test]
fn conditional_non_numeric_input_counts_as_zero() {
    let params = obj(&[("condition", text("less_than")), ("threshold", Value::Int(1))]);
    let r = apply_operation("conditional", &text("x"), Some(&params)).unwrap();
    assert_eq!(r.get("value"), Some(&Value::Int(0)));
    assert_eq!(r.get("result"), Some(&Value::Bool(true)));
}

#[test]
fn conditional_unknown_condition_is_reported() {
    let params = obj(&[("condition", text("between"))]);
    let r = apply_operation("conditional", &Value::Int(1), Some(&params));
    assert_eq!(r, Err("Unknown condition: between".to_string()));
}

#[test]
fn conditional_requires_a_condition_parameter() {
    let r = apply_operation("conditional", &Value::Int(1), None);
    assert_eq!(r, Err("Conditional requires 'condition' parameter".to_string()));
}

#[test]
fn file_operation_simulates_a_csv_read() {
    let params = obj(&[("operation", text("read_csv")), ("file_path", text("data.csv"))]);
    let r = apply_operation("file_operation", &Value::Null, Some(&params));
    assert_eq!(
        r,
        Ok(obj(&[
            ("operation", text("read_csv")),
            ("file_path", text("data.csv")),
            ("status", text("success")),
            ("message", text("CSV file read successfully (simulated)")),
        ]))
    );
}

#[test]
fn file_operation_simulates_a_json_write() {
    let params = obj(&[("operation", text("write_json")), ("file_path", text("out.json"))]);
    let r = apply_operation("file_operation", &Value::Null, Some(&params)).unwrap();
    assert_eq!(
        r.get("message"),
        Some(&text("JSON file written successfully (simulated)"))
    );
}

#[test]
fn file_operation_requires_its_parameters() {
    let r = apply_operation("file_operation", &Value::Null, None);
    assert_eq!(
        r,
        Err("File operation requires 'operation' parameter".to_string())
    );
    let params = obj(&[("operation", text("read_csv"))]);
    let r = apply_operation("file_operation", &Value::Null, Some(&params));
    assert_eq!(
        r,
        Err("File operation requires 'file_path' parameter".to_string())
    );
    let params = obj(&[("operation", text("move"))]);
    let r = apply_operation("file_operation", &Value::Null, Some(&params));
    assert_eq!(r, Err("Unknown file operation: move".to_string()));
}

#[test]
fn delay_acknowledges_the_duration() {
    let params = obj(&[("duration_ms", Value::Int(250))]);
    let r = apply_operation("delay", &Value::Null, Some(&params));
    assert_eq!(
        r,
        Ok(obj(&[
            ("operation", text("delay")),
            ("duration_ms", Value::Int(250)),
            ("status", text("completed")),
        ]))
    );
}

#[test]
fn delay_defaults_to_one_second() {
    let r = apply_operation("delay", &Value::Null, None).unwrap();
    assert_eq!(r.get("duration_ms"), Some(&Value::Int(1000)));
}

#[test]
fn unregistered_operation_is_reported() {
    let r = apply_operation("nonexistent_op", &Value::Null, None);
    assert_eq!(r, Err("unknown operation: nonexistent_op".to_string()));
}
