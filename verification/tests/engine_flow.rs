//! Workflow submission, status lookup and cancellation.

use workflow_engine::engine::CancelError;
use workflow_engine::engine::WorkflowEngine;
use workflow_engine::engine::WorkflowStatus;
use workflow_engine::step::GraphError;
use workflow_engine::step::WorkflowStep;
use workflow_engine::value::Field;
use workflow_engine::value::Value;

fn obj(entries: &[(&str, Value)]) -> Value {
    Value::Object(
        entries
            .iter()
            .map(|(k, v)| Field { key: k.to_string(), val: v.clone() })
            .collect(),
    )
}

fn text(s: &str) -> Value {
    Value::Text(s.to_string())
}

fn ints(ns: &[i64]) -> Value {
    Value::List(ns.iter().map(|&n| Value::Int(n)).collect())
}

fn step(id: &str, op: &str, deps: &[&str], data: Value, params: Option<Value>) -> WorkflowStep {
    WorkflowStep {
        id: id.to_string(),
        operation: op.to_string(),
        dependencies: deps.iter().map(|d| d.to_string()).collect(),
        data,
        parameters: params,
        timeout_ms: None,
        retry_count: None,
    }
}

#[test]
fn test_workflow_engine_creation() {
    let engine = WorkflowEngine::new();
    assert!(!engine.get_available_operations().is_empty());
}

#[test]
fn aggregate_sum_workflow_completes() {
    // One data_transform step summing [1..5] ends Completed with
    // results["s1"] == {sum: 15}.
    let mut engine = WorkflowEngine::new();
    let steps = vec![step(
        "s1",
        "data_transform",
        &[],
        ints(&[1, 2, 3, 4, 5]),
        Some(obj(&[("operation", text("aggregate")), ("function", text("sum"))])),
    )];
    let (workflow_id, outcome) = engine.execute_workflow("test_workflow", &steps, None);
    assert!(!workflow_id.is_empty());
    let result = outcome.unwrap();
    assert_eq!(result.status, WorkflowStatus::Completed);
    assert_eq!(result.results.get("s1"), Some(&obj(&[("sum", Value::Int(15))])));
    assert_eq!(result.errors.len(), 0);
    assert_eq!(result.step_count, 1);
    assert_eq!(result.successful_steps, 1);
    assert_eq!(result.failed_steps, 0);
}

#[test]
fn cyclic_workflow_is_rejected_before_any_step_runs() {
    let mut engine = WorkflowEngine::new();
    let steps = vec![
        step("a", "delay", &["b"], Value::Null, None),
        step("b", "delay", &["a"], Value::Null, None),
    ];
    let (workflow_id, outcome) = engine.execute_workflow("cyclic", &steps, None);
    assert_eq!(outcome, Err(GraphError::CycleDetected));
    let record = engine.get_workflow_status(&workflow_id).unwrap();
    assert_eq!(record.status, WorkflowStatus::Failed);
    assert_eq!(record.results.len(), 0);
    assert_eq!(record.errors.len(), 1);
    assert_eq!(
        record.errors.get("workflow"),
        Some(&"Circular dependency detected in workflow".to_string())
    );
}

#[test]
fn conditional_workflow_reports_the_comparison() {
    let mut engine = WorkflowEngine::new();
    let steps = vec![step(
        "s1",
        "conditional",
        &[],
        Value::Int(5),
        Some(obj(&[("condition", text("greater_than")), ("threshold", Value::Int(3))])),
    )];
    let (_, outcome) = engine.execute_workflow("compare", &steps, None);
    let result = outcome.unwrap();
    assert_eq!(result.status, WorkflowStatus::Completed);
    let output = result.results.get("s1").unwrap();
    assert_eq!(output.get("result"), Some(&Value::Bool(true)));
}

#[test]
fn unknown_operation_fails_one_step_but_not_its_sibling() {
    let mut engine = WorkflowEngine::new();
    let steps = vec![
        step("bad", "nonexistent_op", &[], Value::Null, None),
        step(
            "good",
            "data_transform",
            &[],
            ints(&[2, 3]),
            Some(obj(&[("operation", text("aggregate")), ("function", text("sum"))])),
        ),
    ];
    let (_, outcome) = engine.execute_workflow("partial", &steps, None);
    let result = outcome.unwrap();
    assert_eq!(result.status, WorkflowStatus::Failed);
    assert!(result.errors.get("bad").unwrap().contains("unknown operation"));
    assert_eq!(result.results.get("good"), Some(&obj(&[("sum", Value::Int(5))])));
    assert_eq!(result.successful_steps, 1);
    assert_eq!(result.failed_steps, 1);
}

#[test]
fn dependent_step_receives_the_collected_outputs() {
    // s2 has one dependency, so its input is the list of s1's output,
    // and counting that list yields one item.
    let mut engine = WorkflowEngine::new();
    let steps = vec![
        step(
            "s1",
            "data_transform",
            &[],
            ints(&[1, 2]),
            Some(obj(&[("operation", text("aggregate")), ("function", text("sum"))])),
        ),
        step(
            "s2",
            "data_transform",
            &["s1"],
            Value::Null,
            Some(obj(&[("operation", text("aggregate")), ("function", text("count"))])),
        ),
    ];
    let (_, outcome) = engine.execute_workflow("chained", &steps, None);
    let result = outcome.unwrap();
    assert_eq!(result.status, WorkflowStatus::Completed);
    assert_eq!(result.results.get("s2"), Some(&obj(&[("count", Value::Int(1))])));
}

#[test]
fn failed_dependency_withholds_its_output_without_blocking() {
    // bad fails; dependent still runs, with an empty collected input.
    let mut engine = WorkflowEngine::new();
    let steps = vec![
        step("bad", "nonexistent_op", &[], Value::Null, None),
        step(
            "after",
            "data_transform",
            &["bad"],
            Value::Null,
            Some(obj(&[("operation", text("aggregate")), ("function", text("count"))])),
        ),
    ];
    let (_, outcome) = engine.execute_workflow("withheld", &steps, None);
    let result = outcome.unwrap();
    assert!(result.errors.get("bad").is_some());
    assert_eq!(result.results.get("after"), Some(&obj(&[("count", Value::Int(0))])));
}

#[test]
fn step_failure_message_names_step_and_operation() {
    let mut engine = WorkflowEngine::new();
    let steps = vec![step(
        "s1",
        "data_transform",
        &[],
        Value::Int(1),
        Some(obj(&[("operation", text("filter"))])),
    )];
    let (_, outcome) = engine.execute_workflow("failing", &steps, None);
    let result = outcome.unwrap();
    assert_eq!(
        result.errors.get("s1"),
        Some(&"Step 's1' (data_transform) failed: Data must be an array".to_string())
    );
}

#[test]
fn retry_budget_reattempts_without_changing_the_outcome() {
    let mut engine = WorkflowEngine::new();
    let mut failing = step(
        "s1",
        "data_transform",
        &[],
        Value::Int(1),
        Some(obj(&[("operation", text("filter"))])),
    );
    failing.retry_count = Some(3);
    let (_, outcome) = engine.execute_workflow("retried", &vec![failing], None);
    let result = outcome.unwrap();
    assert_eq!(result.failed_steps, 1);
    assert!(result.errors.get("s1").is_some());
}

#[test]
fn status_lookup_is_idempotent() {
    let mut engine = WorkflowEngine::new();
    let steps = vec![step(
        "s1",
        "delay",
        &[],
        Value::Null,
        Some(obj(&[("duration_ms", Value::Int(1))])),
    )];
    let (workflow_id, outcome) = engine.execute_workflow("idempotent", &steps, None);
    assert!(outcome.is_ok());
    let first = engine.get_workflow_status(&workflow_id).unwrap();
    let second = engine.get_workflow_status(&workflow_id).unwrap();
    assert_eq!(first, second);
    assert_eq!(first.status, WorkflowStatus::Completed);
    assert!(first.end_time.is_some());
    assert!(first.total_duration_ms.is_some());
}

#[test]
fn status_lookup_of_unknown_id_is_empty() {
    let engine = WorkflowEngine::new();
    assert!(engine.get_workflow_status("no-such-id").is_none());
}

#[test]
fn cancel_unknown_and_terminal_workflows_is_refused() {
    let mut engine = WorkflowEngine::new();
    assert_eq!(engine.cancel_workflow("no-such-id"), Err(CancelError::NotFound));

    let steps = vec![step("s1", "delay", &[], Value::Null, None)];
    let (workflow_id, outcome) = engine.execute_workflow("done", &steps, None);
    assert!(outcome.is_ok());
    assert_eq!(
        engine.cancel_workflow(&workflow_id),
        Err(CancelError::AlreadyTerminal)
    );
    // The record is unchanged.
    let record = engine.get_workflow_status(&workflow_id).unwrap();
    assert_eq!(record.status, WorkflowStatus::Completed);
}

#[test]
fn workflow_ids_are_fresh_per_submission() {
    let mut engine = WorkflowEngine::new();
    let steps = vec![step("s1", "delay", &[], Value::Null, None)];
    let (id1, _) = engine.execute_workflow("one", &steps, None);
    let (id2, _) = engine.execute_workflow("two", &steps, None);
    assert_eq!(id1.len(), 36);
    assert_eq!(id2.len(), 36);
    assert_ne!(id1, id2);
    assert_eq!(engine.get_workflow_status(&id1).unwrap().name, "one");
    assert_eq!(engine.get_workflow_status(&id2).unwrap().name, "two");
}
