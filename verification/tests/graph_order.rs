//! Validation and topological ordering of step sets.

use workflow_engine::step::GraphError;
use workflow_engine::step::WorkflowStep;
use workflow_engine::graph::topological_order;
use workflow_engine::graph::validate;
use workflow_engine::value::Value;

fn step(id: &str, op: &str, deps: &[&str], data: Value) -> WorkflowStep {
    WorkflowStep {
        id: id.to_string(),
        operation: op.to_string(),
        dependencies: deps.iter().map(|d| d.to_string()).collect(),
        data,
        parameters: None,
        timeout_ms: None,
        retry_count: None,
    }
}

#[test]
fn validate_rejects_empty_step_set() {
    let steps: Vec<WorkflowStep> = Vec::new();
    assert_eq!(validate(&steps), Err(GraphError::Empty));
}

#[test]
fn validate_rejects_unknown_dependency() {
    let steps = vec![
        step("a", "delay", &[], Value::Null),
        step("b", "delay", &["zzz"], Value::Null),
    ];
    assert_eq!(
        validate(&steps),
        Err(GraphError::UnknownDependency("b".to_string(), "zzz".to_string()))
    );
}

#[test]
fn validate_rejects_two_step_cycle() {
    let steps = vec![
        step("a", "delay", &["b"], Value::Null),
        step("b", "delay", &["a"], Value::Null),
    ];
    assert_eq!(validate(&steps), Err(GraphError::CycleDetected));
}

#[test]
fn validate_rejects_self_dependency() {
    let steps = vec![step("a", "delay", &["a"], Value::Null)];
    assert_eq!(validate(&steps), Err(GraphError::CycleDetected));
}

#[test]
fn validate_accepts_chain() {
    let steps = vec![
        step("a", "delay", &[], Value::Null),
        step("b", "delay", &["a"], Value::Null),
        step("c", "delay", &["b"], Value::Null),
    ];
    assert_eq!(validate(&steps), Ok(()));
}

#[test]
fn order_rejects_two_step_cycle() {
    let steps = vec![
        step("a", "delay", &["b"], Value::Null),
        step("b", "delay", &["a"], Value::Null),
    ];
    assert_eq!(topological_order(&steps), Err(GraphError::CycleDetected));
}

#[test]
fn order_rejects_unknown_dependency() {
    let steps = vec![step("a", "delay", &["zzz"], Value::Null)];
    assert_eq!(topological_order(&steps), Err(GraphError::CycleDetected));
}

#[test]
fn order_puts_every_step_after_its_dependencies() {
    // A diamond: d needs b and c, both of which need a.
    let steps = vec![
        step("d", "delay", &["b", "c"], Value::Null),
        step("b", "delay", &["a"], Value::Null),
        step("c", "delay", &["a"], Value::Null),
        step("a", "delay", &[], Value::Null),
    ];
    let order = topological_order(&steps).unwrap();
    assert_eq!(order.len(), 4);
    let pos = |i: usize| order.iter().position(|&k| k == i).unwrap();
    assert!(pos(3) < pos(1)); // a before b
    assert!(pos(3) < pos(2)); // a before c
    assert!(pos(1) < pos(0)); // b before d
    assert!(pos(2) < pos(0)); // c before d
}

#[test]
fn order_breaks_ties_by_declaration_order() {
    let steps = vec![
        step("a", "delay", &[], Value::Null),
        step("b", "delay", &["a"], Value::Null),
        step("c", "delay", &["a"], Value::Null),
        step("d", "delay", &["b", "c"], Value::Null),
    ];
    let order = topological_order(&steps).unwrap();
    assert_eq!(order, vec![0, 1, 2, 3]);
}

#[test]
fn order_of_independent_steps_is_declaration_order() {
    let steps = vec![
        step("x", "delay", &[], Value::Null),
        step("y", "delay", &[], Value::Null),
        step("z", "delay", &[], Value::Null),
    ];
    let order = topological_order(&steps).unwrap();
    assert_eq!(order, vec![0, 1, 2]);
}
