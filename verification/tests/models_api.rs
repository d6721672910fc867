//! Response envelopes, definitions and their validation.

use workflow_engine::models::ApiResponse;
use workflow_engine::models::ConnectionConfig;
use workflow_engine::models::DataSource;
use workflow_engine::models::DataSourceType;
use workflow_engine::models::Validatable;
use workflow_engine::models::WorkflowDefinition;
use workflow_engine::models::WorkflowStepDefinition;
use workflow_engine::value::Field;
use workflow_engine::storage::DatabaseConfig;
use workflow_engine::value::Value;

fn step_definition(id: &str) -> WorkflowStepDefinition {
    WorkflowStepDefinition {
        id: id.to_string(),
        name: format!("Step {}", id),
        description: None,
        operation: "test".to_string(),
        dependencies: vec![],
        parameters: None,
        timeout_ms: None,
        retry_count: None,
        retry_delay_ms: None,
        error_handling: None,
    }
}

fn definition(name: &str, steps: Vec<WorkflowStepDefinition>) -> WorkflowDefinition {
    WorkflowDefinition {
        id: "test".to_string(),
        name: name.to_string(),
        description: None,
        version: "1.0".to_string(),
        steps,
        parameters: None,
        metadata: None,
        created_at: "2023-01-01T00:00:00Z".to_string(),
        updated_at: "2023-01-01T00:00:00Z".to_string(),
    }
}

#[test]
fn test_api_response_success() {
    let response = ApiResponse::success("test data");
    assert!(response.success);
    assert_eq!(response.data, Some("test data"));
    assert!(response.error.is_none());
}

#[test]
fn test_api_response_error() {
    let response = ApiResponse::<String>::error("test error".to_string());
    assert!(!response.success);
    assert!(response.data.is_none());
    assert_eq!(response.error, Some("test error".to_string()));
}

#[test]
fn test_workflow_definition_validation() {
    let valid_workflow = definition(
        "Test Workflow",
        vec![WorkflowStepDefinition {
            id: "step1".to_string(),
            name: "Step 1".to_string(),
            description: None,
            operation: "test".to_string(),
            dependencies: vec![],
            parameters: None,
            timeout_ms: None,
            retry_count: None,
            retry_delay_ms: None,
            error_handling: None,
        }],
    );
    assert!(valid_workflow.validate().is_ok());

    let invalid_workflow = definition("", vec![]);
    assert!(invalid_workflow.validate().is_err());
}

#[test]
fn workflow_definition_rejects_duplicate_step_ids() {
    let dup = definition("dup", vec![step_definition("a"), step_definition("a")]);
    assert!(dup.validate().is_err());
    let ok = definition("ok", vec![step_definition("a"), step_definition("b")]);
    assert!(ok.validate().is_ok());
}

fn source(name: &str, kind: DataSourceType, config: ConnectionConfig) -> DataSource {
    DataSource {
        id: "src".to_string(),
        name: name.to_string(),
        description: None,
        source_type: kind,
        connection_config: config,
        schema: None,
        metadata: None,
        created_at: "2023-01-01T00:00:00Z".to_string(),
        updated_at: "2023-01-01T00:00:00Z".to_string(),
    }
}

fn empty_config() -> ConnectionConfig {
    ConnectionConfig {
        connection_string: None,
        host: None,
        port: None,
        database: None,
        username: None,
        password: None,
        ssl_mode: None,
        timeout_ms: None,
        max_connections: None,
    }
}

#[test]
fn data_source_validation_requires_kind_specific_details() {
    assert!(source("", DataSourceType::Csv, empty_config()).validate().is_err());
    assert!(source("s", DataSourceType::Csv, empty_config()).validate().is_ok());
    assert!(source("s", DataSourceType::Database, empty_config()).validate().is_err());
    let mut with_conn = empty_config();
    with_conn.connection_string = Some("sqlite:x.db".to_string());
    assert!(source("s", DataSourceType::Database, with_conn).validate().is_ok());
    assert!(source("s", DataSourceType::Api, empty_config()).validate().is_err());
    let mut with_host = empty_config();
    with_host.host = Some("localhost".to_string());
    assert!(source("s", DataSourceType::Api, with_host).validate().is_ok());
}

#[test]
fn database_config_defaults_to_a_local_store() {
    let config = DatabaseConfig::default();
    assert_eq!(config.database_url, "sqlite:data/uds_v2.db");
    assert_eq!(config.max_connections, 5);
    assert_eq!(config.timeout_seconds, 30);
}

#[test]
fn values_expose_their_contents() {
    let v = Value::Object(vec![
        Field { key: "n".to_string(), val: Value::Int(7) },
        Field { key: "t".to_string(), val: Value::Text("x".to_string()) },
    ]);
    assert_eq!(v.get("n"), Some(&Value::Int(7)));
    assert_eq!(v.get("missing"), None);
    assert_eq!(v.get("n").unwrap().as_int(), Some(7));
    assert_eq!(Value::Int(7).as_int(), Some(7));
    assert_eq!(Value::Null.as_int(), None);
    let copy = v.clone();
    assert_eq!(copy, v);
}
