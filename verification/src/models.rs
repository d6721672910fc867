//! Shared data models: API envelopes, workflow and data-source
//! definitions, chart and query shapes, and configuration.

use vstd::prelude::*;
use vstd::string::StringExecFns;

use crate::strmap::StrMap;
use crate::value::str_eq;
use crate::value::Value;

verus! {

/// Relies on chrono's `Utc::now` and `DateTime::to_rfc3339`: the current
/// time rendered in RFC 3339 form. Nothing is promised of the value.
#[verifier::external_body]
fn now_rfc3339() -> String {
    chrono::Utc::now().to_rfc3339()
}

/// The common response envelope: either carried data or an error, with a
/// timestamp.
#[derive(Debug)]
pub struct ApiResponse<T> {
    pub success: bool,
    pub data: Option<T>,
    pub error: Option<String>,
    pub message: Option<String>,
    pub timestamp: String,
}

impl<T> ApiResponse<T> {
    /// A successful response carrying data.
    pub fn success(data: T) -> (r: Self)
        ensures
            r.success,
            r.data == Some(data),
            r.error is None,
            r.message matches Some(m) && m@ == "Operation completed successfully"@,
    {
        ApiResponse {
            success: true,
            data: Some(data),
            error: None,
            message: Some("Operation completed successfully".to_owned()),
            timestamp: now_rfc3339(),
        }
    }

    /// A failed response carrying an error.
    pub fn error(error: String) -> (r: Self)
        ensures
            !r.success,
            r.data is None,
            r.error == Some(error),
            r.message is None,
    {
        ApiResponse {
            success: false,
            data: None,
            error: Some(error),
            message: None,
            timestamp: now_rfc3339(),
        }
    }

    /// A successful response carrying only a message.
    pub fn message(message: String) -> (r: Self)
        ensures
            r.success,
            r.data is None,
            r.error is None,
            r.message == Some(message),
    {
        ApiResponse {
            success: true,
            data: None,
            error: None,
            message: Some(message),
            timestamp: now_rfc3339(),
        }
    }
}

impl<T> Default for ApiResponse<T> {
    /// An empty, unsuccessful envelope.
    fn default() -> (r: Self)
        ensures
            !r.success,
            r.data is None,
            r.error is None,
            r.message is None,
    {
        ApiResponse {
            success: false,
            data: None,
            error: None,
            message: None,
            timestamp: now_rfc3339(),
        }
    }
}

/// A stored workflow description.
#[derive(Debug, Clone, PartialEq)]
pub struct WorkflowDefinition {
    pub id: String,
    pub name: String,
    pub description: Option<String>,
    pub version: String,
    pub steps: Vec<WorkflowStepDefinition>,
    pub parameters: Option<StrMap<Value>>,
    pub metadata: Option<StrMap<Value>>,
    pub created_at: String,
    pub updated_at: String,
}

/// One step of a stored workflow description.
#[derive(Debug, Clone, PartialEq)]
pub struct WorkflowStepDefinition {
    pub id: String,
    pub name: String,
    pub description: Option<String>,
    pub operation: String,
    pub dependencies: Vec<String>,
    pub parameters: Option<StrMap<Value>>,
    pub timeout_ms: Option<u64>,
    pub retry_count: Option<u32>,
    pub retry_delay_ms: Option<u64>,
    pub error_handling: Option<ErrorHandlingStrategy>,
}

/// What to do when a step fails.
#[derive(Debug, Clone, Copy, PartialEq, Eq, Structural)]
pub enum ErrorHandlingStrategy {
    Continue,
    Stop,
    Retry,
    Rollback,
}

/// A registered source of data.
#[derive(Debug, Clone, PartialEq)]
pub struct DataSource {
    pub id: String,
    pub name: String,
    pub description: Option<String>,
    pub source_type: DataSourceType,
    pub connection_config: ConnectionConfig,
    pub schema: Option<DataSourceSchema>,
    pub metadata: Option<StrMap<Value>>,
    pub created_at: String,
    pub updated_at: String,
}

/// The kind of a data source.
#[derive(Debug, Clone, Copy, PartialEq, Eq, Structural)]
pub enum DataSourceType {
    Csv,
    Json,
    Parquet,
    Database,
    Api,
    Stream,
    Custom,
}

/// How to reach a data source.
#[derive(Debug, Clone, PartialEq)]
pub struct ConnectionConfig {
    pub connection_string: Option<String>,
    pub host: Option<String>,
    pub port: Option<u16>,
    pub database: Option<String>,
    pub username: Option<String>,
    pub password: Option<String>,
    pub ssl_mode: Option<String>,
    pub timeout_ms: Option<u64>,
    pub max_connections: Option<u32>,
}

/// The shape of a data source's records.
#[derive(Debug, Clone, PartialEq)]
pub struct DataSourceSchema {
    pub columns: Vec<ColumnDefinition>,
    pub primary_key: Option<Vec<String>>,
    pub indexes: Option<Vec<IndexDefinition>>,
    pub constraints: Option<Vec<ConstraintDefinition>>,
}

/// One column of a data source.
#[derive(Debug, Clone, PartialEq)]
pub struct ColumnDefinition {
    pub name: String,
    pub data_type: String,
    pub nullable: bool,
    pub default_value: Option<Value>,
    pub description: Option<String>,
    pub constraints: Option<Vec<String>>,
}

/// One index over a data source.
#[derive(Debug, Clone, PartialEq)]
pub struct IndexDefinition {
    pub name: String,
    pub columns: Vec<String>,
    pub unique: bool,
    pub description: Option<String>,
}

/// One constraint over a data source.
#[derive(Debug, Clone, PartialEq)]
pub struct ConstraintDefinition {
    pub name: String,
    pub constraint_type: String,
    pub columns: Vec<String>,
    pub expression: Option<String>,
    pub description: Option<String>,
}

/// A query to run against a data source.
#[derive(Debug, Clone, PartialEq)]
pub struct QueryRequest {
    pub query: String,
    pub parameters: Option<Vec<Value>>,
    pub timeout_ms: Option<u64>,
    pub max_rows: Option<usize>,
    pub metadata: Option<StrMap<Value>>,
}

/// A query's rows and timing.
#[derive(Debug, Clone, PartialEq)]
pub struct QueryResult {
    pub columns: Vec<String>,
    pub rows: Vec<Vec<Value>>,
    pub row_count: usize,
    pub execution_time_ms: u64,
    pub metadata: Option<StrMap<Value>>,
}

/// A request to draw a chart from data.
#[derive(Debug, Clone, PartialEq)]
pub struct ChartRequest {
    pub chart_type: ChartType,
    pub data: Value,
    pub options: Option<ChartOptions>,
    pub metadata: Option<StrMap<Value>>,
}

/// The kind of chart to draw.
#[derive(Debug, Clone, Copy, PartialEq, Eq, Structural)]
pub enum ChartType {
    Line,
    Bar,
    Scatter,
    Pie,
    Histogram,
    Heatmap,
    BoxPlot,
    Custom,
}

/// Presentation options for a chart.
#[derive(Debug, Clone, PartialEq)]
pub struct ChartOptions {
    pub title: Option<String>,
    pub x_label: Option<String>,
    pub y_label: Option<String>,
    pub colors: Option<Vec<String>>,
    pub width: Option<u32>,
    pub height: Option<u32>,
    pub interactive: Option<bool>,
    pub animation: Option<bool>,
}

/// A reported error with its context.
#[derive(Debug, Clone, PartialEq)]
pub struct ErrorDetails {
    pub error_code: String,
    pub error_type: String,
    pub message: String,
    pub details: Option<Value>,
    pub stack_trace: Option<String>,
    pub timestamp: String,
}

/// The application's configuration.
#[derive(Debug, Clone, PartialEq)]
pub struct AppConfig {
    pub server: ServerConfig,
    pub database: DatabaseConfig,
    pub logging: LoggingConfig,
    pub security: SecurityConfig,
    pub performance: PerformanceConfig,
}

/// Where and how the server listens.
#[derive(Debug, Clone, PartialEq)]
pub struct ServerConfig {
    pub host: String,
    pub port: u16,
    pub workers: u32,
    pub max_connections: u32,
    pub timeout_seconds: u64,
}

/// How to reach the database.
#[derive(Debug, Clone, PartialEq)]
pub struct DatabaseConfig {
    pub url: String,
    pub max_connections: u32,
    pub timeout_seconds: u64,
    pub pool_size: u32,
}

/// How to log.
#[derive(Debug, Clone, PartialEq)]
pub struct LoggingConfig {
    pub level: String,
    pub format: String,
    pub output: String,
    pub max_files: u32,
    pub max_size_mb: u32,
}

/// Cross-origin and rate limits.
#[derive(Debug, Clone, PartialEq)]
pub struct SecurityConfig {
    pub cors_origins: Vec<String>,
    pub api_key_required: bool,
    pub rate_limit_requests: u32,
    pub rate_limit_window_ms: u64,
}

/// Size and cleanup bounds.
#[derive(Debug, Clone, PartialEq)]
pub struct PerformanceConfig {
    pub max_workflow_steps: u32,
    pub max_data_size_mb: u64,
    pub cache_size_mb: u64,
    pub cleanup_interval_hours: u32,
}

/// A value that can check its own well-formedness.
pub trait Validatable {
    /// The well-formedness this validation decides.
    spec fn valid(&self) -> bool;

    /// Check the value: `Ok` exactly for valid values, else a message.
    fn validate(&self) -> (r: Result<(), String>)
        ensures
            r is Ok <==> self.valid(),
    ;
}

impl Validatable for WorkflowDefinition {
    /// A named definition with at least one step and no repeated step
    /// id.
    open spec fn valid(&self) -> bool {
        &&& self.name@.len() > 0
        &&& self.steps@.len() > 0
        &&& forall|i: int, j: int|
            0 <= i < j < self.steps@.len() ==> self.steps@[i].id@ != self.steps@[j].id@
    }

    fn validate(&self) -> (r: Result<(), String>) {
        if self.name.as_str().is_empty() {
            return Err("Workflow name cannot be empty".to_owned());
        }
        if self.steps.len() == 0 {
            return Err("Workflow must have at least one step".to_owned());
        }
        let mut i: usize = 0;
        while i < self.steps.len()
            invariant
                0 <= i <= self.steps@.len(),
                forall|p: int, q: int|
                    0 <= p < q < self.steps@.len() && p < i ==> self.steps@[p].id@
                        != self.steps@[q].id@,
            decreases self.steps@.len() - i,
        {
            let mut j: usize = i + 1;
            while j < self.steps.len()
                invariant
                    0 <= i < j <= self.steps@.len(),
                    forall|q: int|
                        i < q < j ==> self.steps@[i as int].id@ != self.steps@[q].id@,
                decreases self.steps@.len() - j,
            {
                if str_eq(self.steps[i].id.as_str(), self.steps[j].id.as_str()) {
                    let mut m = "Duplicate step ID: ".to_owned();
                    m.append(self.steps[i].id.as_str());
                    return Err(m);
                }
                j += 1;
            }
            i += 1;
        }
        Ok(())
    }
}

impl Validatable for DataSource {
    /// A named source whose kind's required connection detail is
    /// present.
    open spec fn valid(&self) -> bool {
        &&& self.name@.len() > 0
        &&& match self.source_type {
            DataSourceType::Database => self.connection_config.connection_string is Some,
            DataSourceType::Api => self.connection_config.host is Some,
            _ => true,
        }
    }

    fn validate(&self) -> (r: Result<(), String>) {
        if self.name.as_str().is_empty() {
            return Err("Data source name cannot be empty".to_owned());
        }
        match self.source_type {
            DataSourceType::Database => {
                if self.connection_config.connection_string.is_none() {
                    return Err("Database connection string is required".to_owned());
                }
            },
            DataSourceType::Api => {
                if self.connection_config.host.is_none() {
                    return Err("API host is required".to_owned());
                }
            },
            _ => {},
        }
        Ok(())
    }
}

} // verus!
