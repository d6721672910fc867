//! Configuration for the durable persistence collaborator.
//!
//! The engine itself keeps workflow state in memory; a relational store
//! is an optional collaborator wired in by the surrounding service, and
//! this is its connection configuration.

use vstd::prelude::*;
use vstd::string::StringExecFns;

verus! {

/// How to reach the workflow store.
#[derive(Debug, Clone, PartialEq)]
pub struct DatabaseConfig {
    pub database_url: String,
    pub max_connections: u32,
    pub timeout_seconds: u64,
}

impl Default for DatabaseConfig {
    /// A local file-backed store with modest limits.
    fn default() -> (r: Self)
        ensures
            r.database_url@ == "sqlite:data/uds_v2.db"@,
            r.max_connections == 5,
            r.timeout_seconds == 30,
    {
        DatabaseConfig {
            database_url: "sqlite:data/uds_v2.db".to_owned(),
            max_connections: 5,
            timeout_seconds: 30,
        }
    }
}

} // verus!
