//! A dependency-graph workflow execution engine.
//!
//! A workflow is a named set of steps, each with a unique id, a named
//! operation, declared dependencies on other steps, and an input payload.
//! The engine validates the dependency graph, computes a topological
//! execution order, runs each step through its operation handler, and
//! aggregates per-step results and failures into a final outcome.

pub mod engine;
pub mod formulas;
pub mod graph;
pub mod models;
pub mod ops;
pub mod step;
pub mod storage;
pub mod strmap;
pub mod value;
