//! Core of a minimal container orchestrator: a control-plane reconciliation
//! engine paired with a node-local agent.
//!
//! The library holds the verified logic: the data model, the in-memory store,
//! the reconciler, the scheduler, the rolling-update algorithm, the pod
//! termination protocol, and the agent's pod-state machine. Network and
//! container-runtime plumbing live outside the library and drive these
//! functions with plain values.

pub mod agent;
pub mod api;
pub mod controller;
pub mod error;
pub mod laws;
pub mod manifest;
pub mod metrics;
pub mod models;
pub mod runtime;
pub mod scheduler;
pub mod store;
pub mod text;
