//! Execution-facing layer of a DAG-based Byzantine-fault-tolerant consensus
//! protocol: a round-indexed store of causally linked certificates, the
//! leader-linkage (ancestry) check that commit-rule evaluation relies on, and
//! an execution engine that deterministically applies the agreed transaction
//! order to application state.

pub mod codec;
pub mod dag;
pub mod execution_state;
pub mod kv_store;
pub mod kv_transaction;
pub mod linkage;
pub mod memory_execution_engine;
