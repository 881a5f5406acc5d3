//! Deterministic concurrency control for a versioned key-value store.
//!
//! Transactions are assigned a total order at admission time (their id), and
//! the protocols here guarantee that commits are finalized in strictly
//! increasing, gapless id order, however the transactions are interleaved.

pub mod constraint;
pub mod tx;
pub mod rw;
pub mod wrap;
pub mod twrap;
pub mod tpool;
pub mod kv_core;
pub mod kv_sparkle;
pub mod kv_splice;
pub mod serial;
pub mod null_control;
pub mod null_durable;
pub mod service;
pub mod script;
pub mod laws;
pub mod unif;
pub mod core_workload;
pub mod vecmap;
pub mod kv_table;
