//! Reconciliation of two network-scan snapshots: match hosts across the two
//! by shared addresses, classify each host as new, gone, changed or
//! unchanged, compute field-level diffs with noise suppressed, and render
//! the outcome as text. Every function is verified against a mathematical
//! model of hosts, ports and addresses.

pub mod host;
pub mod matcher;
pub mod diff;
pub mod delta;
pub mod render;
