//! Containers inferred from kernel-exposed process metadata: processes are
//! grouped by the six namespace identities they share, and per-group
//! resource-controller statistics are assembled into fixed-shape snapshots.
//!
//! The library decides and computes; it performs no I/O. A caller lists
//! `/proc`, reads the links and files whose paths the library names, and hands
//! back what it read.

pub mod container;
pub mod error;
pub mod manager;
pub mod text;
