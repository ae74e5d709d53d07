//! Thread budgets for compute workloads, derived from the host's core count.
//!
//! A [`CpuConfig`] holds the number of cores found on the host, optional
//! thread counts requested for a general pool and a batch pool, and the share
//! of the cores that a pool without a request gets. `initialize` reconciles
//! the requests with the host, either failing on the first issue or
//! correcting every issue and reporting it as a warning. The share is a
//! single-precision float held by its bit pattern ([`Binary32`]); the
//! arithmetic on it is done on integers and proved against the rounding
//! rules of IEEE 754.

pub mod binary32;
pub mod config;
pub mod host;
pub mod laws;
pub mod nearest;
pub mod rounding;
pub mod scaling;

pub use crate::binary32::Binary32;
pub use crate::config::{ConfigIssue, CpuConfig};
