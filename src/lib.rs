//! Host monitoring core: the shared process table and its two-phase sampling
//! protocol, the flat process list and its grouping into applications, the
//! resource snapshot, byte formatting, and process control decisions.

pub mod apps;
pub mod control;
pub mod format;
pub mod percent;
pub mod process;
pub mod ranking;
pub mod sampler;
pub mod stats;
