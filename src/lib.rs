//! Directory-tree integrity checks: classification of the entries found under
//! a root directory and the anomaly report built from them.

pub mod paths;
pub mod message;
pub mod scan;
pub mod laws;
