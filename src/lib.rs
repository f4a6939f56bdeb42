//! Process-tree reconstruction for a process monitor.
//!
//! The library turns a flat, possibly inconsistent enumeration of operating
//! system processes into a snapshot: the enriched process records and an index
//! from each observed pid to the pids of its direct children. It also decides
//! the outcome of a termination request from what the platform reported.
use vstd::prelude::*;

pub mod control;
pub mod tree;

verus! {

} // verus!
