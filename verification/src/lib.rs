//! Runtime monitoring of properties over a stream of IoT device states.
//!
//! Properties are compiled into flat programs of derived streams
//! (`monitor_setup`), which are evaluated at every time point against the
//! recorded device states (`monitor`).
use vstd::prelude::*;

pub mod errors;
pub mod monitor;
pub mod monitor_setup;
pub mod program;
pub mod syntax_tree;
pub mod utils;

verus! {

} // verus!
