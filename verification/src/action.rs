//! Requests the interface hands to the background worker.

use vstd::prelude::*;

verus! {

/// A request to the core, made from the interface.
#[derive(Debug, Clone)]
pub enum Action {
    /// Measure the latency of the members of a group.
    TestLatency { group: String, proxies: Vec<String> },
    /// Make a selector group use one of its members.
    ApplySelection { group: String, proxy: String },
}

} // verus!
