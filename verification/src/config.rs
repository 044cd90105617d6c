//! The running configuration the API reports.

use vstd::prelude::*;

verus! {

/// How traffic is routed.
#[derive(Debug, Clone, Copy, PartialEq, Eq, PartialOrd, Ord, Hash, Structural)]
pub enum Mode {
    Global,
    Rule,
    Direct,
}

/// How much the core logs.
#[derive(Debug, Clone, Copy, PartialEq, Eq, PartialOrd, Ord, Hash, Structural)]
pub enum Level {
    Debug,
    Info,
    Warning,
    Error,
    Silent,
}

/// The running configuration of the core.
#[derive(Debug, Clone, PartialEq, Eq, PartialOrd, Ord)]
pub struct Config {
    pub port: u64,
    pub socks_port: u64,
    pub redir_port: u64,
    pub tproxy_port: u64,
    pub mixed_port: u64,
    pub allow_lan: bool,
    pub ipv6: bool,
    pub mode: Mode,
    pub log_level: Level,
    pub bind_address: String,
    /// Credentials accepted by the inbound proxies; none when the API sends `null`.
    pub authentication: Vec<String>,
}

} // verus!
