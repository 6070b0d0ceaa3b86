//! Security configuration and incident records.

use vstd::prelude::*;

verus! {

/// Rate limits for denial-of-service resistance.
#[derive(Clone, Copy, Debug, PartialEq, Eq, Structural)]
pub struct RateLimitConfig {
    /// Requests per second per peer; zero disables.
    pub requests_per_sec: u32,
    /// Connections per address; zero disables.
    pub connections_per_ip: u32,
    /// Pending transactions per sender in the mempool.
    pub pending_txs_per_sender: u32,
}

impl RateLimitConfig {
    /// The main-network defaults.
    pub fn default_mainnet() -> (r: Self)
        ensures
            r.requests_per_sec == 100,
            r.connections_per_ip == 50,
            r.pending_txs_per_sender == 16,
    {
        RateLimitConfig { requests_per_sec: 100, connections_per_ip: 50, pending_txs_per_sender: 16 }
    }

    /// The development-network defaults.
    pub fn default_devnet() -> (r: Self)
        ensures
            r.requests_per_sec == 1000,
            r.connections_per_ip == 100,
            r.pending_txs_per_sender == 64,
    {
        RateLimitConfig {
            requests_per_sec: 1000,
            connections_per_ip: 100,
            pending_txs_per_sender: 64,
        }
    }
}

impl Default for RateLimitConfig {
    fn default() -> (r: Self)
        ensures
            r.requests_per_sec == 0,
            r.connections_per_ip == 0,
            r.pending_txs_per_sender == 0,
    {
        RateLimitConfig { requests_per_sec: 0, connections_per_ip: 0, pending_txs_per_sender: 0 }
    }
}

/// Severity of a security incident.
#[derive(Clone, Copy, Debug, PartialEq, Eq, Structural)]
pub enum IncidentSeverity {
    Low,
    Medium,
    High,
    Critical,
}

/// An incident report for internal tracking.
#[derive(Clone, Debug)]
pub struct IncidentReport {
    pub severity: IncidentSeverity,
    pub summary: Vec<u8>,
    pub component: Vec<u8>,
    pub timestamp_secs: u64,
}

} // verus!
