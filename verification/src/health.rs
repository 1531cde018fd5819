//! Network health evaluation.
//!
//! The health checker itself runs on a timer outside this crate; the
//! decision from observed counts to a health verdict lives here.

use vstd::prelude::*;
use vstd::string::StringExecFns;

verus! {

/// Overall health status.
#[derive(Clone, Debug)]
pub enum HealthStatus {
    Healthy,
    Degraded { reason: String },
    Critical { reason: String },
}

/// Thresholds for health checks.
#[derive(Clone, Debug)]
pub struct HealthThresholds {
    pub min_peers: usize,
    pub max_latency_ms: u64,
    pub min_validator_connections: usize,
    /// Bytes per second.
    pub bandwidth_threshold: usize,
    /// Messages per second.
    pub message_rate_threshold: usize,
}

/// Health status of the network at one observation.
#[derive(Clone, Debug)]
pub struct NetworkHealthStatus {
    pub timestamp_ms: u64,
    pub status: HealthStatus,
    pub peer_count: usize,
    pub validator_connections: usize,
    /// Messages per second, in thousandths.
    pub message_rate_milli: u64,
    pub average_latency_ms: u64,
}

/// The observation is critical: fewer than half the required peers, or no
/// validator connection at all while some are required.
pub open spec fn spec_health_critical(
    t: HealthThresholds,
    peer_count: usize,
    validator_connections: usize,
) -> bool {
    ||| (peer_count < t.min_peers && peer_count < t.min_peers / 2)
    ||| (validator_connections < t.min_validator_connections && validator_connections == 0)
}

/// The observation raises at least one issue.
pub open spec fn spec_health_issue(
    t: HealthThresholds,
    peer_count: usize,
    validator_connections: usize,
    average_latency_ms: u64,
    message_rate_milli: u64,
) -> bool {
    ||| peer_count < t.min_peers
    ||| validator_connections < t.min_validator_connections
    ||| average_latency_ms > t.max_latency_ms
    ||| message_rate_milli < t.message_rate_threshold * 1000
}

/// Evaluate the network health from the observed counts.
pub fn evaluate_health(
    thresholds: &HealthThresholds,
    peer_count: usize,
    validator_connections: usize,
    average_latency_ms: u64,
    message_rate_milli: u64,
    now: u64,
) -> (r: NetworkHealthStatus)
    requires
        thresholds.message_rate_threshold <= u32::MAX,
    ensures
        r.timestamp_ms == now,
        r.peer_count == peer_count,
        r.validator_connections == validator_connections,
        r.message_rate_milli == message_rate_milli,
        r.average_latency_ms == average_latency_ms,
        r.status is Critical <==> spec_health_critical(
            *thresholds,
            peer_count,
            validator_connections,
        ),
        r.status is Degraded <==> (!spec_health_critical(
            *thresholds,
            peer_count,
            validator_connections,
        ) && spec_health_issue(
            *thresholds,
            peer_count,
            validator_connections,
            average_latency_ms,
            message_rate_milli,
        )),
        r.status is Healthy <==> !spec_health_issue(
            *thresholds,
            peer_count,
            validator_connections,
            average_latency_ms,
            message_rate_milli,
        ),
{
    let mut critical = false;
    let mut reason = String::new();
    let mut issues = false;
    if peer_count < thresholds.min_peers {
        issues = true;
        reason.append("insufficient peers; ");
        if peer_count < thresholds.min_peers / 2 {
            critical = true;
        }
    }
    if validator_connections < thresholds.min_validator_connections {
        issues = true;
        reason.append("low validator connections; ");
        if validator_connections == 0 {
            critical = true;
        }
    }
    if average_latency_ms > thresholds.max_latency_ms {
        issues = true;
        reason.append("high network latency; ");
    }
    if message_rate_milli < thresholds.message_rate_threshold as u64 * 1000 {
        issues = true;
        reason.append("low message rate; ");
    }
    let status = if critical {
        HealthStatus::Critical { reason }
    } else if issues {
        HealthStatus::Degraded { reason }
    } else {
        HealthStatus::Healthy
    };
    NetworkHealthStatus {
        timestamp_ms: now,
        status,
        peer_count,
        validator_connections,
        message_rate_milli,
        average_latency_ms,
    }
}

/// Whether an observation changes the health verdict.  Before anything
/// was observed every verdict counts as a change; afterwards only the
/// level matters.
pub fn is_status_change(last: &Option<NetworkHealthStatus>, new_status: &NetworkHealthStatus) -> (r:
    bool)
    ensures
        last is None ==> r,
        last matches Some(prev) ==> r == !((prev.status is Healthy && new_status.status is Healthy)
            || (prev.status is Degraded && new_status.status is Degraded) || (
        prev.status is Critical && new_status.status is Critical)),
{
    match last {
        Option::None => true,
        Option::Some(prev) => {
            let same = match (&prev.status, &new_status.status) {
                (HealthStatus::Healthy, HealthStatus::Healthy) => true,
                (HealthStatus::Degraded { .. }, HealthStatus::Degraded { .. }) => true,
                (HealthStatus::Critical { .. }, HealthStatus::Critical { .. }) => true,
                _ => false,
            };
            !same
        },
    }
}

} // verus!
