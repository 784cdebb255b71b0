//! How the health of a container is checked. Times are in nanoseconds.

use vstd::prelude::*;

verus! {

/// A check that a port takes connections.
#[derive(Clone, Copy, PartialEq, Eq, Structural, Debug)]
pub struct TcpHealthCheck {
    pub port: u16,
    pub timeout: u128,
    pub period: u128,
    pub failure_threshold: u32,
}

/// How a container is watched.
#[derive(Clone, Copy, PartialEq, Eq, Structural, Debug)]
pub struct HealthCheckConfig {
    pub startup_timeout: u128,
    pub startup_failure_threshold: u32,
    pub liveness_period: u128,
    pub liveness_failure_threshold: u32,
    pub tcp_check: Option<TcpHealthCheck>,
}

/// Half a minute.
pub fn default_startup_timeout() -> (r: u128)
    ensures
        r == 30_000_000_000,
{
    30_000_000_000
}

/// The value of `startup_failure_threshold` where none is given. Only zero is told
/// apart from the rest: the startup is looked at once, and fails with the first
/// error.
pub fn default_startup_threshold() -> (r: u32)
    ensures
        r == 3,
{
    3
}

/// Ten seconds.
pub fn default_liveness_period() -> (r: u128)
    ensures
        r == 10_000_000_000,
{
    10_000_000_000
}

/// Three failures.
pub fn default_liveness_threshold() -> (r: u32)
    ensures
        r == 3,
{
    3
}

/// Five seconds.
pub fn default_tcp_timeout() -> (r: u128)
    ensures
        r == 5_000_000_000,
{
    5_000_000_000
}

/// Ten seconds.
pub fn default_tcp_period() -> (r: u128)
    ensures
        r == 10_000_000_000,
{
    10_000_000_000
}

/// Three failures.
pub fn default_tcp_threshold() -> (r: u32)
    ensures
        r == 3,
{
    3
}

impl Default for HealthCheckConfig {
    fn default() -> (r: Self)
        ensures
            r == (HealthCheckConfig {
                startup_timeout: 30_000_000_000,
                startup_failure_threshold: 3,
                liveness_period: 10_000_000_000,
                liveness_failure_threshold: 3,
                tcp_check: None,
            }),
    {
        HealthCheckConfig {
            startup_timeout: default_startup_timeout(),
            startup_failure_threshold: default_startup_threshold(),
            liveness_period: default_liveness_period(),
            liveness_failure_threshold: default_liveness_threshold(),
            tcp_check: None,
        }
    }
}

} // verus!
