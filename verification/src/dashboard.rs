//! The process-wide dashboard flag and the health probe's decision.
//!
//! The flag opts an operator into the observability read path: when it is
//! off, the read cache is bypassed and event relay to dashboard listeners
//! is suppressed.

use crate::models::{ApiError, HealthStatus};
use vstd::prelude::*;
use vstd::string::StringExecFns;

verus! {

/// The dashboard toggle.
pub struct DashboardFlag {
    enabled: bool,
}

impl DashboardFlag {
    /// Whether the dashboard read path is on.
    pub closed spec fn is_on(&self) -> bool {
        self.enabled
    }

    /// The relay starts with the dashboard off.
    pub fn new() -> (r: DashboardFlag)
        ensures
            !r.is_on(),
    {
        DashboardFlag { enabled: false }
    }

    /// A dashboard login turns the flag on.
    pub fn login(&mut self) -> (enabled: bool)
        ensures
            final(self).is_on(),
            enabled,
    {
        self.enabled = true;
        true
    }

    /// A dashboard logout turns the flag off.
    pub fn logout(&mut self) -> (enabled: bool)
        ensures
            !final(self).is_on(),
            !enabled,
    {
        self.enabled = false;
        false
    }

    /// The current flag, as the status endpoint reports it.
    pub fn status(&self) -> (enabled: bool)
        ensures
            enabled == self.is_on(),
    {
        self.enabled
    }
}

/// The health probe's answer: healthy with a timestamp when the store
/// handed out a connection, service-unavailable otherwise.
pub fn health_answer(db_ok: bool, now: u64) -> (r: Result<HealthStatus, ApiError>)
    ensures
        db_ok <==> r is Ok,
        (match r {
            Ok(h) => h.status@ == "healthy"@ && h.timestamp == now,
            Err(e) => e == ApiError::Unavailable,
        }),
{
    if db_ok {
        Ok(HealthStatus { status: "healthy".to_owned(), timestamp: now })
    } else {
        Err(ApiError::Unavailable)
    }
}

} // verus!
