//! The graceful-shutdown request: whether it can be scheduled, and what the
//! server answers.

use vstd::prelude::*;

verus! {

/// Process exit code of a graceful shutdown.
pub const EXIT_GRACEFUL: i32 = 6;

/// The answer to a shutdown request.
#[derive(Debug, Clone, Copy, PartialEq, Eq, Structural)]
pub enum ShutdownOutcome {
    /// `202 Accepted`: the exit is scheduled with [`EXIT_GRACEFUL`].
    Scheduled,
    /// `503 Service Unavailable`: no hub to notify the WebSocket clients.
    HubNotConfigured,
}

impl ShutdownOutcome {
    pub open spec fn spec_status(&self) -> u16 {
        match self {
            ShutdownOutcome::Scheduled => 202,
            ShutdownOutcome::HubNotConfigured => 503,
        }
    }

    /// HTTP status of the answer.
    pub fn status(&self) -> (s: u16)
        ensures
            s == self.spec_status(),
    {
        match self {
            ShutdownOutcome::Scheduled => 202,
            ShutdownOutcome::HubNotConfigured => 503,
        }
    }
}

/// A shutdown is scheduled only when a hub is attached: without one the
/// WebSocket clients could not be told why the connection closes.
pub fn shutdown_decision(hub_configured: bool) -> (o: ShutdownOutcome)
    ensures
        o == (if hub_configured {
            ShutdownOutcome::Scheduled
        } else {
            ShutdownOutcome::HubNotConfigured
        }),
{
    if hub_configured {
        ShutdownOutcome::Scheduled
    } else {
        ShutdownOutcome::HubNotConfigured
    }
}

} // verus!
