//! The monitor's decisions: which transition one observation stands
//! for, and the settings the command runs with.

use vstd::prelude::*;

use crate::model::Connectivity;

verus! {

/// Default seconds between connection checks.
pub const DEFAULT_MONITOR_INTERVAL: u64 = 5;

/// Default seconds before one probe request times out.
pub const DEFAULT_MONITOR_TIMEOUT: u64 = 3;

/// What one observation means, compared with the previous one. Only these
/// transitions are logged; an Online sample after an Online sample is
/// silent.
#[derive(Debug, Clone, Copy, PartialEq, Eq, Structural)]
pub enum TransitionEvent {
    StartedAvailable,
    StartedUnavailable,
    Unavailable,
    Restored,
}

/// The event logged for one observation, given the previous observation:
/// the first observation reports the starting state; any Offline sample
/// after a first observation reports an unavailable network; an Online
/// sample reports a restored network exactly when the previous sample was
/// Offline.
pub open spec fn spec_transition_event(
    previous: Option<Connectivity>,
    current: Connectivity,
) -> Option<TransitionEvent> {
    match (previous, current) {
        (Option::None, Connectivity::Online) => Option::Some(TransitionEvent::StartedAvailable),
        (Option::None, Connectivity::Offline) => Option::Some(
            TransitionEvent::StartedUnavailable,
        ),
        (Option::Some(_), Connectivity::Offline) => Option::Some(TransitionEvent::Unavailable),
        (Option::Some(Connectivity::Offline), Connectivity::Online) => Option::Some(
            TransitionEvent::Restored,
        ),
        (Option::Some(Connectivity::Online), Connectivity::Online) => Option::None,
    }
}

/// Decides which transition, if any, one observation represents.
pub fn transition_event(previous: Option<Connectivity>, current: Connectivity) -> (r: Option<
    TransitionEvent,
>)
    ensures
        r == spec_transition_event(previous, current),
{
    match (previous, current) {
        (Option::None, Connectivity::Online) => Option::Some(TransitionEvent::StartedAvailable),
        (Option::None, Connectivity::Offline) => Option::Some(
            TransitionEvent::StartedUnavailable,
        ),
        (Option::Some(_), Connectivity::Offline) => Option::Some(TransitionEvent::Unavailable),
        (Option::Some(Connectivity::Offline), Connectivity::Online) => Option::Some(
            TransitionEvent::Restored,
        ),
        (Option::Some(Connectivity::Online), Connectivity::Online) => Option::None,
    }
}

impl TransitionEvent {
    /// The log message of this transition.
    pub fn message(&self) -> (r: String)
        ensures
            self is StartedAvailable ==> r@ == "Started - Internet available"@,
            self is StartedUnavailable ==> r@ == "Started - Internet unavailable"@,
            self is Unavailable ==> r@ == "Internet unavailable"@,
            self is Restored ==> r@ == "Internet restored"@,
    {
        match self {
            TransitionEvent::StartedAvailable => "Started - Internet available".to_owned(),
            TransitionEvent::StartedUnavailable => "Started - Internet unavailable".to_owned(),
            TransitionEvent::Unavailable => "Internet unavailable".to_owned(),
            TransitionEvent::Restored => "Internet restored".to_owned(),
        }
    }
}


/// Settings of the rotating logger, as the command line supplies them.
#[derive(Debug, Clone)]
pub struct LoggerArgs {
    pub filename: String,
    pub size: u64,
    pub mode: crate::log::LogMode,
    pub dir: Option<String>,
}

/// The logfile name prefix alone, for commands that only locate logs.
#[derive(Debug, Clone)]
pub struct LoggerLocationArgs {
    pub filename: String,
}

/// Settings of the connection observer: the poll interval and the
/// per-request timeout, both in seconds.
#[derive(Debug, Clone, Copy, PartialEq, Eq, Structural)]
pub struct ObserverArgs {
    pub interval: u64,
    pub timeout: u64,
}

/// Everything the monitor command needs.
#[derive(Debug, Clone)]
pub struct MonitorArgs {
    pub logger: LoggerArgs,
    pub observer: ObserverArgs,
}

} // verus!
