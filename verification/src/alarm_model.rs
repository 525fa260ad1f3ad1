//! Alarm vocabulary shared by the alarm views.

use vstd::prelude::*;

verus! {

/// Alarm severity, from least to most severe.
#[derive(Debug, Clone, Copy, PartialEq, Eq, Structural)]
pub enum AlarmSeverity {
    Info,
    Warning,
    Critical,
    LifeSafety,
}


/// Kind of alarm condition.
#[derive(Debug, Clone, Copy, PartialEq, Eq, Structural)]
pub enum AlarmType {
    HighLimit,
    LowLimit,
    StateFault,
    Stale,
    Deviation,
    StateChange,
    MultiStateAlarm,
    CommandMismatch,
}

} // verus!
