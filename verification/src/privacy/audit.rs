//! Events of the append-only audit log.
use vstd::prelude::*;

verus! {

/// Something the audit log records.
#[derive(Debug, Clone)]
pub enum AuditEvent {
    CaptureStarted { session_id: i64 },
    CaptureStopped { session_id: i64 },
    CapturePaused { session_id: i64 },
    CaptureResumed { session_id: i64 },
    DataDeleted { start_ms: u64, end_ms: u64, frames_deleted: usize },
    SettingsChanged { field: String, old_value: String, new_value: String },
}

/// One line of the audit log: when, and what.
#[derive(Debug, Clone)]
pub struct AuditLogEntry {
    timestamp: String,
    event: AuditEvent,
}

impl AuditLogEntry {
    pub closed spec fn time(&self) -> Seq<char> {
        self.timestamp@
    }

    pub closed spec fn what(&self) -> AuditEvent {
        self.event
    }

    /// The entry for `event` at `timestamp` (an RFC 3339 time).
    pub fn new(timestamp: String, event: AuditEvent) -> (e: Self)
        ensures
            e.time() == timestamp@,
            e.what() == event,
    {
        AuditLogEntry { timestamp, event }
    }

    pub fn timestamp(&self) -> (t: &String)
        ensures
            t@ == self.time(),
    {
        &self.timestamp
    }

    pub fn event(&self) -> (e: &AuditEvent)
        ensures
            *e == self.what(),
    {
        &self.event
    }
}

} // verus!
