//! Audit logging for security events.
use vstd::prelude::*;
use crate::engine::tracing::{copy_string_map, string_map};
use crate::keyed_map::StrMap;

verus! {

/// A recorded security event. The timestamp is in milliseconds since the
/// Unix epoch.
#[derive(Debug)]
pub struct AuditEvent {
    /// Event type (e.g. "authentication_success", "permission_denied")
    pub event_type: String,
    /// User ID associated with the event
    pub user_id: String,
    /// When the event occurred
    pub timestamp: i64,
    /// Additional event metadata
    pub metadata: StrMap<String>,
}

/// What an event says: its type, user, time and metadata.
pub open spec fn event_view(e: AuditEvent) -> (Seq<char>, Seq<char>, i64, Map<Seq<char>, Seq<char>>) {
    (e.event_type@, e.user_id@, e.timestamp, string_map(e.metadata))
}

/// What each event of a list says.
pub open spec fn events_view(s: Seq<AuditEvent>) -> Seq<(Seq<char>, Seq<char>, i64, Map<Seq<char>, Seq<char>>)> {
    Seq::new(s.len(), |i: int| event_view(s[i]))
}

/// The events of `s` that belong to `user_id`, in order.
pub open spec fn user_events(s: Seq<AuditEvent>, user_id: Seq<char>) -> Seq<AuditEvent>
    decreases s.len(),
{
    if s.len() == 0 {
        Seq::empty()
    } else if s.last().user_id@ == user_id {
        user_events(s.drop_last(), user_id).push(s.last())
    } else {
        user_events(s.drop_last(), user_id)
    }
}

impl AuditEvent {
    /// A copy of this event, saying the same.
    pub fn copy(&self) -> (r: AuditEvent)
        ensures
            event_view(r) == event_view(*self),
    {
        AuditEvent {
            event_type: self.event_type.clone(),
            user_id: self.user_id.clone(),
            timestamp: self.timestamp,
            metadata: copy_string_map(&self.metadata),
        }
    }
}

/// Keeps the security events in the order they were logged.
#[derive(Debug)]
pub struct AuditLogger {
    /// The logged events, oldest first
    pub events: Vec<AuditEvent>,
}

impl AuditLogger {
    /// A logger with no events.
    pub fn new() -> (l: AuditLogger)
        ensures
            l.events@.len() == 0,
    {
        AuditLogger { events: Vec::new() }
    }

    /// Logs an event at the time of the system clock.
    pub fn log_event(&mut self, event_type: String, user_id: String, metadata: StrMap<String>)
        ensures
            final(self).events@.len() == old(self).events@.len() + 1,
            final(self).events@.drop_last() == old(self).events@,
            final(self).events@.last().event_type == event_type,
            final(self).events@.last().user_id == user_id,
            final(self).events@.last().metadata == metadata,
            final(self).events@.last().timestamp >= 0,
    {
        self.log_event_at(event_type, user_id, metadata, crate::clock::now_millis());
    }

    /// Logs an event that happened at `now`.
    pub fn log_event_at(&mut self, event_type: String, user_id: String, metadata: StrMap<String>, now: i64)
        ensures
            final(self).events@ == old(self).events@.push(
                AuditEvent { event_type, user_id, timestamp: now, metadata },
            ),
    {
        self.events.push(AuditEvent { event_type, user_id, timestamp: now, metadata });
    }

    /// Copies of all events, oldest first.
    pub fn get_events(&self) -> (r: Vec<AuditEvent>)
        ensures
            events_view(r@) == events_view(self.events@),
    {
        let mut r: Vec<AuditEvent> = Vec::new();
        let mut i: usize = 0;
        while i < self.events.len()
            invariant
                i <= self.events@.len(),
                events_view(r@) == events_view(self.events@.take(i as int)),
            decreases self.events@.len() - i,
        {
            let e = self.events[i].copy();
            r.push(e);
            assert(events_view(self.events@.take(i + 1)) =~= events_view(self.events@.take(i as int)).push(event_view(self.events@[i as int])));
            assert(events_view(r@) =~= events_view(self.events@.take(i + 1)));
            i = i + 1;
        }
        assert(self.events@.take(i as int) =~= self.events@);
        r
    }

    /// Copies of the events of `user_id`, oldest first.
    pub fn get_user_events(&self, user_id: &str) -> (r: Vec<AuditEvent>)
        ensures
            events_view(r@) == events_view(user_events(self.events@, user_id@)),
    {
        let mut r: Vec<AuditEvent> = Vec::new();
        let mut i: usize = 0;
        while i < self.events.len()
            invariant
                i <= self.events@.len(),
                events_view(r@) == events_view(user_events(self.events@.take(i as int), user_id@)),
            decreases self.events@.len() - i,
        {
            let ghost pre = self.events@.take(i as int);
            assert(self.events@.take(i + 1).drop_last() =~= pre);
            assert(self.events@.take(i + 1).last() == self.events@[i as int]);
            if crate::text::str_eq(self.events[i].user_id.as_str(), user_id) {
                let e = self.events[i].copy();
                let ghost before = r@;
                r.push(e);
                assert(user_events(self.events@.take(i + 1), user_id@) == user_events(pre, user_id@).push(self.events@[i as int]));
                assert(events_view(r@) =~= events_view(before).push(event_view(self.events@[i as int])));
                assert(events_view(user_events(pre, user_id@).push(self.events@[i as int])) =~= events_view(user_events(pre, user_id@)).push(event_view(self.events@[i as int])));
            }
            i = i + 1;
        }
        assert(self.events@.take(i as int) =~= self.events@);
        r
    }

    /// Forgets all events.
    pub fn clear(&mut self)
        ensures
            final(self).events@.len() == 0,
    {
        self.events = Vec::new();
    }
}

impl Default for AuditLogger {
    fn default() -> (l: AuditLogger)
        ensures
            l.events@.len() == 0,
    {
        AuditLogger::new()
    }
}

} // verus!
