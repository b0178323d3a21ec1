//! Security metrics: which counter an authentication or authorization
//! event counts in, and under which label values.
//!
//! The counters themselves live in the process-wide metrics registry,
//! which the application holds; each `record_*` function here says which
//! counter to increase and with which labels.
use vstd::prelude::*;

verus! {

/// One increment of a labelled counter.
#[derive(Debug)]
pub struct MetricEvent {
    /// The counter's name
    pub name: String,
    /// The label values, in the counter's label order
    pub labels: Vec<String>,
}

/// The characters of each label.
pub open spec fn labels_view(v: Seq<String>) -> Seq<Seq<char>> {
    Seq::new(v.len(), |i: int| v[i]@)
}

/// What a metric event says: the counter's name and its label values.
pub open spec fn metric_view(e: MetricEvent) -> (Seq<char>, Seq<Seq<char>>) {
    (e.name@, labels_view(e.labels@))
}

/// What each event of a list says.
pub open spec fn metric_views(s: Seq<MetricEvent>) -> Seq<(Seq<char>, Seq<Seq<char>>)> {
    Seq::new(s.len(), |i: int| metric_view(s[i]))
}

/// `success` or `failure`.
pub open spec fn outcome(ok: bool) -> Seq<char> {
    if ok { "success"@ } else { "failure"@ }
}

/// `allowed` or `denied`.
pub open spec fn decision(ok: bool) -> Seq<char> {
    if ok { "allowed"@ } else { "denied"@ }
}

fn owned(s: &str) -> (r: String)
    ensures
        r@ == s@,
{
    let mut r = String::new();
    crate::text::push_str(&mut r, s);
    r
}

fn event1(name: &str, a: &str) -> (e: MetricEvent)
    ensures
        e.name@ == name@,
        labels_view(e.labels@) == seq![a@],
{
    let mut labels: Vec<String> = Vec::new();
    labels.push(owned(a));
    assert(labels_view(labels@) =~= seq![a@]);
    MetricEvent { name: owned(name), labels }
}

fn event2(name: &str, a: &str, b: &str) -> (e: MetricEvent)
    ensures
        e.name@ == name@,
        labels_view(e.labels@) == seq![a@, b@],
{
    let mut labels: Vec<String> = Vec::new();
    labels.push(owned(a));
    labels.push(owned(b));
    assert(labels_view(labels@) =~= seq![a@, b@]);
    MetricEvent { name: owned(name), labels }
}

fn outcome_str(ok: bool) -> (s: &'static str)
    ensures
        s@ == outcome(ok),
{
    if ok { "success" } else { "failure" }
}

/// Security metrics collector.
pub struct SecurityMetrics;

impl SecurityMetrics {
    /// An authentication attempt: method and outcome.
    pub fn record_auth_attempt(method: &str, success: bool) -> (e: MetricEvent)
        ensures
            e.name@ == "langgraph_auth_attempts_total"@,
            labels_view(e.labels@) == seq![method@, outcome(success)],
    {
        event2("langgraph_auth_attempts_total", method, outcome_str(success))
    }

    /// An authentication failure: method and reason.
    pub fn record_auth_failure(method: &str, reason: &str) -> (e: MetricEvent)
        ensures
            e.name@ == "langgraph_auth_failures_total"@,
            labels_view(e.labels@) == seq![method@, reason@],
    {
        event2("langgraph_auth_failures_total", method, reason)
    }

    /// A token operation: operation and outcome.
    pub fn record_token_operation(operation: &str, success: bool) -> (e: MetricEvent)
        ensures
            e.name@ == "langgraph_token_operations_total"@,
            labels_view(e.labels@) == seq![operation@, outcome(success)],
    {
        event2("langgraph_token_operations_total", operation, outcome_str(success))
    }

    /// A token refresh: outcome.
    pub fn record_token_refresh(success: bool) -> (e: MetricEvent)
        ensures
            e.name@ == "langgraph_token_refresh_total"@,
            labels_view(e.labels@) == seq![outcome(success)],
    {
        event1("langgraph_token_refresh_total", outcome_str(success))
    }

    /// A token revocation: reason.
    pub fn record_token_revocation(reason: &str) -> (e: MetricEvent)
        ensures
            e.name@ == "langgraph_tokens_revoked_total"@,
            labels_view(e.labels@) == seq![reason@],
    {
        event1("langgraph_tokens_revoked_total", reason)
    }

    /// A rate limit hit: user.
    pub fn record_rate_limit_hit(user_id: &str) -> (e: MetricEvent)
        ensures
            e.name@ == "langgraph_auth_rate_limit_hits_total"@,
            labels_view(e.labels@) == seq![user_id@],
    {
        event1("langgraph_auth_rate_limit_hits_total", user_id)
    }

    /// A security event: type and severity.
    pub fn record_security_event(event_type: &str, severity: &str) -> (e: MetricEvent)
        ensures
            e.name@ == "langgraph_security_events_total"@,
            labels_view(e.labels@) == seq![event_type@, severity@],
    {
        event2("langgraph_security_events_total", event_type, severity)
    }

    /// An authorization decision: action and decision.
    pub fn record_authz_decision(action: &str, allowed: bool) -> (e: MetricEvent)
        ensures
            e.name@ == "langgraph_authz_decisions_total"@,
            labels_view(e.labels@) == seq![action@, decision(allowed)],
    {
        let d = if allowed { "allowed" } else { "denied" };
        event2("langgraph_authz_decisions_total", action, d)
    }

    /// A permission denial: permission and role.
    pub fn record_permission_denial(permission: &str, role: &str) -> (e: MetricEvent)
        ensures
            e.name@ == "langgraph_permission_denials_total"@,
            labels_view(e.labels@) == seq![permission@, role@],
    {
        event2("langgraph_permission_denials_total", permission, role)
    }

    /// An audit log write: event type.
    pub fn record_audit_log(event_type: &str) -> (e: MetricEvent)
        ensures
            e.name@ == "langgraph_audit_logs_written_total"@,
            labels_view(e.labels@) == seq![event_type@],
    {
        event1("langgraph_audit_logs_written_total", event_type)
    }
}

} // verus!
