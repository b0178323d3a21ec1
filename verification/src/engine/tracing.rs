//! Tracing: trace contexts, spans and their events, and carrying a context
//! across process boundaries in headers.
//!
//! Times are nanoseconds since the Unix epoch; durations are nanoseconds.
use vstd::prelude::*;
use crate::clock::{elapsed, elapsed_since, now_nanos};
use crate::keyed_map::{StrMap, entries_map, keys_unique};
use crate::text::{
    to_chars, from_chars, starts_with, is_prefix, parse_unsigned, parse_unsigned_spec,
    decimal_string, dec_string, push_str, concat_str,
};

verus! {

/// `Uuid::new_v4` written out by `to_string`: a random identifier in
/// hyphenated form, which has 36 characters. Nothing else is promised of
/// it: it is drawn at random.
#[verifier::external_body]
pub(crate) fn new_uuid_string() -> (s: String)
    ensures
        s@.len() == 36,
{
    uuid::Uuid::new_v4().to_string()
}

/// Trace context for distributed tracing.
#[derive(Debug)]
pub struct TraceContext {
    /// Unique trace ID
    pub trace_id: String,
    /// Parent span ID
    pub parent_span_id: Option<String>,
    /// Current span ID
    pub span_id: String,
    /// Trace flags
    pub flags: u8,
    /// Baggage items
    pub baggage: StrMap<String>,
}

/// The meaning of a string map: each key's value taken by its characters.
pub open spec fn string_map(m: StrMap<String>) -> Map<Seq<char>, Seq<char>> {
    m.map().map_values(|v: String| v@)
}

/// A copy of a string map with the same meaning.
pub fn copy_string_map(m: &StrMap<String>) -> (r: StrMap<String>)
    ensures
        string_map(r) == string_map(*m),
{
    m.assert_unique();
    let ghost es = m.spec_entries();
    let mut r: StrMap<String> = StrMap::new();
    let mut i: usize = 0;
    while i < m.len()
        invariant
            0 <= i <= es.len(),
            es == m.spec_entries(),
            keys_unique(es),
            string_map(r) == entries_map(es.take(i as int)).map_values(|v: String| v@),
        decreases es.len() - i,
    {
        proof {
            crate::state::lemma_prefix_map(es, i as int);
        }
        let k = crate::json::copy_string(m.key_at(i));
        let v = crate::json::copy_string(m.value_at(i));
        let ghost before = string_map(r);
        r.insert(k, v);
        proof {
            assert(string_map(r) =~= before.insert(es[i as int].0, es[i as int].1@));
            assert(entries_map(es.take(i + 1)).map_values(|v: String| v@) =~= entries_map(es.take(i as int)).map_values(|v: String| v@).insert(es[i as int].0, es[i as int].1@));
        }
        i = i + 1;
    }
    proof {
        crate::state::lemma_take_all(es);
        assert(string_map(r) =~= string_map(*m));
    }
    r
}

impl TraceContext {
    /// A new trace with fresh trace and span ids, sampled, without parent
    /// or baggage.
    pub fn new() -> (c: TraceContext)
        ensures
            c.trace_id@.len() == 36,
            c.span_id@.len() == 36,
            c.parent_span_id is None,
            c.flags == 1,
            string_map(c.baggage) == Map::<Seq<char>, Seq<char>>::empty(),
    {
        let b: StrMap<String> = StrMap::new();
        assert(string_map(b) =~= Map::<Seq<char>, Seq<char>>::empty());
        TraceContext {
            trace_id: new_uuid_string(),
            parent_span_id: None,
            span_id: new_uuid_string(),
            flags: 1,
            baggage: b,
        }
    }

    /// A child context: the same trace, flags and baggage, this span as
    /// parent, and a fresh span id.
    pub fn child(&self) -> (c: TraceContext)
        ensures
            c.trace_id@ == self.trace_id@,
            c.parent_span_id matches Some(p) && p@ == self.span_id@,
            c.span_id@.len() == 36,
            c.flags == self.flags,
            string_map(c.baggage) == string_map(self.baggage),
    {
        TraceContext {
            trace_id: crate::json::copy_string(&self.trace_id),
            parent_span_id: Some(crate::json::copy_string(&self.span_id)),
            span_id: new_uuid_string(),
            flags: self.flags,
            baggage: copy_string_map(&self.baggage),
        }
    }

    /// Sets a baggage item.
    pub fn add_baggage(&mut self, key: String, value: String)
        ensures
            string_map(final(self).baggage) == string_map(old(self).baggage).insert(key@, value@),
            final(self).trace_id == old(self).trace_id,
            final(self).span_id == old(self).span_id,
            final(self).parent_span_id == old(self).parent_span_id,
            final(self).flags == old(self).flags,
    {
        let ghost before = string_map(self.baggage);
        self.baggage.insert(key, value);
        assert(string_map(self.baggage) =~= before.insert(key@, value@));
    }

    /// A baggage item.
    pub fn get_baggage(&self, key: &str) -> (r: Option<&String>)
        ensures
            match r {
                Some(v) => string_map(self.baggage).contains_key(key@) && v@ == string_map(self.baggage)[key@],
                None => !string_map(self.baggage).contains_key(key@),
            },
    {
        self.baggage.get(key)
    }
}

/// Span status.
#[derive(Debug)]
pub enum SpanStatus {
    /// Unset status
    Unset,
    /// OK status
    Okay,
    /// Error status
    Error(String),
}

/// Span event.
#[derive(Debug)]
pub struct SpanEvent {
    /// Event name
    pub name: String,
    /// When it happened
    pub timestamp: u64,
    /// Attributes
    pub attributes: StrMap<String>,
}

impl SpanEvent {
    /// An event named `name` at `now`, without attributes.
    pub fn new_at(name: String, now: u64) -> (e: SpanEvent)
        ensures
            e.name == name,
            e.timestamp == now,
            string_map(e.attributes) == Map::<Seq<char>, Seq<char>>::empty(),
    {
        let a: StrMap<String> = StrMap::new();
        assert(string_map(a) =~= Map::<Seq<char>, Seq<char>>::empty());
        SpanEvent { name, timestamp: now, attributes: a }
    }

    /// An event named `name` now, without attributes.
    pub fn new(name: String) -> (e: SpanEvent)
        ensures
            e.name == name,
            string_map(e.attributes) == Map::<Seq<char>, Seq<char>>::empty(),
    {
        Self::new_at(name, now_nanos())
    }

    /// Sets an attribute.
    pub fn add_attribute(&mut self, key: String, value: String)
        ensures
            string_map(final(self).attributes) == string_map(old(self).attributes).insert(key@, value@),
            final(self).name == old(self).name,
            final(self).timestamp == old(self).timestamp,
    {
        let ghost before = string_map(self.attributes);
        self.attributes.insert(key, value);
        assert(string_map(self.attributes) =~= before.insert(key@, value@));
    }
}

/// A span: a unit of work in a trace.
#[derive(Debug)]
pub struct Span {
    /// Span ID
    pub span_id: String,
    /// Trace ID
    pub trace_id: String,
    /// Parent span ID
    pub parent_span_id: Option<String>,
    /// Operation name
    pub operation_name: String,
    /// Start time
    pub start_time: u64,
    /// End time
    pub end_time: Option<u64>,
    /// Duration
    pub duration: Option<u64>,
    /// Tags
    pub tags: StrMap<String>,
    /// Events
    pub events: Vec<SpanEvent>,
    /// Status
    pub status: SpanStatus,
}

impl Span {
    /// A span of the context's span in its trace, started at `now`.
    pub fn new_at(context: &TraceContext, operation_name: String, now: u64) -> (s: Span)
        ensures
            s.span_id@ == context.span_id@,
            s.trace_id@ == context.trace_id@,
            s.parent_span_id is Some <==> context.parent_span_id is Some,
            s.parent_span_id matches Some(p) ==> context.parent_span_id matches Some(q) && p@ == q@,
            s.operation_name == operation_name,
            s.start_time == now,
            s.end_time is None,
            s.duration is None,
            string_map(s.tags) == Map::<Seq<char>, Seq<char>>::empty(),
            s.events@.len() == 0,
            s.status is Unset,
    {
        let t: StrMap<String> = StrMap::new();
        assert(string_map(t) =~= Map::<Seq<char>, Seq<char>>::empty());
        let parent = match &context.parent_span_id {
            Some(p) => Some(crate::json::copy_string(p)),
            None => None,
        };
        Span {
            span_id: crate::json::copy_string(&context.span_id),
            trace_id: crate::json::copy_string(&context.trace_id),
            parent_span_id: parent,
            operation_name,
            start_time: now,
            end_time: None,
            duration: None,
            tags: t,
            events: Vec::new(),
            status: SpanStatus::Unset,
        }
    }

    /// A span of the context's span in its trace, started now.
    pub fn new(context: &TraceContext, operation_name: String) -> (s: Span)
        ensures
            s.span_id@ == context.span_id@,
            s.trace_id@ == context.trace_id@,
            s.parent_span_id is Some <==> context.parent_span_id is Some,
            s.parent_span_id matches Some(p) ==> context.parent_span_id matches Some(q) && p@ == q@,
            s.operation_name == operation_name,
            s.end_time is None,
            s.duration is None,
            string_map(s.tags) == Map::<Seq<char>, Seq<char>>::empty(),
            s.events@.len() == 0,
            s.status is Unset,
    {
        Self::new_at(context, operation_name, now_nanos())
    }

    /// Sets a tag.
    pub fn add_tag(&mut self, key: String, value: String)
        ensures
            final(self).span_id == old(self).span_id,
            final(self).trace_id == old(self).trace_id,
            final(self).parent_span_id == old(self).parent_span_id,
            final(self).operation_name == old(self).operation_name,
            final(self).start_time == old(self).start_time,
            final(self).duration == old(self).duration,
            string_map(final(self).tags) == string_map(old(self).tags).insert(key@, value@),
            final(self).events == old(self).events,
            final(self).status == old(self).status,
            final(self).end_time == old(self).end_time,
    {
        let ghost before = string_map(self.tags);
        self.tags.insert(key, value);
        assert(string_map(self.tags) =~= before.insert(key@, value@));
    }

    /// Appends an event.
    pub fn add_event(&mut self, event: SpanEvent)
        ensures
            final(self).span_id == old(self).span_id,
            final(self).trace_id == old(self).trace_id,
            final(self).parent_span_id == old(self).parent_span_id,
            final(self).operation_name == old(self).operation_name,
            final(self).start_time == old(self).start_time,
            final(self).duration == old(self).duration,
            final(self).events@ == old(self).events@.push(event),
            final(self).tags == old(self).tags,
            final(self).status == old(self).status,
            final(self).end_time == old(self).end_time,
    {
        self.events.push(event);
    }

    /// Sets the status.
    pub fn set_status(&mut self, status: SpanStatus)
        ensures
            final(self).span_id == old(self).span_id,
            final(self).trace_id == old(self).trace_id,
            final(self).parent_span_id == old(self).parent_span_id,
            final(self).operation_name == old(self).operation_name,
            final(self).start_time == old(self).start_time,
            final(self).duration == old(self).duration,
            final(self).status == status,
            final(self).tags == old(self).tags,
            final(self).events == old(self).events,
            final(self).end_time == old(self).end_time,
    {
        self.status = status;
    }

    /// Ends the span at `now`: its duration is the time since its start,
    /// zero when `now` is earlier.
    pub fn end_at(&mut self, now: u64)
        ensures
            final(self).span_id == old(self).span_id,
            final(self).trace_id == old(self).trace_id,
            final(self).parent_span_id == old(self).parent_span_id,
            final(self).operation_name == old(self).operation_name,
            final(self).end_time == Some(now),
            final(self).duration == Some(elapsed(old(self).start_time, now)),
            final(self).start_time == old(self).start_time,
            final(self).tags == old(self).tags,
            final(self).events == old(self).events,
            final(self).status == old(self).status,
    {
        self.end_time = Some(now);
        self.duration = Some(elapsed_since(self.start_time, now));
    }

    /// Ends the span now.
    pub fn end(&mut self)
        ensures
            final(self).span_id == old(self).span_id,
            final(self).trace_id == old(self).trace_id,
            final(self).parent_span_id == old(self).parent_span_id,
            final(self).operation_name == old(self).operation_name,
            final(self).end_time matches Some(t) && final(self).duration == Some(elapsed(old(self).start_time, t)),
            final(self).start_time == old(self).start_time,
            final(self).tags == old(self).tags,
            final(self).events == old(self).events,
            final(self).status == old(self).status,
    {
        self.end_at(now_nanos());
    }
}

/// Tracing metrics.
#[derive(Debug, Clone, Copy)]
pub struct TracingMetrics {
    /// Number of active spans
    pub active_spans: usize,
    /// Number of completed spans
    pub completed_spans: usize,
    /// Total duration of completed spans
    pub total_duration: u64,
    /// Number of error spans
    pub error_count: usize,
    /// Average span duration
    pub average_duration: Option<u64>,
}

/// The sum of the durations that the spans have.
pub open spec fn total_duration(s: Seq<Span>) -> int
    decreases s.len(),
{
    if s.len() == 0 {
        0
    } else {
        total_duration(s.drop_last()) + match s.last().duration {
            Some(d) => d as int,
            None => 0,
        }
    }
}

/// The number of spans whose status is an error.
pub open spec fn error_spans(s: Seq<Span>) -> nat
    decreases s.len(),
{
    if s.len() == 0 {
        0
    } else {
        error_spans(s.drop_last()) + if s.last().status is Error { 1nat } else { 0nat }
    }
}

/// The metrics of `active` running spans and the completed spans.
pub fn tracing_metrics(active: usize, completed: &Vec<Span>) -> (m: TracingMetrics)
    requires
        total_duration(completed@) <= u64::MAX,
    ensures
        m.active_spans == active,
        m.completed_spans == completed@.len(),
        m.total_duration == total_duration(completed@),
        m.error_count == error_spans(completed@),
        completed@.len() == 0 ==> m.average_duration is None,
        completed@.len() > 0 ==> m.average_duration == Some((total_duration(completed@) / completed@.len() as int) as u64),
{
    let mut total: u64 = 0;
    let mut errors: usize = 0;
    let mut i: usize = 0;
    while i < completed.len()
        invariant
            i <= completed@.len(),
            total == total_duration(completed@.take(i as int)),
            errors == error_spans(completed@.take(i as int)),
            errors <= i,
            total_duration(completed@) <= u64::MAX,
        decreases completed@.len() - i,
    {
        proof {
            assert(completed@.take(i + 1).drop_last() =~= completed@.take(i as int));
            lemma_total_prefix(completed@, i + 1);
        }
        match completed[i].duration {
            Some(d) => {
                total = total + d;
            },
            None => {},
        }
        match &completed[i].status {
            SpanStatus::Error(_) => {
                errors = errors + 1;
            },
            _ => {},
        }
        i = i + 1;
    }
    assert(completed@.take(completed@.len() as int) =~= completed@);
    let n = completed.len();
    let avg = if n > 0 {
        Some(total / (n as u64))
    } else {
        None
    };
    TracingMetrics {
        active_spans: active,
        completed_spans: n,
        total_duration: total,
        error_count: errors,
        average_duration: avg,
    }
}

/// Durations only add up.
pub proof fn lemma_total_prefix(s: Seq<Span>, i: int)
    requires
        0 <= i <= s.len(),
    ensures
        0 <= total_duration(s.take(i)) <= total_duration(s),
    decreases s.len() - i,
{
    lemma_total_nonneg(s.take(i));
    if i < s.len() {
        assert(s.take(i + 1).drop_last() =~= s.take(i));
        lemma_total_prefix(s, i + 1);
    } else {
        assert(s.take(i) =~= s);
        lemma_total_nonneg(s);
    }
}

/// Durations are not negative.
pub proof fn lemma_total_nonneg(s: Seq<Span>)
    ensures
        total_duration(s) >= 0,
    decreases s.len(),
{
    if s.len() > 0 {
        lemma_total_nonneg(s.drop_last());
    }
}

/// Exports spans.
pub trait SpanExporter {
    /// Exports one span.
    fn export(&self, span: &Span) -> Result<(), String>;
}

/// Span exporter that writes to the console.
pub struct ConsoleSpanExporter;

/// Span exporter that writes spans as JSON to a file.
pub struct JsonSpanExporter {
    /// The file written to
    pub file_path: String,
}

impl JsonSpanExporter {
    /// An exporter writing to `file_path`.
    pub fn new(file_path: String) -> (e: JsonSpanExporter)
        ensures
            e.file_path == file_path,
    {
        JsonSpanExporter { file_path }
    }
}

} // verus!

verus! {

/// The prefix of the headers that carry baggage items.
pub open spec fn baggage_prefix() -> Seq<char> {
    "X-Baggage-"@
}

/// The baggage that headers carry: each header `X-Baggage-<key>` gives
/// `key`.
pub open spec fn baggage_of(h: Map<Seq<char>, Seq<char>>) -> Map<Seq<char>, Seq<char>> {
    Map::new(
        |k: Seq<char>| h.contains_key(baggage_prefix() + k),
        |k: Seq<char>| h[baggage_prefix() + k],
    )
}

/// Headers `h` with a header `X-Baggage-<key>` set for each baggage item.
pub open spec fn with_baggage(h: Map<Seq<char>, Seq<char>>, b: Map<Seq<char>, Seq<char>>) -> Map<Seq<char>, Seq<char>> {
    Map::new(
        |key: Seq<char>|
            h.contains_key(key) || (is_prefix(baggage_prefix(), key) && b.contains_key(
                key.skip(baggage_prefix().len() as int),
            )),
        |key: Seq<char>|
            if is_prefix(baggage_prefix(), key) && b.contains_key(key.skip(baggage_prefix().len() as int)) {
                b[key.skip(baggage_prefix().len() as int)]
            } else {
                h[key]
            },
    )
}

/// The flags that a header value gives: the number it denotes, when it
/// denotes one of at most 255; 1 otherwise.
pub open spec fn flags_of(v: Option<Seq<char>>) -> u8 {
    match v {
        Some(s) => match parse_unsigned_spec(s, 255) {
            Some(n) => n as u8,
            None => 1,
        },
        None => 1,
    }
}

/// The value of a header, if present.
pub open spec fn header(h: Map<Seq<char>, Seq<char>>, k: Seq<char>) -> Option<Seq<char>> {
    if h.contains_key(k) {
        Some(h[k])
    } else {
        None
    }
}

/// The headers that injecting `c` into `h` gives.
pub open spec fn injected(c: TraceContext, h: Map<Seq<char>, Seq<char>>) -> Map<Seq<char>, Seq<char>> {
    let h1 = h.insert("X-Trace-Id"@, c.trace_id@).insert("X-Span-Id"@, c.span_id@);
    let h2 = match c.parent_span_id {
        Some(p) => h1.insert("X-Parent-Span-Id"@, p@),
        None => h1,
    };
    with_baggage(h2.insert("X-Trace-Flags"@, dec_string(c.flags as nat)), string_map(c.baggage))
}

/// A key with the baggage prefix is the prefix followed by the rest.
pub proof fn lemma_prefix_split(key: Seq<char>)
    requires
        is_prefix(baggage_prefix(), key),
    ensures
        key == baggage_prefix() + key.skip(baggage_prefix().len() as int),
{
    assert(key =~= baggage_prefix() + key.skip(baggage_prefix().len() as int));
}

/// The prefix followed by `k` has the prefix, and `k` after it.
pub proof fn lemma_prefix_join(k: Seq<char>)
    ensures
        is_prefix(baggage_prefix(), baggage_prefix() + k),
        (baggage_prefix() + k).skip(baggage_prefix().len() as int) == k,
{
    let key = baggage_prefix() + k;
    assert(key.take(baggage_prefix().len() as int) =~= baggage_prefix());
    assert(key.skip(baggage_prefix().len() as int) =~= k);
}

/// Setting one more baggage header.
pub proof fn lemma_with_baggage_insert(h: Map<Seq<char>, Seq<char>>, b: Map<Seq<char>, Seq<char>>, k: Seq<char>, v: Seq<char>)
    ensures
        with_baggage(h, b.insert(k, v)) == with_baggage(h, b).insert(baggage_prefix() + k, v),
{
    lemma_prefix_join(k);
    assert forall|key: Seq<char>| #[trigger] with_baggage(h, b.insert(k, v)).contains_key(key) <==> with_baggage(h, b).insert(baggage_prefix() + k, v).contains_key(key) by {
        if is_prefix(baggage_prefix(), key) {
            lemma_prefix_split(key);
        }
    }
    assert forall|key: Seq<char>| #[trigger] with_baggage(h, b.insert(k, v)).contains_key(key) implies with_baggage(h, b.insert(k, v))[key] == with_baggage(h, b).insert(baggage_prefix() + k, v)[key] by {
        if is_prefix(baggage_prefix(), key) {
            lemma_prefix_split(key);
        }
    }
    assert(with_baggage(h, b.insert(k, v)) =~= with_baggage(h, b).insert(baggage_prefix() + k, v));
}

/// Reading the baggage after one more header is set.
pub proof fn lemma_baggage_of_insert(h: Map<Seq<char>, Seq<char>>, key: Seq<char>, v: Seq<char>)
    ensures
        is_prefix(baggage_prefix(), key) ==> baggage_of(h.insert(key, v)) == baggage_of(h).insert(
            key.skip(baggage_prefix().len() as int),
            v,
        ),
        !is_prefix(baggage_prefix(), key) ==> baggage_of(h.insert(key, v)) == baggage_of(h),
{
    if is_prefix(baggage_prefix(), key) {
        lemma_prefix_split(key);
        let k0 = key.skip(baggage_prefix().len() as int);
        assert forall|k: Seq<char>| #[trigger] baggage_of(h.insert(key, v)).contains_key(k) <==> baggage_of(h).insert(k0, v).contains_key(k) by {
            if baggage_prefix() + k == key {
                assert(k =~= k0) by {
                    lemma_prefix_join(k);
                }
            }
        }
        assert(baggage_of(h.insert(key, v)) =~= baggage_of(h).insert(k0, v)) by {
            assert forall|k: Seq<char>| #[trigger] baggage_of(h.insert(key, v)).contains_key(k) implies baggage_of(h.insert(key, v))[k] == baggage_of(h).insert(k0, v)[k] by {
                if baggage_prefix() + k == key {
                    lemma_prefix_join(k);
                }
            }
        }
    } else {
        assert forall|k: Seq<char>| baggage_prefix() + k != key by {
            lemma_prefix_join(k);
        }
        assert(baggage_of(h.insert(key, v)) =~= baggage_of(h));
    }
}

/// A decimal digit character denotes its digit.
pub proof fn lemma_dec_digit(d: nat)
    requires
        d < 10,
    ensures
        crate::text::digit_value(crate::text::dec_digit(d)) == Some(d),
        crate::text::dec_digit(d) != '+',
{
    assert('0' as nat == 48);
    assert('1' as nat == 49);
    assert('2' as nat == 50);
    assert('3' as nat == 51);
    assert('4' as nat == 52);
    assert('5' as nat == 53);
    assert('6' as nat == 54);
    assert('7' as nat == 55);
    assert('8' as nat == 56);
    assert('9' as nat == 57);
}

/// The decimal notation of a number is all digits and denotes it.
pub proof fn lemma_dec_string(n: nat)
    ensures
        dec_string(n).len() > 0,
        crate::text::all_digits(dec_string(n)),
        crate::text::digits_value(dec_string(n)) == n,
        dec_string(n)[0] != '+',
    decreases n,
{
    lemma_dec_digit(n % 10);
    if n < 10 {
        let s = dec_string(n);
        assert(s.drop_last() =~= Seq::<char>::empty());
        assert(s.last() == crate::text::dec_digit(n));
        assert(crate::text::digits_value(s) == crate::text::digits_value(s.drop_last()) * 10 + crate::text::digit_value(s.last()).unwrap_or(0));
        assert(n % 10 == n);
    }
    if n >= 10 {
        lemma_dec_string(n / 10);
        let s = dec_string(n);
        let p = dec_string(n / 10);
        assert(s == p.push(crate::text::dec_digit(n % 10)));
        assert(s.drop_last() =~= p);
        assert(s.last() == crate::text::dec_digit(n % 10));
        assert(crate::text::digits_value(s) == crate::text::digits_value(p) * 10 + (n % 10));
        assert((n / 10) * 10 + n % 10 == n) by (nonlinear_arith);
        assert forall|i: int| 0 <= i < s.len() implies #[trigger] crate::text::digit_value(s[i]) is Some by {
            if i < p.len() {
                assert(s[i] == p[i]);
            }
        }
        assert(s[0] == p[0]);
    }
}

/// Parsing the decimal notation of a flag gives the flag back.
pub proof fn lemma_flags_roundtrip(f: u8)
    ensures
        flags_of(Some(dec_string(f as nat))) == f,
{
    lemma_dec_string(f as nat);
}

/// The fixed header names do not carry baggage.
pub proof fn lemma_fixed_headers()
    ensures
        !is_prefix(baggage_prefix(), "X-Trace-Id"@),
        !is_prefix(baggage_prefix(), "X-Span-Id"@),
        !is_prefix(baggage_prefix(), "X-Parent-Span-Id"@),
        !is_prefix(baggage_prefix(), "X-Trace-Flags"@),
        "X-Trace-Id"@ != "X-Span-Id"@,
        "X-Trace-Id"@ != "X-Parent-Span-Id"@,
        "X-Trace-Id"@ != "X-Trace-Flags"@,
        "X-Span-Id"@ != "X-Parent-Span-Id"@,
        "X-Span-Id"@ != "X-Trace-Flags"@,
        "X-Parent-Span-Id"@ != "X-Trace-Flags"@,
{
    reveal_strlit("X-Baggage-");
    reveal_strlit("X-Trace-Id");
    reveal_strlit("X-Span-Id");
    reveal_strlit("X-Parent-Span-Id");
    reveal_strlit("X-Trace-Flags");
    assert("X-Trace-Id"@.take(10)[2] != baggage_prefix()[2]);
    assert("X-Span-Id"@.len() < 10);
    assert("X-Parent-Span-Id"@.take(10)[2] != baggage_prefix()[2]);
    assert("X-Trace-Flags"@.take(10)[2] != baggage_prefix()[2]);
    assert("X-Trace-Id"@[2] != "X-Span-Id"@[2]);
    assert("X-Trace-Id"@[2] != "X-Parent-Span-Id"@[2]);
    assert("X-Trace-Id"@.len() != "X-Trace-Flags"@.len());
    assert("X-Span-Id"@[2] != "X-Parent-Span-Id"@[2]);
    assert("X-Span-Id"@[2] != "X-Trace-Flags"@[2]);
    assert("X-Parent-Span-Id"@[2] != "X-Trace-Flags"@[2]);
}

/// Carries trace contexts in headers.
pub struct ContextPropagator;

impl ContextPropagator {
    /// The context that the headers carry: none unless both `X-Trace-Id`
    /// and `X-Span-Id` are present.
    pub fn extract(headers: &StrMap<String>) -> (r: Option<TraceContext>)
        ensures
            r is Some <==> string_map(*headers).contains_key("X-Trace-Id"@) && string_map(*headers).contains_key("X-Span-Id"@),
            r matches Some(c) ==> {
                let h = string_map(*headers);
                &&& c.trace_id@ == h["X-Trace-Id"@]
                &&& c.span_id@ == h["X-Span-Id"@]
                &&& (c.parent_span_id is Some <==> h.contains_key("X-Parent-Span-Id"@))
                &&& (c.parent_span_id matches Some(p) ==> p@ == h["X-Parent-Span-Id"@])
                &&& c.flags == flags_of(header(h, "X-Trace-Flags"@))
                &&& string_map(c.baggage) == baggage_of(h)
            },
    {
        let trace_id = match headers.get("X-Trace-Id") {
            Some(t) => crate::json::copy_string(t),
            None => {
                return None;
            },
        };
        let span_id = match headers.get("X-Span-Id") {
            Some(s) => crate::json::copy_string(s),
            None => {
                return None;
            },
        };
        let parent = match headers.get("X-Parent-Span-Id") {
            Some(p) => Some(crate::json::copy_string(p)),
            None => None,
        };
        let flags: u8 = match headers.get("X-Trace-Flags") {
            Some(f) => {
                let fc = to_chars(f.as_str());
                match parse_unsigned(fc.as_slice(), 255) {
                    Some(n) => n as u8,
                    None => 1,
                }
            },
            None => 1,
        };
        headers.assert_unique();
        let ghost es = headers.spec_entries();
        let prefix = to_chars("X-Baggage-");
        let mut baggage: StrMap<String> = StrMap::new();
        let mut i: usize = 0;
        while i < headers.len()
            invariant
                0 <= i <= es.len(),
                es == headers.spec_entries(),
                keys_unique(es),
                prefix@ == baggage_prefix(),
                string_map(baggage) == baggage_of(entries_map(es.take(i as int)).map_values(|v: String| v@)),
            decreases es.len() - i,
        {
            proof {
                crate::state::lemma_prefix_map(es, i as int);
                let h = entries_map(es.take(i as int)).map_values(|v: String| v@);
                assert(entries_map(es.take(i + 1)).map_values(|v: String| v@) =~= h.insert(es[i as int].0, es[i as int].1@));
                lemma_baggage_of_insert(h, es[i as int].0, es[i as int].1@);
            }
            let key = headers.key_at(i);
            let kc = to_chars(key.as_str());
            if starts_with(kc.as_slice(), prefix.as_slice()) {
                let stripped = crate::graph::condition::skip_chars(&kc, prefix.len());
                let name = from_chars(stripped.as_slice());
                let value = crate::json::copy_string(headers.value_at(i));
                let ghost before = string_map(baggage);
                baggage.insert(name, value);
                assert(string_map(baggage) =~= before.insert(name@, value@));
            }
            i = i + 1;
        }
        proof {
            crate::state::lemma_take_all(es);
            assert(entries_map(es).map_values(|v: String| v@) =~= string_map(*headers));
        }
        Some(TraceContext { trace_id, span_id, parent_span_id: parent, flags, baggage })
    }

    /// Writes the context into the headers: `X-Trace-Id`, `X-Span-Id`,
    /// `X-Parent-Span-Id` when there is a parent, `X-Trace-Flags` in
    /// decimal, and `X-Baggage-<key>` for each baggage item.
    pub fn inject(context: &TraceContext, headers: &mut StrMap<String>)
        ensures
            string_map(*final(headers)) == injected(*context, string_map(*old(headers))),
    {
        let ghost h0 = string_map(*headers);
        let mut k = String::new();
        push_str(&mut k, "X-Trace-Id");
        headers.insert(k, crate::json::copy_string(&context.trace_id));
        let mut k = String::new();
        push_str(&mut k, "X-Span-Id");
        headers.insert(k, crate::json::copy_string(&context.span_id));
        match &context.parent_span_id {
            Some(p) => {
                let mut k = String::new();
                push_str(&mut k, "X-Parent-Span-Id");
                headers.insert(k, crate::json::copy_string(p));
            },
            None => {},
        }
        let mut k = String::new();
        push_str(&mut k, "X-Trace-Flags");
        headers.insert(k, decimal_string(context.flags as u64));
        let ghost h4 = string_map(*headers);
        proof {
            let h1 = h0.insert("X-Trace-Id"@, context.trace_id@).insert("X-Span-Id"@, context.span_id@);
            let h2 = if context.parent_span_id is Some {
                h1.insert("X-Parent-Span-Id"@, context.parent_span_id->0@)
            } else {
                h1
            };
            assert(h4 =~= h2.insert("X-Trace-Flags"@, dec_string(context.flags as nat)));
        }
        let bag = &context.baggage;
        bag.assert_unique();
        let ghost es = bag.spec_entries();
        let mut i: usize = 0;
        assert(with_baggage(h4, entries_map(es.take(0)).map_values(|v: String| v@)) =~= h4) by {
            assert(es.take(0) =~= Seq::<(Seq<char>, String)>::empty());
            assert(entries_map(es.take(0)).map_values(|v: String| v@) =~= Map::<Seq<char>, Seq<char>>::empty());
        }
        while i < bag.len()
            invariant
                0 <= i <= es.len(),
                es == bag.spec_entries(),
                keys_unique(es),
                string_map(*headers) == with_baggage(h4, entries_map(es.take(i as int)).map_values(|v: String| v@)),
            decreases es.len() - i,
        {
            proof {
                crate::state::lemma_prefix_map(es, i as int);
                let b = entries_map(es.take(i as int)).map_values(|v: String| v@);
                assert(entries_map(es.take(i + 1)).map_values(|v: String| v@) =~= b.insert(es[i as int].0, es[i as int].1@));
                lemma_with_baggage_insert(h4, b, es[i as int].0, es[i as int].1@);
            }
            let key = concat_str("X-Baggage-", bag.key_at(i).as_str());
            let value = crate::json::copy_string(bag.value_at(i));
            let ghost before = string_map(*headers);
            headers.insert(key, value);
            assert(string_map(*headers) =~= before.insert(key@, value@));
            i = i + 1;
        }
        proof {
            crate::state::lemma_take_all(es);
            assert(entries_map(es).map_values(|v: String| v@) =~= string_map(context.baggage));
        }
    }
}

/// Injecting a context into empty headers and extracting it again gives
/// the same context: the same trace, span and parent ids, flags and
/// baggage.
pub proof fn lemma_inject_extract_roundtrip(c: TraceContext)
    ensures
        ({
            let h = injected(c, Map::empty());
            &&& h.contains_key("X-Trace-Id"@) && h["X-Trace-Id"@] == c.trace_id@
            &&& h.contains_key("X-Span-Id"@) && h["X-Span-Id"@] == c.span_id@
            &&& (h.contains_key("X-Parent-Span-Id"@) <==> c.parent_span_id is Some)
            &&& (c.parent_span_id matches Some(p) ==> h["X-Parent-Span-Id"@] == p@)
            &&& flags_of(header(h, "X-Trace-Flags"@)) == c.flags
            &&& baggage_of(h) == string_map(c.baggage)
        }),
{
    lemma_fixed_headers();
    let b = string_map(c.baggage);
    let h1 = Map::<Seq<char>, Seq<char>>::empty().insert("X-Trace-Id"@, c.trace_id@).insert("X-Span-Id"@, c.span_id@);
    let h2 = match c.parent_span_id {
        Some(p) => h1.insert("X-Parent-Span-Id"@, p@),
        None => h1,
    };
    let h3 = h2.insert("X-Trace-Flags"@, dec_string(c.flags as nat));
    let h = with_baggage(h3, b);
    assert(h == injected(c, Map::empty()));
    lemma_flags_roundtrip(c.flags);
    assert(h.contains_key("X-Trace-Flags"@) && h["X-Trace-Flags"@] == dec_string(c.flags as nat));
    assert(header(h, "X-Trace-Flags"@) == Some(dec_string(c.flags as nat)));
    assert forall|k: Seq<char>| #[trigger] baggage_of(h).contains_key(k) <==> b.contains_key(k) by {
        lemma_prefix_join(k);
        let key = baggage_prefix() + k;
        if h3.contains_key(key) {
            assert(key == "X-Trace-Id"@ || key == "X-Span-Id"@ || key == "X-Parent-Span-Id"@ || key == "X-Trace-Flags"@);
        }
    }
    assert forall|k: Seq<char>| #[trigger] baggage_of(h).contains_key(k) implies baggage_of(h)[k] == b[k] by {
        lemma_prefix_join(k);
    }
    assert(baggage_of(h) =~= b);
}

} // verus!
