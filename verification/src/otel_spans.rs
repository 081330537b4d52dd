use vstd::prelude::*;
use crate::bytes::bytes_copy;
use crate::otel_json::{
    AttrValue, JsonValue, any_value_to_json, attrs_object, attrs_object_is, entry_keys, hex_encode,
    json_is, kv_keys, kv_object_is, last_positions, spec_hex, values_object, with_values,
};

verus! {

/// The instrumentation scope of a group of records.
pub struct OtelScope {
    pub name: String,
    pub version: String,
    pub attributes: Vec<(String, Option<AttrValue>)>,
}

/// What an extra property of a record holds: a text, the JSON form of a value, or the object of
/// key/value pairs (see `attrs_object`, without extras).
pub enum ExtraValue {
    Text(Seq<char>),
    Value(AttrValue),
    Attrs(Seq<(String, Option<AttrValue>)>),
}

/// Whether `e` is the extra property described by `d`.
pub open spec fn extra_is(e: (String, JsonValue), d: (Seq<char>, ExtraValue)) -> bool {
    &&& e.0@ == d.0
    &&& match d.1 {
        ExtraValue::Text(t) => e.1 matches JsonValue::Str(s) && s@ == t,
        ExtraValue::Value(v) => json_is(e.1, v),
        ExtraValue::Attrs(a) => e.1 matches JsonValue::Object(o) && attrs_object_is(o@, a, Seq::empty()),
    }
}

/// `otel.scope.attr.<key>` for each scope attribute that carries a value, in order.
pub open spec fn scope_attr_extras(attrs: Seq<(String, Option<AttrValue>)>) -> Seq<(Seq<char>, ExtraValue)>
    decreases attrs.len(),
{
    if attrs.len() == 0 {
        Seq::empty()
    } else {
        let prev = scope_attr_extras(attrs.drop_last());
        match attrs.last().1 {
            Some(v) => prev.push(("otel.scope.attr."@ + attrs.last().0@, ExtraValue::Value(v))),
            None => prev,
        }
    }
}

/// The properties a record's scope adds: `otel.scope.name` and `otel.scope.version` when not
/// empty, `otel.scope.attr.<key>` for each scope attribute with a value, then
/// `otel.scope.schema_url` when not empty.
pub open spec fn spec_scope_extras(scope: Option<OtelScope>, schema_url: Seq<char>) -> Seq<(Seq<char>, ExtraValue)> {
    let from_scope = match scope {
        Some(s) => (if s.name@.len() > 0 { seq![("otel.scope.name"@, ExtraValue::Text(s.name@))] } else { Seq::empty() })
            + (if s.version@.len() > 0 { seq![("otel.scope.version"@, ExtraValue::Text(s.version@))] } else { Seq::empty() })
            + scope_attr_extras(s.attributes@),
        None => Seq::empty(),
    };
    from_scope + (if schema_url.len() > 0 { seq![("otel.scope.schema_url"@, ExtraValue::Text(schema_url))] } else { Seq::empty() })
}

/// Whether `out` holds the extras described by `d`, in order.
pub open spec fn extras_are(out: Seq<(String, JsonValue)>, d: Seq<(Seq<char>, ExtraValue)>) -> bool {
    &&& out.len() == d.len()
    &&& forall|k: int| 0 <= k < out.len() ==> extra_is(#[trigger] out[k], d[k])
}

fn push_text(out: &mut Vec<(String, JsonValue)>, key: &str, text: &String)
    ensures
        final(out)@ == old(out)@.push(final(out)@.last()),
        extra_is(final(out)@.last(), (key@, ExtraValue::Text(text@))),
{
    out.push((String::from_str(key), JsonValue::Str(text.clone())));
}

/// The properties a record's scope adds (see `spec_scope_extras`).
pub fn scope_extras(scope: &Option<OtelScope>, schema_url: &String) -> (r: Vec<(String, JsonValue)>)
    ensures
        extras_are(r@, spec_scope_extras(*scope, schema_url@)),
{
    let mut out: Vec<(String, JsonValue)> = Vec::new();
    let ghost mut d: Seq<(Seq<char>, ExtraValue)> = Seq::empty();
    proof {
        reveal_strlit("otel.scope.name");
        reveal_strlit("otel.scope.version");
        reveal_strlit("otel.scope.attr.");
        reveal_strlit("otel.scope.schema_url");
    }
    if let Some(s) = scope {
        if !s.name.as_str().is_empty() {
            push_text(&mut out, "otel.scope.name", &s.name);
            proof { d = d.push(("otel.scope.name"@, ExtraValue::Text(s.name@))); }
        }
        if !s.version.as_str().is_empty() {
            push_text(&mut out, "otel.scope.version", &s.version);
            proof { d = d.push(("otel.scope.version"@, ExtraValue::Text(s.version@))); }
        }
        let ghost base = d;
        let ghost base_len = out@.len();
        let mut i: usize = 0;
        while i < s.attributes.len()
            invariant
                i <= s.attributes@.len(),
                base.len() == base_len,
                d == base + scope_attr_extras(s.attributes@.take(i as int)),
                extras_are(out@, d),
            decreases s.attributes@.len() - i,
        {
            proof {
                assert(s.attributes@.take(i + 1).drop_last() =~= s.attributes@.take(i as int));
            }
            match &s.attributes[i].1 {
                Some(v) => {
                    let mut key = String::from_str("otel.scope.attr.");
                    key.append(s.attributes[i].0.as_str());
                    let value = any_value_to_json(v);
                    let ghost before = out@;
                    out.push((key, value));
                    proof {
                        d = d.push(("otel.scope.attr."@ + s.attributes@[i as int].0@, ExtraValue::Value(*v)));
                        assert(d =~= base + scope_attr_extras(s.attributes@.take(i + 1)));
                        assert forall|k: int| 0 <= k < out@.len() implies extra_is(#[trigger] out@[k], d[k]) by {
                            if k < before.len() {
                                assert(out@[k] == before[k]);
                            }
                        }
                    }
                },
                None => {
                    proof {
                        assert(d =~= base + scope_attr_extras(s.attributes@.take(i + 1)));
                    }
                },
            }
            i = i + 1;
        }
        assert(s.attributes@.take(s.attributes@.len() as int) =~= s.attributes@);
    }
    proof {
        assert(d =~= match *scope {
            Some(s) => (if s.name@.len() > 0 { seq![("otel.scope.name"@, ExtraValue::Text(s.name@))] } else { Seq::empty() })
                + (if s.version@.len() > 0 { seq![("otel.scope.version"@, ExtraValue::Text(s.version@))] } else { Seq::empty() })
                + scope_attr_extras(s.attributes@),
            None => Seq::empty(),
        });
    }
    if !schema_url.as_str().is_empty() {
        let ghost before = out@;
        push_text(&mut out, "otel.scope.schema_url", schema_url);
        proof {
            d = d.push(("otel.scope.schema_url"@, ExtraValue::Text(schema_url@)));
            assert forall|k: int| 0 <= k < out@.len() implies extra_is(#[trigger] out@[k], d[k]) by {
                if k < before.len() {
                    assert(out@[k] == before[k]);
                }
            }
        }
    }
    assert(d =~= spec_scope_extras(*scope, schema_url@));
    out
}

/// A span event.
pub struct OtelSpanEvent {
    pub time_unix_nano: u64,
    pub name: String,
    pub attributes: Vec<(String, Option<AttrValue>)>,
}

/// A span link.
pub struct OtelSpanLink {
    pub trace_id: Vec<u8>,
    pub span_id: Vec<u8>,
    pub attributes: Vec<(String, Option<AttrValue>)>,
}

/// A span's status: its code and message.
pub struct OtelStatus {
    pub code: i32,
    pub message: String,
}

/// An OpenTelemetry span, as plain values.
pub struct OtelSpan {
    pub trace_id: Vec<u8>,
    pub span_id: Vec<u8>,
    pub parent_span_id: Vec<u8>,
    pub name: String,
    pub kind: i32,
    pub start_time_unix_nano: u64,
    pub end_time_unix_nano: u64,
    pub status: Option<OtelStatus>,
    pub attributes: Vec<(String, Option<AttrValue>)>,
    pub events: Vec<OtelSpanEvent>,
    pub links: Vec<OtelSpanLink>,
}

/// The spans of one instrumentation scope.
pub struct OtelScopeSpans {
    pub scope: Option<OtelScope>,
    pub schema_url: String,
    pub spans: Vec<OtelSpan>,
}

/// The spans of one resource: its attributes and its scopes.
pub struct OtelResourceSpans {
    pub resource_attributes: Vec<(String, Option<AttrValue>)>,
    pub scope_spans: Vec<OtelScopeSpans>,
}

/// The name of a span kind (`SpanKind`: 1 internal, 2 server, 3 client, 4 producer, 5 consumer;
/// anything else unspecified).
pub open spec fn spec_span_kind(kind: i32) -> Seq<char> {
    if kind == 1 {
        "INTERNAL"@
    } else if kind == 2 {
        "SERVER"@
    } else if kind == 3 {
        "CLIENT"@
    } else if kind == 4 {
        "PRODUCER"@
    } else if kind == 5 {
        "CONSUMER"@
    } else {
        "UNSPECIFIED"@
    }
}

/// The name of a status code (`StatusCode`: 1 ok, 2 error; anything else unset).
pub open spec fn spec_status_code(code: i32) -> Seq<char> {
    if code == 1 {
        "OK"@
    } else if code == 2 {
        "ERROR"@
    } else {
        "UNSET"@
    }
}

pub fn span_kind_str(kind: i32) -> (r: &'static str)
    ensures
        r@ == spec_span_kind(kind),
{
    proof {
        reveal_strlit("INTERNAL");
        reveal_strlit("SERVER");
        reveal_strlit("CLIENT");
        reveal_strlit("PRODUCER");
        reveal_strlit("CONSUMER");
        reveal_strlit("UNSPECIFIED");
    }
    match kind {
        1 => "INTERNAL",
        2 => "SERVER",
        3 => "CLIENT",
        4 => "PRODUCER",
        5 => "CONSUMER",
        _ => "UNSPECIFIED",
    }
}

pub fn proto_status_code_str(code: i32) -> (r: &'static str)
    ensures
        r@ == spec_status_code(code),
{
    proof {
        reveal_strlit("OK");
        reveal_strlit("ERROR");
        reveal_strlit("UNSET");
    }
    match code {
        1 => "OK",
        2 => "ERROR",
        _ => "UNSET",
    }
}

/// Whether `j` is the JSON object of an event: its time (as a signed integer), its name, and the
/// object of its attributes that carry a value.
pub open spec fn event_json_is(j: JsonValue, ev: OtelSpanEvent) -> bool {
    j matches JsonValue::Object(o) && o@.len() == 3
        && o@[0].0@ == "time"@ && o@[0].1 == JsonValue::Int(ev.time_unix_nano as i64)
        && o@[1].0@ == "name"@ && (o@[1].1 matches JsonValue::Str(n) && n@ == ev.name@)
        && o@[2].0@ == "attributes"@ && (o@[2].1 matches JsonValue::Object(a) && kv_object_is(a@, with_values(ev.attributes@)))
}

/// Whether `j` is the JSON object of a link: its trace and span ids in hexadecimal, and the
/// object of its attributes that carry a value.
pub open spec fn link_json_is(j: JsonValue, l: OtelSpanLink) -> bool {
    j matches JsonValue::Object(o) && o@.len() == 3
        && o@[0].0@ == "trace_id"@ && (o@[0].1 matches JsonValue::Str(t) && t@ == spec_hex(l.trace_id@))
        && o@[1].0@ == "span_id"@ && (o@[1].1 matches JsonValue::Str(sp) && sp@ == spec_hex(l.span_id@))
        && o@[2].0@ == "attributes"@ && (o@[2].1 matches JsonValue::Object(a) && kv_object_is(a@, with_values(l.attributes@)))
}

fn event_json(ev: &OtelSpanEvent) -> (r: JsonValue)
    ensures
        event_json_is(r, *ev),
{
    proof {
        reveal_strlit("time");
        reveal_strlit("name");
        reveal_strlit("attributes");
    }
    let mut o: Vec<(String, JsonValue)> = Vec::new();
    o.push((String::from_str("time"), JsonValue::Int(ev.time_unix_nano as i64)));
    o.push((String::from_str("name"), JsonValue::Str(ev.name.clone())));
    o.push((String::from_str("attributes"), JsonValue::Object(values_object(&ev.attributes))));
    JsonValue::Object(o)
}

fn link_json(l: &OtelSpanLink) -> (r: JsonValue)
    ensures
        link_json_is(r, *l),
{
    proof {
        reveal_strlit("trace_id");
        reveal_strlit("span_id");
        reveal_strlit("attributes");
    }
    let mut o: Vec<(String, JsonValue)> = Vec::new();
    o.push((String::from_str("trace_id"), JsonValue::Str(hex_encode(l.trace_id.as_slice()))));
    o.push((String::from_str("span_id"), JsonValue::Str(hex_encode(l.span_id.as_slice()))));
    o.push((String::from_str("attributes"), JsonValue::Object(values_object(&l.attributes))));
    JsonValue::Object(o)
}

/// The keys of described extras.
pub open spec fn extra_keys(d: Seq<(Seq<char>, ExtraValue)>) -> Seq<Seq<char>> {
    d.map_values(|x: (Seq<char>, ExtraValue)| x.0)
}

/// The keys of a record's attributes followed by those of its extras.
pub open spec fn props_keys(attrs: Seq<(String, Option<AttrValue>)>, d: Seq<(Seq<char>, ExtraValue)>) -> Seq<Seq<char>> {
    kv_keys(attrs) + extra_keys(d)
}

/// Whether entry `k` of a properties object comes from the right attribute or extra.
pub open spec fn prop_entry_is(e: (String, JsonValue), p: int, attrs: Seq<(String, Option<AttrValue>)>, d: Seq<(Seq<char>, ExtraValue)>) -> bool {
    &&& 0 <= p && p < attrs.len() + d.len()
    &&& p < attrs.len() ==> e.0@ == attrs[p].0@ && crate::otel_json::json_is_opt(e.1, attrs[p].1)
    &&& p >= attrs.len() ==> extra_is(e, d[p - attrs.len()])
}

/// Whether `out` is the properties object of a record with attributes `attrs` and extras
/// described by `d` (see `attrs_object`): for each key, its last attribute or extra.
pub open spec fn props_is(out: Seq<(String, JsonValue)>, attrs: Seq<(String, Option<AttrValue>)>, d: Seq<(Seq<char>, ExtraValue)>) -> bool {
    &&& out.len() == last_positions(props_keys(attrs, d), 0).len()
    &&& forall|k: int| 0 <= k && k < out.len() ==> prop_entry_is(#[trigger] out[k], last_positions(props_keys(attrs, d), 0)[k], attrs, d)
}

/// The properties object of a record from its attributes and the extras described by `d`.
pub(crate) fn props_object(attrs: &Vec<(String, Option<AttrValue>)>, extras: Vec<(String, JsonValue)>, Ghost(d): Ghost<Seq<(Seq<char>, ExtraValue)>>) -> (r: Vec<(String, JsonValue)>)
    requires
        extras_are(extras@, d),
    ensures
        props_is(r@, attrs@, d),
{
    let ghost ex = extras@;
    let out = attrs_object(attrs, extras);
    proof {
        assert(entry_keys(ex) =~= extra_keys(d));
        assert(kv_keys(attrs@) + entry_keys(ex) =~= props_keys(attrs@, d));
        assert forall|k: int| 0 <= k && k < out@.len() implies prop_entry_is(#[trigger] out@[k], last_positions(props_keys(attrs@, d), 0)[k], attrs@, d) by {
            let p = last_positions(props_keys(attrs@, d), 0)[k];
            assert(crate::otel_json::attr_entry_is(out@[k], p, attrs@, ex));
            if p >= attrs@.len() {
                assert(extra_is(ex[p - attrs@.len()], d[p - attrs@.len()]));
            }
        }
    }
    out
}

/// One row of the `otel_spans` view, without the columns that come from the block's process.
pub struct SpanRow {
    pub trace_id: Vec<u8>,
    pub span_id: Vec<u8>,
    pub parent_span_id: Option<Vec<u8>>,
    pub start_time: i64,
    pub end_time: i64,
    pub duration: i64,
    pub name: String,
    pub kind: String,
    pub status: String,
    pub status_message: Option<String>,
    pub properties: Vec<(String, JsonValue)>,
    pub events: JsonValue,
    pub links: JsonValue,
}

/// Whether a span makes a row: both its start and end times are set (not zero), its trace id has
/// 16 bytes and its span id 8.
pub open spec fn is_kept_span(span: OtelSpan) -> bool {
    &&& span.start_time_unix_nano as i64 != 0
    &&& span.end_time_unix_nano as i64 != 0
    &&& span.trace_id@.len() == 16
    &&& span.span_id@.len() == 8
}

/// Whether `row` is the row of `span`, a span of `ss`: ids and name copied (the parent id only
/// when it has 8 bytes), times as signed nanoseconds with their (wrapping) difference as
/// duration, kind and status by name (no status: `UNSET`), the status message when not empty,
/// the properties from the span's attributes and its scope's extras, and its events and links
/// as JSON arrays.
pub open spec fn span_row_is(row: SpanRow, ss: OtelScopeSpans, span: OtelSpan) -> bool {
    &&& row.trace_id@ == span.trace_id@
    &&& row.span_id@ == span.span_id@
    &&& (span.parent_span_id@.len() == 8 ==> (row.parent_span_id matches Some(p) && p@ == span.parent_span_id@))
    &&& (span.parent_span_id@.len() != 8 ==> row.parent_span_id is None)
    &&& row.start_time == span.start_time_unix_nano as i64
    &&& row.end_time == span.end_time_unix_nano as i64
    &&& row.duration == row.end_time.wrapping_sub(row.start_time)
    &&& row.name@ == span.name@
    &&& row.kind@ == spec_span_kind(span.kind)
    &&& match span.status {
        Some(st) => row.status@ == spec_status_code(st.code)
            && (st.message@.len() > 0 ==> (row.status_message matches Some(m) && m@ == st.message@))
            && (st.message@.len() == 0 ==> row.status_message is None),
        None => row.status@ == "UNSET"@ && row.status_message is None,
    }
    &&& props_is(row.properties@, span.attributes@, spec_scope_extras(ss.scope, ss.schema_url@))
    &&& row.events matches JsonValue::Array(evs) && evs@.len() == span.events@.len()
        && forall|i: int| 0 <= i < evs@.len() ==> event_json_is(#[trigger] evs@[i], span.events@[i])
    &&& row.links matches JsonValue::Array(ls) && ls@.len() == span.links@.len()
        && forall|i: int| 0 <= i < ls@.len() ==> link_json_is(#[trigger] ls@[i], span.links@[i])
}

/// The row of a span of `ss` (see `span_row_is`).
fn span_row(ss: &OtelScopeSpans, span: &OtelSpan) -> (r: SpanRow)
    ensures
        span_row_is(r, *ss, *span),
{
    proof {
        reveal_strlit("UNSET");
    }
    let start = span.start_time_unix_nano as i64;
    let end = span.end_time_unix_nano as i64;
    let parent_span_id = if span.parent_span_id.len() == 8 {
        Some(bytes_copy(span.parent_span_id.as_slice()))
    } else {
        None
    };
    let (status, status_message) = match &span.status {
        Some(st) => {
            let code = String::from_str(proto_status_code_str(st.code));
            let msg = if st.message.as_str().is_empty() { None } else { Some(st.message.clone()) };
            (code, msg)
        },
        None => (String::from_str("UNSET"), None),
    };
    let extras = scope_extras(&ss.scope, &ss.schema_url);
    let properties = props_object(&span.attributes, extras, Ghost(spec_scope_extras(ss.scope, ss.schema_url@)));
    let mut evs: Vec<JsonValue> = Vec::new();
    let mut i: usize = 0;
    while i < span.events.len()
        invariant
            i <= span.events@.len(),
            evs@.len() == i,
            forall|k: int| 0 <= k < i ==> event_json_is(#[trigger] evs@[k], span.events@[k]),
        decreases span.events@.len() - i,
    {
        evs.push(event_json(&span.events[i]));
        i = i + 1;
    }
    let mut ls: Vec<JsonValue> = Vec::new();
    let mut i: usize = 0;
    while i < span.links.len()
        invariant
            i <= span.links@.len(),
            ls@.len() == i,
            forall|k: int| 0 <= k < i ==> link_json_is(#[trigger] ls@[k], span.links@[k]),
        decreases span.links@.len() - i,
    {
        ls.push(link_json(&span.links[i]));
        i = i + 1;
    }
    SpanRow {
        trace_id: bytes_copy(span.trace_id.as_slice()),
        span_id: bytes_copy(span.span_id.as_slice()),
        parent_span_id,
        start_time: start,
        end_time: end,
        duration: end.wrapping_sub(start),
        name: span.name.clone(),
        kind: String::from_str(span_kind_str(span.kind)),
        status,
        status_message,
        properties,
        events: JsonValue::Array(evs),
        links: JsonValue::Array(ls),
    }
}

/// The positions (scope, span) of the kept spans of one scope, in order.
pub open spec fn kept_in_scope(spans: Seq<OtelSpan>, si: int) -> Seq<(int, int)>
    decreases spans.len(),
{
    if spans.len() == 0 {
        Seq::empty()
    } else if is_kept_span(spans.last()) {
        kept_in_scope(spans.drop_last(), si).push((si, spans.len() - 1))
    } else {
        kept_in_scope(spans.drop_last(), si)
    }
}

/// The positions (scope, span) of the spans that make rows, scope by scope, in order.
pub open spec fn kept_positions(scopes: Seq<OtelScopeSpans>) -> Seq<(int, int)>
    decreases scopes.len(),
{
    if scopes.len() == 0 {
        Seq::empty()
    } else {
        kept_positions(scopes.drop_last()) + kept_in_scope(scopes.last().spans@, scopes.len() - 1)
    }
}

/// Whether `row` is the row of the span at position `p`.
pub open spec fn row_for(row: SpanRow, scopes: Seq<OtelScopeSpans>, p: (int, int)) -> bool {
    &&& 0 <= p.0 < scopes.len()
    &&& 0 <= p.1 < scopes[p.0].spans@.len()
    &&& span_row_is(row, scopes[p.0], scopes[p.0].spans@[p.1])
}

/// Whether `t` is the earliest start time of the rows.
pub open spec fn is_min_start(rows: Seq<SpanRow>, t: i64) -> bool {
    &&& exists|k: int| 0 <= k < rows.len() && (#[trigger] rows[k]).start_time == t
    &&& forall|k: int| 0 <= k < rows.len() ==> t <= (#[trigger] rows[k]).start_time
}

/// Whether `t` is the latest end time of the rows.
pub open spec fn is_max_end(rows: Seq<SpanRow>, t: i64) -> bool {
    &&& exists|k: int| 0 <= k < rows.len() && (#[trigger] rows[k]).end_time == t
    &&& forall|k: int| 0 <= k < rows.len() ==> (#[trigger] rows[k]).end_time <= t
}

/// The rows of a block of spans with their time range.
pub struct SpanRows {
    pub min_time: i64,
    pub max_time: i64,
    pub rows: Vec<SpanRow>,
}

/// The span rows of `scopes`: one row per kept span (see `is_kept_span`), scope by scope and in
/// order, with the earliest start and the latest end of the rows; `None` when no span is kept.
pub open spec fn span_rows_are(scopes: Seq<OtelScopeSpans>, r: Option<SpanRows>) -> bool {
    &&& (r is None <==> kept_positions(scopes).len() == 0)
    &&& (r matches Some(rs) ==> {
        &&& rs.rows@.len() == kept_positions(scopes).len()
        &&& forall|k: int| 0 <= k < rs.rows@.len() ==> row_for(#[trigger] rs.rows@[k], scopes, kept_positions(scopes)[k])
        &&& is_min_start(rs.rows@, rs.min_time)
        &&& is_max_end(rs.rows@, rs.max_time)
    })
}

/// A `BlockProcessor` for OpenTelemetry span blocks.
pub struct OtelSpansBlockProcessor {}

impl OtelSpansBlockProcessor {
    /// One row per kept span (see `is_kept_span`), scope by scope and in order, with the earliest
    /// start and the latest end of the rows; `None` when no span is kept.
    pub fn span_rows(&self, scopes: &Vec<OtelScopeSpans>) -> (r: Option<SpanRows>)
        ensures
            span_rows_are(scopes@, r),
    {
        let mut rows: Vec<SpanRow> = Vec::new();
        let mut min_t: i64 = i64::MAX;
        let mut max_t: i64 = i64::MIN;
        let mut si: usize = 0;
        while si < scopes.len()
            invariant
                si <= scopes@.len(),
                rows@.len() == kept_positions(scopes@.take(si as int)).len(),
                forall|k: int| 0 <= k < rows@.len() ==> row_for(#[trigger] rows@[k], scopes@, kept_positions(scopes@.take(si as int))[k]),
                rows@.len() == 0 ==> min_t == i64::MAX && max_t == i64::MIN,
                rows@.len() > 0 ==> is_min_start(rows@, min_t) && is_max_end(rows@, max_t),
            decreases scopes@.len() - si,
        {
            let ss = &scopes[si];
            let ghost base = kept_positions(scopes@.take(si as int));
            proof {
                assert(scopes@.take(si + 1).drop_last() =~= scopes@.take(si as int));
                assert(scopes@.take(si + 1).last() == scopes@[si as int]);
            }
            let mut j: usize = 0;
            while j < ss.spans.len()
                invariant
                    si < scopes@.len(),
                    *ss == scopes@[si as int],
                    j <= ss.spans@.len(),
                    base == kept_positions(scopes@.take(si as int)),
                    rows@.len() == (base + kept_in_scope(ss.spans@.take(j as int), si as int)).len(),
                    forall|k: int| 0 <= k < rows@.len() ==> row_for(#[trigger] rows@[k], scopes@, (base + kept_in_scope(ss.spans@.take(j as int), si as int))[k]),
                    rows@.len() == 0 ==> min_t == i64::MAX && max_t == i64::MIN,
                    rows@.len() > 0 ==> is_min_start(rows@, min_t) && is_max_end(rows@, max_t),
                decreases ss.spans@.len() - j,
            {
                let span = &ss.spans[j];
                let ghost before_pos = base + kept_in_scope(ss.spans@.take(j as int), si as int);
                proof {
                    assert(ss.spans@.take(j + 1).drop_last() =~= ss.spans@.take(j as int));
                    assert(ss.spans@.take(j + 1).last() == ss.spans@[j as int]);
                }
                let start = span.start_time_unix_nano as i64;
                let end = span.end_time_unix_nano as i64;
                if start != 0 && end != 0 && span.trace_id.len() == 16 && span.span_id.len() == 8 {
                    let row = span_row(ss, span);
                    let ghost before = rows@;
                    let ghost old_min = min_t;
                    let ghost old_max = max_t;
                    if start < min_t {
                        min_t = start;
                    }
                    if end > max_t {
                        max_t = end;
                    }
                    rows.push(row);
                    proof {
                        let after_pos = base + kept_in_scope(ss.spans@.take(j + 1), si as int);
                        assert(after_pos =~= before_pos.push((si as int, j as int)));
                        assert forall|k: int| 0 <= k < rows@.len() implies row_for(#[trigger] rows@[k], scopes@, after_pos[k]) by {
                            if k < before.len() {
                                assert(rows@[k] == before[k]);
                            }
                        }
                        let n = before.len() as int;
                        assert(rows@[n].start_time == start && rows@[n].end_time == end);
                        if before.len() > 0 {
                            let a = choose|k: int| 0 <= k < before.len() && (#[trigger] before[k]).start_time == old_min;
                            let b = choose|k: int| 0 <= k < before.len() && (#[trigger] before[k]).end_time == old_max;
                            assert(rows@[a] == before[a] && rows@[b] == before[b]);
                            assert forall|k: int| 0 <= k < rows@.len() implies min_t <= (#[trigger] rows@[k]).start_time && rows@[k].end_time <= max_t by {
                                if k < n {
                                    assert(rows@[k] == before[k]);
                                }
                            }
                        }
                    }
                } else {
                    proof {
                        assert(base + kept_in_scope(ss.spans@.take(j + 1), si as int) =~= before_pos);
                    }
                }
                j = j + 1;
            }
            proof {
                assert(ss.spans@.take(ss.spans@.len() as int) =~= ss.spans@);
                assert(kept_positions(scopes@.take(si + 1)) == base + kept_in_scope(ss.spans@, si as int));
            }
            si = si + 1;
        }
        assert(scopes@.take(scopes@.len() as int) =~= scopes@);
        if rows.len() == 0 {
            None
        } else {
            Some(SpanRows { min_time: min_t, max_time: max_t, rows })
        }
    }
}

} // verus!
