use vstd::prelude::*;
use crate::otel_attrs::{severity_number_to_level, spec_severity_level};
use crate::otel_json::{AttrValue, JsonValue, any_value_to_json, base64_encode, hex_encode, json_is, spec_base64, spec_hex};
use crate::otel_spans::{ExtraValue, OtelScope, extra_is, extras_are, props_is, props_object, scope_extras, spec_scope_extras};
use crate::view_definition::{append_decimal_i64, spec_decimal};

verus! {

/// An OpenTelemetry log record, as plain values.
pub struct OtelLogRecord {
    pub time_unix_nano: u64,
    pub observed_time_unix_nano: u64,
    pub severity_number: i32,
    pub severity_text: String,
    pub body: Option<AttrValue>,
    pub attributes: Vec<(String, Option<AttrValue>)>,
    pub trace_id: Vec<u8>,
    pub span_id: Vec<u8>,
    pub event_name: String,
}

/// The log records of one instrumentation scope.
pub struct OtelScopeLogs {
    pub scope: Option<OtelScope>,
    pub schema_url: String,
    pub log_records: Vec<OtelLogRecord>,
}

/// The log records of one resource: its attributes and its scopes.
pub struct OtelResourceLogs {
    pub resource_attributes: Vec<(String, Option<AttrValue>)>,
    pub scope_logs: Vec<OtelScopeLogs>,
}

/// The `msg` text of a log record's body: final text, or a double (by its IEEE-754 bits) or a
/// structured value (as JSON) still to be rendered as text.
pub enum LogMessage {
    Text(String),
    Double(u64),
    Json(JsonValue),
}

/// Whether `m` is the text form of `v` (`any_value_to_string`): a string as is, an integer in
/// decimal, a boolean as `true`/`false`, bytes in base64, an empty value as the empty text, a
/// double and an array or key/value list to be rendered from the double or from its JSON form.
pub open spec fn message_is(m: LogMessage, v: AttrValue) -> bool {
    match v {
        AttrValue::Empty => m matches LogMessage::Text(t) && t@.len() == 0,
        AttrValue::Str(s) => m matches LogMessage::Text(t) && t@ == s@,
        AttrValue::Bool(b) => m matches LogMessage::Text(t) && t@ == (if b { "true"@ } else { "false"@ }),
        AttrValue::Int(i) => m matches LogMessage::Text(t) && t@ == spec_decimal(i as int),
        AttrValue::Double(d) => m == LogMessage::Double(d),
        AttrValue::Bytes(b) => m matches LogMessage::Text(t) && t@ == spec_base64(b@),
        AttrValue::Array(_) => m matches LogMessage::Json(j) && json_is(j, v),
        AttrValue::KvList(_) => m matches LogMessage::Json(j) && json_is(j, v),
    }
}

/// The text form of a value (see `message_is`).
pub fn any_value_to_message(v: &AttrValue) -> (r: LogMessage)
    ensures
        message_is(r, *v),
{
    proof {
        reveal_strlit("true");
        reveal_strlit("false");
    }
    match v {
        AttrValue::Empty => LogMessage::Text(String::new()),
        AttrValue::Str(s) => LogMessage::Text(s.clone()),
        AttrValue::Bool(b) => LogMessage::Text(String::from_str(if *b { "true" } else { "false" })),
        AttrValue::Int(i) => {
            let mut t = String::new();
            append_decimal_i64(&mut t, *i);
            LogMessage::Text(t)
        },
        AttrValue::Double(d) => LogMessage::Double(*d),
        AttrValue::Bytes(b) => LogMessage::Text(base64_encode(b.as_slice())),
        AttrValue::Array(_) => LogMessage::Json(any_value_to_json(v)),
        AttrValue::KvList(_) => LogMessage::Json(any_value_to_json(v)),
    }
}

/// One row of the `log_entries` view, without the columns that come from the block's process.
pub struct LogRow {
    pub time: i64,
    pub target: String,
    pub level: i32,
    pub msg: LogMessage,
    pub properties: Vec<(String, JsonValue)>,
}

/// Whether a record makes a row: it has a time or an observed time.
pub open spec fn has_timestamp(r: OtelLogRecord) -> bool {
    r.time_unix_nano != 0 || r.observed_time_unix_nano != 0
}

/// The record's time: its time when set, otherwise its observed time.
pub open spec fn record_time(r: OtelLogRecord) -> i64 {
    if r.time_unix_nano != 0 { r.time_unix_nano as i64 } else { r.observed_time_unix_nano as i64 }
}

/// The properties a record adds after its scope's: `otel.trace_id` (16 bytes) and `otel.span_id`
/// (8 bytes) in hexadecimal when of the right size, `otel.severity_text` and `otel.event_name`
/// when not empty.
pub open spec fn record_extras(r: OtelLogRecord) -> Seq<(Seq<char>, ExtraValue)> {
    (if r.trace_id@.len() == 16 { seq![("otel.trace_id"@, ExtraValue::Text(spec_hex(r.trace_id@)))] } else { Seq::empty() })
        + (if r.span_id@.len() == 8 { seq![("otel.span_id"@, ExtraValue::Text(spec_hex(r.span_id@)))] } else { Seq::empty() })
        + (if r.severity_text@.len() > 0 { seq![("otel.severity_text"@, ExtraValue::Text(r.severity_text@))] } else { Seq::empty() })
        + (if r.event_name@.len() > 0 { seq![("otel.event_name"@, ExtraValue::Text(r.event_name@))] } else { Seq::empty() })
}

/// Whether `row` is the row of record `r` of scope `sl`: its time, its scope's name as target
/// (empty without scope), its level from the severity number, its body as message (empty without
/// body), and its properties from its attributes, its scope's extras and its own.
pub open spec fn log_row_is(row: LogRow, sl: OtelScopeLogs, r: OtelLogRecord) -> bool {
    &&& row.time == record_time(r)
    &&& row.target@ == (match sl.scope { Some(s) => s.name@, None => Seq::empty() })
    &&& row.level == spec_severity_level(r.severity_number)
    &&& match r.body {
        Some(b) => message_is(row.msg, b),
        None => row.msg matches LogMessage::Text(t) && t@.len() == 0,
    }
    &&& props_is(row.properties@, r.attributes@, spec_scope_extras(sl.scope, sl.schema_url@) + record_extras(r))
}

fn push_extra_text(out: &mut Vec<(String, JsonValue)>, key: &str, text: String, Ghost(d): Ghost<Seq<(Seq<char>, ExtraValue)>>)
    requires
        extras_are(old(out)@, d),
    ensures
        extras_are(final(out)@, d.push((key@, ExtraValue::Text(text@)))),
{
    let ghost before = out@;
    let ghost t = text@;
    out.push((String::from_str(key), JsonValue::Str(text)));
    assert forall|k: int| 0 <= k < out@.len() implies extra_is(#[trigger] out@[k], d.push((key@, ExtraValue::Text(t)))[k]) by {
        if k < before.len() {
            assert(out@[k] == before[k]);
        }
    }
}

#[verifier::rlimit(40)]
fn log_row(sl: &OtelScopeLogs, r: &OtelLogRecord) -> (row: LogRow)
    requires
        has_timestamp(*r),
    ensures
        log_row_is(row, *sl, *r),
{
    proof {
        reveal_strlit("otel.trace_id");
        reveal_strlit("otel.span_id");
        reveal_strlit("otel.severity_text");
        reveal_strlit("otel.event_name");
    }
    let time: i64 = if r.time_unix_nano != 0 { r.time_unix_nano as i64 } else { r.observed_time_unix_nano as i64 };
    let target = match &sl.scope {
        Some(s) => s.name.clone(),
        None => String::new(),
    };
    let level = severity_number_to_level(r.severity_number);
    let msg = match &r.body {
        Some(b) => any_value_to_message(b),
        None => LogMessage::Text(String::new()),
    };
    let mut extras = scope_extras(&sl.scope, &sl.schema_url);
    let ghost mut d = spec_scope_extras(sl.scope, sl.schema_url@);
    if r.trace_id.len() == 16 {
        push_extra_text(&mut extras, "otel.trace_id", hex_encode(r.trace_id.as_slice()), Ghost(d));
        proof { d = d.push(("otel.trace_id"@, ExtraValue::Text(spec_hex(r.trace_id@)))); }
    }
    if r.span_id.len() == 8 {
        push_extra_text(&mut extras, "otel.span_id", hex_encode(r.span_id.as_slice()), Ghost(d));
        proof { d = d.push(("otel.span_id"@, ExtraValue::Text(spec_hex(r.span_id@)))); }
    }
    if !r.severity_text.as_str().is_empty() {
        push_extra_text(&mut extras, "otel.severity_text", r.severity_text.clone(), Ghost(d));
        proof { d = d.push(("otel.severity_text"@, ExtraValue::Text(r.severity_text@))); }
    }
    if !r.event_name.as_str().is_empty() {
        push_extra_text(&mut extras, "otel.event_name", r.event_name.clone(), Ghost(d));
        proof { d = d.push(("otel.event_name"@, ExtraValue::Text(r.event_name@))); }
    }
    assert(d =~= spec_scope_extras(sl.scope, sl.schema_url@) + record_extras(*r));
    let properties = props_object(&r.attributes, extras, Ghost(d));
    LogRow { time, target, level, msg, properties }
}

/// The positions (scope, record) of the records with a timestamp of one scope, in order.
pub open spec fn timed_in_scope(records: Seq<OtelLogRecord>, si: int) -> Seq<(int, int)>
    decreases records.len(),
{
    if records.len() == 0 {
        Seq::empty()
    } else if has_timestamp(records.last()) {
        timed_in_scope(records.drop_last(), si).push((si, records.len() - 1))
    } else {
        timed_in_scope(records.drop_last(), si)
    }
}

/// The positions (scope, record) of the records that make rows, scope by scope, in order.
pub open spec fn timed_positions(scopes: Seq<OtelScopeLogs>) -> Seq<(int, int)>
    decreases scopes.len(),
{
    if scopes.len() == 0 {
        Seq::empty()
    } else {
        timed_positions(scopes.drop_last()) + timed_in_scope(scopes.last().log_records@, scopes.len() - 1)
    }
}

/// Whether `row` is the row of the record at position `p`.
pub open spec fn log_row_for(row: LogRow, scopes: Seq<OtelScopeLogs>, p: (int, int)) -> bool {
    &&& 0 <= p.0 < scopes.len()
    &&& 0 <= p.1 < scopes[p.0].log_records@.len()
    &&& log_row_is(row, scopes[p.0], scopes[p.0].log_records@[p.1])
}

/// Whether `(lo, hi)` is the earliest and the latest time of the rows.
pub open spec fn is_log_time_range(rows: Seq<LogRow>, lo: i64, hi: i64) -> bool {
    &&& exists|k: int| 0 <= k < rows.len() && (#[trigger] rows[k]).time == lo
    &&& exists|k: int| 0 <= k < rows.len() && (#[trigger] rows[k]).time == hi
    &&& forall|k: int| 0 <= k < rows.len() ==> lo <= (#[trigger] rows[k]).time <= hi
}

/// The rows of a block of log records with their time range.
pub struct LogRows {
    pub min_time: i64,
    pub max_time: i64,
    pub rows: Vec<LogRow>,
}

/// The log rows of `scopes`: one row per record with a timestamp, scope by scope and in order,
/// with their time range; `None` when no record makes a row.
pub open spec fn log_rows_are(scopes: Seq<OtelScopeLogs>, r: Option<LogRows>) -> bool {
    &&& (r is None <==> timed_positions(scopes).len() == 0)
    &&& (r matches Some(rs) ==> {
        &&& rs.rows@.len() == timed_positions(scopes).len()
        &&& forall|k: int| 0 <= k < rs.rows@.len() ==> log_row_for(#[trigger] rs.rows@[k], scopes, timed_positions(scopes)[k])
        &&& is_log_time_range(rs.rows@, rs.min_time, rs.max_time)
    })
}

/// A `BlockProcessor` for OpenTelemetry log blocks.
pub struct OtelLogsBlockProcessor {}

impl OtelLogsBlockProcessor {
    /// One row per record with a timestamp (records without one would anchor the partition at
    /// 1970 and are dropped), scope by scope and in order, with their time range; `None` when no
    /// record makes a row.
    pub fn log_rows(&self, scopes: &Vec<OtelScopeLogs>) -> (r: Option<LogRows>)
        ensures
            log_rows_are(scopes@, r),
    {
        let mut rows: Vec<LogRow> = Vec::new();
        let mut min_t: i64 = i64::MAX;
        let mut max_t: i64 = i64::MIN;
        let mut si: usize = 0;
        while si < scopes.len()
            invariant
                si <= scopes@.len(),
                rows@.len() == timed_positions(scopes@.take(si as int)).len(),
                forall|k: int| 0 <= k < rows@.len() ==> log_row_for(#[trigger] rows@[k], scopes@, timed_positions(scopes@.take(si as int))[k]),
                rows@.len() == 0 ==> min_t == i64::MAX && max_t == i64::MIN,
                rows@.len() > 0 ==> is_log_time_range(rows@, min_t, max_t),
            decreases scopes@.len() - si,
        {
            let sl = &scopes[si];
            let ghost base = timed_positions(scopes@.take(si as int));
            proof {
                assert(scopes@.take(si + 1).drop_last() =~= scopes@.take(si as int));
                assert(scopes@.take(si + 1).last() == scopes@[si as int]);
            }
            let mut j: usize = 0;
            while j < sl.log_records.len()
                invariant
                    si < scopes@.len(),
                    *sl == scopes@[si as int],
                    j <= sl.log_records@.len(),
                    base == timed_positions(scopes@.take(si as int)),
                    rows@.len() == (base + timed_in_scope(sl.log_records@.take(j as int), si as int)).len(),
                    forall|k: int| 0 <= k < rows@.len() ==> log_row_for(#[trigger] rows@[k], scopes@, (base + timed_in_scope(sl.log_records@.take(j as int), si as int))[k]),
                    rows@.len() == 0 ==> min_t == i64::MAX && max_t == i64::MIN,
                    rows@.len() > 0 ==> is_log_time_range(rows@, min_t, max_t),
                decreases sl.log_records@.len() - j,
            {
                let rec = &sl.log_records[j];
                let ghost before_pos = base + timed_in_scope(sl.log_records@.take(j as int), si as int);
                proof {
                    assert(sl.log_records@.take(j + 1).drop_last() =~= sl.log_records@.take(j as int));
                    assert(sl.log_records@.take(j + 1).last() == sl.log_records@[j as int]);
                }
                if rec.time_unix_nano != 0 || rec.observed_time_unix_nano != 0 {
                    let row = log_row(sl, rec);
                    let t = row.time;
                    let ghost before = rows@;
                    let ghost old_min = min_t;
                    let ghost old_max = max_t;
                    if t < min_t {
                        min_t = t;
                    }
                    if t > max_t {
                        max_t = t;
                    }
                    rows.push(row);
                    proof {
                        let after_pos = base + timed_in_scope(sl.log_records@.take(j + 1), si as int);
                        assert(after_pos =~= before_pos.push((si as int, j as int)));
                        assert forall|k: int| 0 <= k < rows@.len() implies log_row_for(#[trigger] rows@[k], scopes@, after_pos[k]) by {
                            if k < before.len() {
                                assert(rows@[k] == before[k]);
                            }
                        }
                        let n = before.len() as int;
                        assert(rows@[n].time == t);
                        if before.len() > 0 {
                            let a = choose|k: int| 0 <= k < before.len() && (#[trigger] before[k]).time == old_min;
                            let b = choose|k: int| 0 <= k < before.len() && (#[trigger] before[k]).time == old_max;
                            assert(rows@[a] == before[a] && rows@[b] == before[b]);
                            assert forall|k: int| 0 <= k < rows@.len() implies min_t <= (#[trigger] rows@[k]).time <= max_t by {
                                if k < n {
                                    assert(rows@[k] == before[k]);
                                }
                            }
                        }
                    }
                } else {
                    proof {
                        assert(base + timed_in_scope(sl.log_records@.take(j + 1), si as int) =~= before_pos);
                    }
                }
                j = j + 1;
            }
            proof {
                assert(sl.log_records@.take(sl.log_records@.len() as int) =~= sl.log_records@);
                assert(timed_positions(scopes@.take(si + 1)) == base + timed_in_scope(sl.log_records@, si as int));
            }
            si = si + 1;
        }
        assert(scopes@.take(scopes@.len() as int) =~= scopes@);
        if rows.len() == 0 {
            None
        } else {
            Some(LogRows { min_time: min_t, max_time: max_t, rows })
        }
    }
}

} // verus!
