use vstd::prelude::*;
use opentelemetry_proto::tonic::common::v1::any_value::Value as Av;
use opentelemetry_proto::tonic::metrics::v1::metric::Data;
use opentelemetry_proto::tonic::metrics::v1::number_data_point::Value as PointValue;
use prost::Message;
use crate::error::LakehouseError;
use crate::otel_decoders::{
    log_counts, log_leaves, log_leaves_are, metric_leaf_positions, metric_leaves, metric_leaves_are, pair_positions, span_counts, span_leaves,
    span_leaves_are,
};
use crate::otel_json::{AttrValue, JsonValue};
use crate::otel_logs::{LogRows, OtelLogRecord, OtelLogsBlockProcessor, OtelResourceLogs, OtelScopeLogs, log_rows_are};
use crate::otel_metrics::{
    MeasureRows, NumberValue, OtelMetric, OtelMetricData, OtelMetricsBlockProcessor, OtelNumberDataPoint, OtelResourceMetrics,
    OtelScopeMetrics, measure_rows_are,
};
use crate::otel_spans::{
    OtelResourceSpans, OtelScope, OtelScopeSpans, OtelSpan, OtelSpanEvent, OtelSpanLink, OtelSpansBlockProcessor, OtelStatus, SpanRows,
    span_rows_are,
};

verus! {

/// Moves an `AnyValue` message into `AttrValue`, variant for variant; a double travels as its
/// IEEE-754 bits. A `string_value_strindex` (an index into a profiles string table, which carries
/// no text of its own) and an unset value both become `Empty`.
#[verifier::external_body]
fn proto_any_value(v: &opentelemetry_proto::tonic::common::v1::AnyValue) -> AttrValue {
    match v.value.as_ref() {
        None => AttrValue::Empty,
        Some(Av::StringValue(s)) => AttrValue::Str(s.clone()),
        Some(Av::BoolValue(b)) => AttrValue::Bool(*b),
        Some(Av::IntValue(i)) => AttrValue::Int(*i),
        Some(Av::DoubleValue(d)) => AttrValue::Double(d.to_bits()),
        Some(Av::BytesValue(b)) => AttrValue::Bytes(b.clone()),
        Some(Av::ArrayValue(a)) => AttrValue::Array(a.values.iter().map(proto_any_value).collect()),
        Some(Av::KvlistValue(k)) => AttrValue::KvList(proto_key_values(&k.values)),
        Some(Av::StringValueStrindex(_)) => AttrValue::Empty,
    }
}

/// Moves `KeyValue` messages into key/value pairs, in order.
#[verifier::external_body]
fn proto_key_values(kvs: &Vec<opentelemetry_proto::tonic::common::v1::KeyValue>) -> Vec<(String, Option<AttrValue>)> {
    kvs.iter().map(|kv| (kv.key.clone(), kv.value.as_ref().map(proto_any_value))).collect()
}

/// Moves an `InstrumentationScope` message into `OtelScope`.
#[verifier::external_body]
fn proto_scope(s: &Option<opentelemetry_proto::tonic::common::v1::InstrumentationScope>) -> Option<OtelScope> {
    s.as_ref().map(|s| OtelScope { name: s.name.clone(), version: s.version.clone(), attributes: proto_key_values(&s.attributes) })
}

/// Moves span `Event` messages into `OtelSpanEvent`s, in order.
#[verifier::external_body]
fn proto_span_events(evs: &Vec<opentelemetry_proto::tonic::trace::v1::span::Event>) -> Vec<OtelSpanEvent> {
    evs.iter().map(|e| OtelSpanEvent { time_unix_nano: e.time_unix_nano, name: e.name.clone(), attributes: proto_key_values(&e.attributes) }).collect()
}

/// Moves span `Link` messages into `OtelSpanLink`s, in order.
#[verifier::external_body]
fn proto_span_links(ls: &Vec<opentelemetry_proto::tonic::trace::v1::span::Link>) -> Vec<OtelSpanLink> {
    ls.iter().map(|l| OtelSpanLink { trace_id: l.trace_id.clone(), span_id: l.span_id.clone(), attributes: proto_key_values(&l.attributes) }).collect()
}

/// Moves a `Span` message into `OtelSpan`.
#[verifier::external_body]
fn proto_span(s: &opentelemetry_proto::tonic::trace::v1::Span) -> OtelSpan {
    OtelSpan {
        trace_id: s.trace_id.clone(),
        span_id: s.span_id.clone(),
        parent_span_id: s.parent_span_id.clone(),
        name: s.name.clone(),
        kind: s.kind,
        start_time_unix_nano: s.start_time_unix_nano,
        end_time_unix_nano: s.end_time_unix_nano,
        status: s.status.as_ref().map(|st| OtelStatus { code: st.code, message: st.message.clone() }),
        attributes: proto_key_values(&s.attributes),
        events: proto_span_events(&s.events),
        links: proto_span_links(&s.links),
    }
}

/// Moves a `ResourceSpans` message into `OtelResourceSpans`: its resource's attributes (none
/// without a resource) and its scopes' spans, in order.
#[verifier::external_body]
fn proto_resource_spans(rs: &opentelemetry_proto::tonic::trace::v1::ResourceSpans) -> OtelResourceSpans {
    OtelResourceSpans {
        resource_attributes: rs.resource.as_ref().map_or(Vec::new(), |r| proto_key_values(&r.attributes)),
        scope_spans: rs.scope_spans.iter().map(|ss| OtelScopeSpans {
            scope: proto_scope(&ss.scope),
            schema_url: ss.schema_url.clone(),
            spans: ss.spans.iter().map(proto_span).collect(),
        }).collect(),
    }
}

/// Moves a `LogRecord` message into `OtelLogRecord`.
#[verifier::external_body]
fn proto_log_record(r: &opentelemetry_proto::tonic::logs::v1::LogRecord) -> OtelLogRecord {
    OtelLogRecord {
        time_unix_nano: r.time_unix_nano,
        observed_time_unix_nano: r.observed_time_unix_nano,
        severity_number: r.severity_number,
        severity_text: r.severity_text.clone(),
        body: r.body.as_ref().map(proto_any_value),
        attributes: proto_key_values(&r.attributes),
        trace_id: r.trace_id.clone(),
        span_id: r.span_id.clone(),
        event_name: r.event_name.clone(),
    }
}

/// Moves a `ResourceLogs` message into `OtelResourceLogs`: its resource's attributes (none
/// without a resource) and its scopes' records, in order.
#[verifier::external_body]
fn proto_resource_logs(rl: &opentelemetry_proto::tonic::logs::v1::ResourceLogs) -> OtelResourceLogs {
    OtelResourceLogs {
        resource_attributes: rl.resource.as_ref().map_or(Vec::new(), |r| proto_key_values(&r.attributes)),
        scope_logs: rl.scope_logs.iter().map(|sl| OtelScopeLogs {
            scope: proto_scope(&sl.scope),
            schema_url: sl.schema_url.clone(),
            log_records: sl.log_records.iter().map(proto_log_record).collect(),
        }).collect(),
    }
}

/// Moves `NumberDataPoint` messages into `OtelNumberDataPoint`s, in order; a double travels as its
/// IEEE-754 bits.
#[verifier::external_body]
fn proto_number_points(points: &Vec<opentelemetry_proto::tonic::metrics::v1::NumberDataPoint>) -> Vec<OtelNumberDataPoint> {
    points.iter().map(|p| OtelNumberDataPoint {
        time_unix_nano: p.time_unix_nano,
        value: p.value.as_ref().map(|v| match v {
            PointValue::AsDouble(d) => NumberValue::Double(d.to_bits()),
            PointValue::AsInt(i) => NumberValue::Int(*i),
        }),
        attributes: proto_key_values(&p.attributes),
    }).collect()
}

/// Moves a metric's `Data` into `OtelMetricData`, variant for variant; of a histogram's, an
/// exponential histogram's or a summary's data points only the attributes are moved.
#[verifier::external_body]
fn proto_metric_data(d: &opentelemetry_proto::tonic::metrics::v1::metric::Data) -> OtelMetricData {
    match d {
        Data::Sum(s) => OtelMetricData::Sum {
            aggregation_temporality: s.aggregation_temporality,
            is_monotonic: s.is_monotonic,
            data_points: proto_number_points(&s.data_points),
        },
        Data::Gauge(g) => OtelMetricData::Gauge { data_points: proto_number_points(&g.data_points) },
        Data::Histogram(h) => OtelMetricData::Histogram { aggregation_temporality: h.aggregation_temporality,
            point_attributes: h.data_points.iter().map(|p| proto_key_values(&p.attributes)).collect() },
        Data::ExponentialHistogram(h) => OtelMetricData::ExponentialHistogram { aggregation_temporality: h.aggregation_temporality,
            point_attributes: h.data_points.iter().map(|p| proto_key_values(&p.attributes)).collect() },
        Data::Summary(s) => OtelMetricData::Summary { point_attributes: s.data_points.iter().map(|p| proto_key_values(&p.attributes)).collect() },
    }
}

/// Moves a `Metric` message into `OtelMetric`.
#[verifier::external_body]
fn proto_metric(m: &opentelemetry_proto::tonic::metrics::v1::Metric) -> OtelMetric {
    OtelMetric {
        name: m.name.clone(),
        unit: m.unit.clone(),
        description: m.description.clone(),
        metadata: proto_key_values(&m.metadata),
        data: m.data.as_ref().map(proto_metric_data),
    }
}

/// Moves a `ResourceMetrics` message into `OtelResourceMetrics`: its resource's attributes (none
/// without a resource) and its scopes' metrics, in order.
#[verifier::external_body]
fn proto_resource_metrics(rm: &opentelemetry_proto::tonic::metrics::v1::ResourceMetrics) -> OtelResourceMetrics {
    OtelResourceMetrics {
        resource_attributes: rm.resource.as_ref().map_or(Vec::new(), |r| proto_key_values(&r.attributes)),
        scope_metrics: rm.scope_metrics.iter().map(|sm| OtelScopeMetrics {
            scope: proto_scope(&sm.scope),
            schema_url: sm.schema_url.clone(),
            metrics: sm.metrics.iter().map(proto_metric).collect(),
        }).collect(),
    }
}

// ---------------------------------------------------------------------------------------------
// The OTLP/JSON dump of each leaf message: `serde_json` serializes the message, as
// opentelemetry-proto's `with-serde` feature defines it, and the value is read as `jsonb` reads it.

/// Moves a `serde_json` number into `JsonValue` as `jsonb`'s `Value::from` reads it: held as a
/// non-negative integer it becomes `UInt`, as a negative one `Int`, as a float a `Double` by its
/// IEEE-754 bits (`Null` where it has no `f64` form).
#[verifier::external_body]
fn json_of_number(n: &serde_json::Number) -> JsonValue {
    match (n.as_u64(), n.as_i64()) {
        (Some(u), _) => JsonValue::UInt(u),
        (None, Some(i)) => JsonValue::Int(i),
        (None, None) => n.as_f64().map_or(JsonValue::Null, |d| JsonValue::Double(d.to_bits())),
    }
}

/// Moves a `serde_json` value into `JsonValue`, variant for variant, as `jsonb`'s `Value::from`
/// reads it (numbers: see `json_of_number`); an object's entries keep their order.
#[verifier::external_body]
fn json_of_serde(v: &serde_json::Value) -> JsonValue {
    match v {
        serde_json::Value::Null => JsonValue::Null,
        serde_json::Value::Bool(b) => JsonValue::Bool(*b),
        serde_json::Value::Number(n) => json_of_number(n),
        serde_json::Value::String(s) => JsonValue::Str(s.clone()),
        serde_json::Value::Array(a) => JsonValue::Array(a.iter().map(json_of_serde).collect()),
        serde_json::Value::Object(o) => JsonValue::Object(o.iter().map(|(k, x)| (k.clone(), json_of_serde(x))).collect()),
    }
}

/// `serde_json::to_value` of a `Span`, then its conversion; `None` when serialization fails.
#[verifier::external_body]
fn span_dump(s: &opentelemetry_proto::tonic::trace::v1::Span) -> Option<JsonValue> {
    serde_json::to_value(s).ok().map(|j| json_of_serde(&j))
}

/// `serde_json::to_value` of a `LogRecord`, then its conversion; `None` when serialization fails.
#[verifier::external_body]
fn log_record_dump(r: &opentelemetry_proto::tonic::logs::v1::LogRecord) -> Option<JsonValue> {
    serde_json::to_value(r).ok().map(|j| json_of_serde(&j))
}

/// `serde_json::to_value` of a `NumberDataPoint`, then its conversion; `None` when serialization
/// fails.
#[verifier::external_body]
fn number_point_dump(p: &opentelemetry_proto::tonic::metrics::v1::NumberDataPoint) -> Option<JsonValue> {
    serde_json::to_value(p).ok().map(|j| json_of_serde(&j))
}

/// `serde_json::to_value` of a `HistogramDataPoint`, then its conversion; `None` when
/// serialization fails.
#[verifier::external_body]
fn histogram_point_dump(p: &opentelemetry_proto::tonic::metrics::v1::HistogramDataPoint) -> Option<JsonValue> {
    serde_json::to_value(p).ok().map(|j| json_of_serde(&j))
}

/// `serde_json::to_value` of an `ExponentialHistogramDataPoint`, then its conversion; `None` when
/// serialization fails.
#[verifier::external_body]
fn exponential_histogram_point_dump(p: &opentelemetry_proto::tonic::metrics::v1::ExponentialHistogramDataPoint) -> Option<JsonValue> {
    serde_json::to_value(p).ok().map(|j| json_of_serde(&j))
}

/// `serde_json::to_value` of a `SummaryDataPoint`, then its conversion; `None` when serialization
/// fails.
#[verifier::external_body]
fn summary_point_dump(p: &opentelemetry_proto::tonic::metrics::v1::SummaryDataPoint) -> Option<JsonValue> {
    serde_json::to_value(p).ok().map(|j| json_of_serde(&j))
}

/// The dumps of a metric's data points, in order, whatever their kind (none without data); `None`
/// when one does not serialize.
#[verifier::external_body]
fn proto_metric_point_dumps(m: &opentelemetry_proto::tonic::metrics::v1::Metric) -> Option<Vec<JsonValue>> {
    match m.data.as_ref() {
        None => Some(Vec::new()),
        Some(Data::Sum(s)) => s.data_points.iter().map(number_point_dump).collect(),
        Some(Data::Gauge(g)) => g.data_points.iter().map(number_point_dump).collect(),
        Some(Data::Histogram(h)) => h.data_points.iter().map(histogram_point_dump).collect(),
        Some(Data::ExponentialHistogram(h)) => h.data_points.iter().map(exponential_histogram_point_dump).collect(),
        Some(Data::Summary(s)) => s.data_points.iter().map(summary_point_dump).collect(),
    }
}

// ---------------------------------------------------------------------------------------------
// Decoding a block payload.

/// The `ResourceSpans` message encoded in `payload`, as plain values; `None` when the bytes are
/// not such a message.
pub uninterp spec fn spec_decode_spans(payload: Seq<u8>) -> Option<OtelResourceSpans>;

/// The `ResourceLogs` message encoded in `payload`, as plain values; `None` when the bytes are
/// not such a message.
pub uninterp spec fn spec_decode_logs(payload: Seq<u8>) -> Option<OtelResourceLogs>;

/// The `ResourceMetrics` message encoded in `payload`, as plain values; `None` when the bytes are
/// not such a message.
pub uninterp spec fn spec_decode_metrics(payload: Seq<u8>) -> Option<OtelResourceMetrics>;

/// prost's `Message::decode` of a `ResourceSpans` over the payload bytes, then its conversion.
/// The decoding depends on the bytes alone; the contract names its result and says nothing of
/// which bytes decode.
#[verifier::external_body]
fn decode_spans(payload: &[u8]) -> (r: Option<OtelResourceSpans>)
    ensures
        r == spec_decode_spans(payload@),
{
    opentelemetry_proto::tonic::trace::v1::ResourceSpans::decode(payload).ok().map(|rs| proto_resource_spans(&rs))
}

/// prost's `Message::decode` of a `ResourceLogs` over the payload bytes, then its conversion.
/// The decoding depends on the bytes alone; the contract names its result and says nothing of
/// which bytes decode.
#[verifier::external_body]
fn decode_logs(payload: &[u8]) -> (r: Option<OtelResourceLogs>)
    ensures
        r == spec_decode_logs(payload@),
{
    opentelemetry_proto::tonic::logs::v1::ResourceLogs::decode(payload).ok().map(|rl| proto_resource_logs(&rl))
}

/// prost's `Message::decode` of a `ResourceMetrics` over the payload bytes, then its conversion.
/// The decoding depends on the bytes alone; the contract names its result and says nothing of
/// which bytes decode.
#[verifier::external_body]
fn decode_metrics(payload: &[u8]) -> (r: Option<OtelResourceMetrics>)
    ensures
        r == spec_decode_metrics(payload@),
{
    opentelemetry_proto::tonic::metrics::v1::ResourceMetrics::decode(payload).ok().map(|rm| proto_resource_metrics(&rm))
}

/// The OTLP/JSON dumps of the spans of the `ResourceSpans` message encoded in `payload`, scope by
/// scope and in order; `None` when one does not serialize.
pub uninterp spec fn spec_span_dumps(payload: Seq<u8>) -> Option<Seq<JsonValue>>;

/// The OTLP/JSON dumps of the log records of the `ResourceLogs` message encoded in `payload`,
/// scope by scope and in order; `None` when one does not serialize.
pub uninterp spec fn spec_log_dumps(payload: Seq<u8>) -> Option<Seq<JsonValue>>;

/// The OTLP/JSON dumps of the data points of the `ResourceMetrics` message encoded in `payload`,
/// scope by scope, metric by metric and in order; `None` when one does not serialize.
pub uninterp spec fn spec_metric_point_dumps(payload: Seq<u8>) -> Option<Seq<JsonValue>>;

/// prost's `Message::decode` of a `ResourceSpans`, then `serde_json::to_value` of each span in
/// order. It walks the same spans as `decode_spans`, so there is one dump per span; the contract
/// names the dumps and says nothing of their content.
#[verifier::external_body]
fn span_dumps(payload: &[u8]) -> (r: Option<Vec<JsonValue>>)
    ensures
        spec_decode_spans(payload@) is None ==> r is None,
        spec_decode_spans(payload@) is Some ==> match r {
            Some(v) => spec_span_dumps(payload@) == Some(v@),
            None => spec_span_dumps(payload@) is None,
        },
        r matches Some(v) ==> v@.len() == pair_positions(span_counts(spec_decode_spans(payload@)->Some_0.scope_spans@)).len(),
{
    let rs = opentelemetry_proto::tonic::trace::v1::ResourceSpans::decode(payload).ok()?;
    rs.scope_spans.iter().flat_map(|ss| ss.spans.iter()).map(span_dump).collect()
}

/// prost's `Message::decode` of a `ResourceLogs`, then `serde_json::to_value` of each log record in
/// order. It walks the same records as `decode_logs`, so there is one dump per record; the
/// contract names the dumps and says nothing of their content.
#[verifier::external_body]
fn log_dumps(payload: &[u8]) -> (r: Option<Vec<JsonValue>>)
    ensures
        spec_decode_logs(payload@) is None ==> r is None,
        spec_decode_logs(payload@) is Some ==> match r {
            Some(v) => spec_log_dumps(payload@) == Some(v@),
            None => spec_log_dumps(payload@) is None,
        },
        r matches Some(v) ==> v@.len() == pair_positions(log_counts(spec_decode_logs(payload@)->Some_0.scope_logs@)).len(),
{
    let rl = opentelemetry_proto::tonic::logs::v1::ResourceLogs::decode(payload).ok()?;
    rl.scope_logs.iter().flat_map(|sl| sl.log_records.iter()).map(log_record_dump).collect()
}

/// prost's `Message::decode` of a `ResourceMetrics`, then `serde_json::to_value` of each data
/// point in order. It walks the same data points as `decode_metrics`, so there is one dump per
/// point; the contract names the dumps and says nothing of their content.
#[verifier::external_body]
fn metric_point_dumps(payload: &[u8]) -> (r: Option<Vec<JsonValue>>)
    ensures
        spec_decode_metrics(payload@) is None ==> r is None,
        spec_decode_metrics(payload@) is Some ==> match r {
            Some(v) => spec_metric_point_dumps(payload@) == Some(v@),
            None => spec_metric_point_dumps(payload@) is None,
        },
        r matches Some(v) ==> v@.len() == metric_leaf_positions(spec_decode_metrics(payload@)->Some_0.scope_metrics@).len(),
{
    let rm = opentelemetry_proto::tonic::metrics::v1::ResourceMetrics::decode(payload).ok()?;
    let per_metric: Option<Vec<Vec<JsonValue>>> = rm.scope_metrics.iter().flat_map(|sm| sm.metrics.iter()).map(proto_metric_point_dumps).collect();
    per_metric.map(|v| v.into_iter().flatten().collect())
}

/// The span rows of a block whose payload is one `ResourceSpans` message: `CorruptPayload` when
/// the payload does not decode, else the rows of its scopes (see `span_rows_are`).
pub fn span_rows_of_payload(payload: &[u8]) -> (r: Result<Option<SpanRows>, LakehouseError>)
    ensures
        spec_decode_spans(payload@) is None <==> r == Err::<Option<SpanRows>, LakehouseError>(LakehouseError::CorruptPayload),
        spec_decode_spans(payload@) matches Some(res) ==> r matches Ok(rows) && span_rows_are(res.scope_spans@, rows),
{
    match decode_spans(payload) {
        Some(res) => Ok(OtelSpansBlockProcessor {}.span_rows(&res.scope_spans)),
        None => Err(LakehouseError::CorruptPayload),
    }
}

/// The log rows of a block whose payload is one `ResourceLogs` message: `CorruptPayload` when the
/// payload does not decode, else the rows of its scopes (see `log_rows_are`).
pub fn log_rows_of_payload(payload: &[u8]) -> (r: Result<Option<LogRows>, LakehouseError>)
    ensures
        spec_decode_logs(payload@) is None <==> r == Err::<Option<LogRows>, LakehouseError>(LakehouseError::CorruptPayload),
        spec_decode_logs(payload@) matches Some(res) ==> r matches Ok(rows) && log_rows_are(res.scope_logs@, rows),
{
    match decode_logs(payload) {
        Some(res) => Ok(OtelLogsBlockProcessor {}.log_rows(&res.scope_logs)),
        None => Err(LakehouseError::CorruptPayload),
    }
}

/// The measure rows of a block whose payload is one `ResourceMetrics` message: `CorruptPayload`
/// when the payload does not decode, else the rows of its scopes (see `measure_rows_are`).
pub fn measure_rows_of_payload(payload: &[u8]) -> (r: Result<Option<MeasureRows>, LakehouseError>)
    ensures
        spec_decode_metrics(payload@) is None <==> r == Err::<Option<MeasureRows>, LakehouseError>(LakehouseError::CorruptPayload),
        spec_decode_metrics(payload@) matches Some(m) ==> r matches Ok(rows) && measure_rows_are(m.scope_metrics@, rows),
{
    match decode_metrics(payload) {
        Some(m) => Ok(OtelMetricsBlockProcessor {}.measure_rows(&m.scope_metrics)),
        None => Err(LakehouseError::CorruptPayload),
    }
}

/// Decodes OTLP `ResourceLogs` block payloads into one record per log record.
pub struct OtelLogsBlockDecoder {}

impl OtelLogsBlockDecoder {
    /// The records of a block, one per log record in payload order, each its OTLP/JSON dump with the
    /// `__` envelope on top (see `log_leaves_are`): `CorruptPayload` when the payload does not
    /// decode, `UnserializableLeaf` when a log record does not serialize.
    pub fn decode(&self, payload: &[u8]) -> (r: Result<Vec<(String, Vec<(String, JsonValue)>)>, LakehouseError>)
        ensures
            spec_decode_logs(payload@) is None <==> r == Err::<Vec<(String, Vec<(String, JsonValue)>)>, LakehouseError>(LakehouseError::CorruptPayload),
            (spec_decode_logs(payload@) is Some && spec_log_dumps(payload@) is None)
                <==> r == Err::<Vec<(String, Vec<(String, JsonValue)>)>, LakehouseError>(LakehouseError::UnserializableLeaf),
            r matches Ok(leaves) ==> spec_decode_logs(payload@) matches Some(res) && spec_log_dumps(payload@) matches Some(dumps)
                && log_leaves_are(res, dumps, Some(leaves)),
    {
        let res = match decode_logs(payload) {
            Some(res) => res,
            None => return Err(LakehouseError::CorruptPayload),
        };
        let dumps = match log_dumps(payload) {
            Some(dumps) => dumps,
            None => return Err(LakehouseError::UnserializableLeaf),
        };
        let ghost d = dumps@;
        match log_leaves(&res, dumps) {
            Some(leaves) => {
                assert(log_leaves_are(res, d, Some(leaves)));
                Ok(leaves)
            },
            None => {
                assert(false);
                Err(LakehouseError::CorruptPayload)
            },
        }
    }
}

/// Decodes OTLP `ResourceSpans` block payloads into one record per span.
pub struct OtelTracesBlockDecoder {}

impl OtelTracesBlockDecoder {
    /// The records of a block, one per span in payload order, each its OTLP/JSON dump with the
    /// `__` envelope on top (see `span_leaves_are`): `CorruptPayload` when the payload does not
    /// decode, `UnserializableLeaf` when a span does not serialize.
    pub fn decode(&self, payload: &[u8]) -> (r: Result<Vec<(String, Vec<(String, JsonValue)>)>, LakehouseError>)
        ensures
            spec_decode_spans(payload@) is None <==> r == Err::<Vec<(String, Vec<(String, JsonValue)>)>, LakehouseError>(LakehouseError::CorruptPayload),
            (spec_decode_spans(payload@) is Some && spec_span_dumps(payload@) is None)
                <==> r == Err::<Vec<(String, Vec<(String, JsonValue)>)>, LakehouseError>(LakehouseError::UnserializableLeaf),
            r matches Ok(leaves) ==> spec_decode_spans(payload@) matches Some(res) && spec_span_dumps(payload@) matches Some(dumps)
                && span_leaves_are(res, dumps, Some(leaves)),
    {
        let res = match decode_spans(payload) {
            Some(res) => res,
            None => return Err(LakehouseError::CorruptPayload),
        };
        let dumps = match span_dumps(payload) {
            Some(dumps) => dumps,
            None => return Err(LakehouseError::UnserializableLeaf),
        };
        let ghost d = dumps@;
        match span_leaves(&res, dumps) {
            Some(leaves) => {
                assert(span_leaves_are(res, d, Some(leaves)));
                Ok(leaves)
            },
            None => {
                assert(false);
                Err(LakehouseError::CorruptPayload)
            },
        }
    }
}

/// Decodes OTLP `ResourceMetrics` block payloads into one record per data point.
pub struct OtelMetricsBlockDecoder {}

impl OtelMetricsBlockDecoder {
    /// The records of a block, one per data point in payload order, each its OTLP/JSON dump with the
    /// `__` envelope on top (see `metric_leaves_are`): `CorruptPayload` when the payload does not
    /// decode, `UnserializableLeaf` when a data point does not serialize.
    pub fn decode(&self, payload: &[u8]) -> (r: Result<Vec<(String, Vec<(String, JsonValue)>)>, LakehouseError>)
        ensures
            spec_decode_metrics(payload@) is None <==> r == Err::<Vec<(String, Vec<(String, JsonValue)>)>, LakehouseError>(LakehouseError::CorruptPayload),
            (spec_decode_metrics(payload@) is Some && spec_metric_point_dumps(payload@) is None)
                <==> r == Err::<Vec<(String, Vec<(String, JsonValue)>)>, LakehouseError>(LakehouseError::UnserializableLeaf),
            r matches Ok(leaves) ==> spec_decode_metrics(payload@) matches Some(res) && spec_metric_point_dumps(payload@) matches Some(dumps)
                && metric_leaves_are(res, dumps, Some(leaves)),
    {
        let res = match decode_metrics(payload) {
            Some(res) => res,
            None => return Err(LakehouseError::CorruptPayload),
        };
        let dumps = match metric_point_dumps(payload) {
            Some(dumps) => dumps,
            None => return Err(LakehouseError::UnserializableLeaf),
        };
        let ghost d = dumps@;
        match metric_leaves(&res, dumps) {
            Some(leaves) => {
                assert(metric_leaves_are(res, d, Some(leaves)));
                Ok(leaves)
            },
            None => {
                assert(false);
                Err(LakehouseError::CorruptPayload)
            },
        }
    }
}

} // verus!
