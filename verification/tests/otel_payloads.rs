use micromegas_lakehouse::error::LakehouseError;
use micromegas_lakehouse::otel_decoders::{metric_leaves, next_leaf_step, LeafStep};
use micromegas_lakehouse::otel_json::{AttrValue, JsonValue};
use micromegas_lakehouse::otel_metrics::{NumberValue, OtelMetric, OtelMetricData, OtelNumberDataPoint, OtelResourceMetrics, OtelScopeMetrics};
use micromegas_lakehouse::otel_payloads::{
    log_rows_of_payload, measure_rows_of_payload, span_rows_of_payload, OtelLogsBlockDecoder, OtelMetricsBlockDecoder, OtelTracesBlockDecoder,
};
use micromegas_lakehouse::otel_spans::OtelScope;
use opentelemetry_proto::tonic::common::v1::{any_value, AnyValue, InstrumentationScope, KeyValue};
use opentelemetry_proto::tonic::logs::v1::{LogRecord, ResourceLogs, ScopeLogs};
use opentelemetry_proto::tonic::metrics::v1::{metric, number_data_point, Gauge, Metric, NumberDataPoint, ResourceMetrics, ScopeMetrics};
use opentelemetry_proto::tonic::trace::v1::{ResourceSpans, ScopeSpans, Span};
use prost::Message;

fn pb_kv(k: &str, v: &str) -> KeyValue {
    KeyValue { key: k.to_string(), value: Some(AnyValue { value: Some(any_value::Value::StringValue(v.to_string())) }), ..Default::default() }
}

fn pb_scope() -> Option<InstrumentationScope> {
    Some(InstrumentationScope { name: "my.lib".to_string(), version: "1.2".to_string(), ..Default::default() })
}

/// A buffer announcing a 5-byte field that is not there.
const TRUNCATED: [u8; 2] = [0x0a, 0x05];

#[test]
fn span_rows_from_payload_bytes() {
    let span = Span {
        trace_id: vec![1; 16],
        span_id: vec![2; 8],
        name: "work".to_string(),
        kind: 2,
        start_time_unix_nano: 100,
        end_time_unix_nano: 250,
        attributes: vec![pb_kv("k", "v")],
        ..Default::default()
    };
    let skipped = Span { trace_id: vec![1; 16], span_id: vec![3; 8], start_time_unix_nano: 0, end_time_unix_nano: 9, ..Default::default() };
    let payload = ResourceSpans {
        scope_spans: vec![ScopeSpans { scope: pb_scope(), spans: vec![span, skipped], ..Default::default() }],
        ..Default::default()
    }
    .encode_to_vec();
    let rows = span_rows_of_payload(&payload).unwrap().unwrap();
    assert_eq!(rows.rows.len(), 1);
    assert_eq!((rows.min_time, rows.max_time), (100, 250));
    assert_eq!(rows.rows[0].name, "work");
    assert_eq!(rows.rows[0].kind, "SERVER");
    assert_eq!(rows.rows[0].duration, 150);
    assert!(span_rows_of_payload(&ResourceSpans::default().encode_to_vec()).unwrap().is_none());
    assert_eq!(span_rows_of_payload(&TRUNCATED).err(), Some(LakehouseError::CorruptPayload));
}

#[test]
fn log_rows_from_payload_bytes() {
    let record = LogRecord {
        time_unix_nano: 0,
        observed_time_unix_nano: 77,
        severity_number: 9,
        body: Some(AnyValue { value: Some(any_value::Value::StringValue("hello".to_string())) }),
        ..Default::default()
    };
    let payload = ResourceLogs {
        scope_logs: vec![ScopeLogs { scope: pb_scope(), log_records: vec![record, LogRecord::default()], ..Default::default() }],
        ..Default::default()
    }
    .encode_to_vec();
    let rows = log_rows_of_payload(&payload).unwrap().unwrap();
    assert_eq!(rows.rows.len(), 1);
    assert_eq!(rows.rows[0].time, 77);
    assert_eq!(rows.rows[0].target, "my.lib");
    assert_eq!((rows.min_time, rows.max_time), (77, 77));
    assert_eq!(log_rows_of_payload(&TRUNCATED).err(), Some(LakehouseError::CorruptPayload));
}

#[test]
fn measure_rows_from_payload_bytes() {
    let point = NumberDataPoint {
        time_unix_nano: 40,
        value: Some(number_data_point::Value::AsInt(12)),
        attributes: vec![pb_kv("host", "h1")],
        ..Default::default()
    };
    let payload = ResourceMetrics {
        scope_metrics: vec![ScopeMetrics {
            scope: pb_scope(),
            metrics: vec![Metric {
                name: "queue".to_string(),
                unit: "1".to_string(),
                data: Some(metric::Data::Gauge(Gauge { data_points: vec![point] })),
                ..Default::default()
            }],
            ..Default::default()
        }],
        ..Default::default()
    }
    .encode_to_vec();
    let rows = measure_rows_of_payload(&payload).unwrap().unwrap();
    assert_eq!(rows.rows.len(), 1);
    assert_eq!((rows.rows[0].time, rows.rows[0].name.as_str()), (40, "queue"));
    assert!(rows.rows[0].value == NumberValue::Int(12));
    assert_eq!(measure_rows_of_payload(&TRUNCATED).err(), Some(LakehouseError::CorruptPayload));
}

fn keys(object: &[(String, JsonValue)]) -> Vec<String> {
    let mut ks: Vec<String> = object.iter().map(|(k, _)| k.clone()).collect();
    ks.sort();
    ks
}

fn entry<'a>(object: &'a [(String, JsonValue)], key: &str) -> &'a JsonValue {
    &object.iter().find(|(k, _)| k == key).unwrap().1
}

fn metrics_payload() -> OtelResourceMetrics {
    let attr = |v: &str| vec![("host".to_string(), Some(AttrValue::Str(v.to_string())))];
    OtelResourceMetrics {
        resource_attributes: vec![("service".to_string(), Some(AttrValue::Str("api".to_string())))],
        scope_metrics: vec![OtelScopeMetrics {
            scope: Some(OtelScope { name: "my.lib".to_string(), version: String::new(), attributes: vec![] }),
            schema_url: String::new(),
            metrics: vec![
                OtelMetric {
                    name: "latency".to_string(),
                    unit: "ms".to_string(),
                    description: String::new(),
                    metadata: vec![],
                    data: Some(OtelMetricData::Histogram { aggregation_temporality: 2, point_attributes: vec![attr("a"), attr("b")] }),
                },
                OtelMetric { name: "empty".to_string(), unit: String::new(), description: String::new(), metadata: vec![], data: None },
                OtelMetric {
                    name: "temp".to_string(),
                    unit: "C".to_string(),
                    description: String::new(),
                    metadata: vec![],
                    data: Some(OtelMetricData::Gauge {
                        data_points: vec![OtelNumberDataPoint { time_unix_nano: 5, value: Some(NumberValue::Int(1)), attributes: attr("c") }],
                    }),
                },
            ],
        }],
    }
}

#[test]
fn metric_leaves_in_payload_order() {
    let dumps = vec![
        JsonValue::Object(vec![("count".to_string(), JsonValue::Int(3))]),
        JsonValue::Object(vec![("count".to_string(), JsonValue::Int(4))]),
        JsonValue::Int(9),
    ];
    let leaves = metric_leaves(&metrics_payload(), dumps).unwrap();
    let types: Vec<&str> = leaves.iter().map(|(t, _)| t.as_str()).collect();
    assert_eq!(types, vec!["otlp.HistogramDataPoint", "otlp.HistogramDataPoint", "otlp.NumberDataPoint"]);
    assert_eq!(keys(&leaves[0].1), vec!["__attributes", "__metric", "__resource", "__scope", "__type", "count"]);
    assert!(matches!(entry(&leaves[1].1, "count"), JsonValue::Int(4)));
    assert!(matches!(entry(&leaves[0].1, "__type"), JsonValue::Str(t) if t == "otlp.HistogramDataPoint"));
    match entry(&leaves[1].1, "__attributes") {
        JsonValue::Object(o) => assert!(matches!(entry(o, "host"), JsonValue::Str(h) if h == "b")),
        _ => panic!("expected an object"),
    }
    match entry(&leaves[0].1, "__metric") {
        JsonValue::Object(o) => {
            assert!(matches!(entry(o, "name"), JsonValue::Str(n) if n == "latency"));
            assert!(matches!(entry(o, "otel.metric.kind"), JsonValue::Str(k) if k == "histogram"));
        }
        _ => panic!("expected an object"),
    }
    match entry(&leaves[2].1, "__resource") {
        JsonValue::Object(o) => assert!(matches!(entry(o, "service"), JsonValue::Str(s) if s == "api")),
        _ => panic!("expected an object"),
    }
    assert_eq!(keys(&leaves[2].1), vec!["__attributes", "__metric", "__resource", "__scope", "__type", "__value"]);
    match entry(&leaves[2].1, "__scope") {
        JsonValue::Object(o) => assert!(matches!(entry(o, "otel.scope.name"), JsonValue::Str(s) if s == "my.lib")),
        _ => panic!("expected an object"),
    }
    assert!(metric_leaves(&metrics_payload(), vec![JsonValue::Null]).is_none());
}

#[test]
fn leaf_visits_stop_on_request() {
    assert_eq!(next_leaf_step(0, 3, true), LeafStep::Visit(0));
    assert_eq!(next_leaf_step(2, 3, true), LeafStep::Visit(2));
    assert_eq!(next_leaf_step(3, 3, true), LeafStep::Stop);
    assert_eq!(next_leaf_step(1, 3, false), LeafStep::Stop);
}

#[test]
fn decoded_records_are_enveloped_dumps() {
    let span = Span {
        trace_id: vec![1; 16],
        span_id: vec![2; 8],
        name: "work".to_string(),
        start_time_unix_nano: 100,
        attributes: vec![pb_kv("k", "v")],
        ..Default::default()
    };
    let payload = ResourceSpans {
        resource: Some(opentelemetry_proto::tonic::resource::v1::Resource { attributes: vec![pb_kv("service", "api")], ..Default::default() }),
        scope_spans: vec![
            ScopeSpans { scope: pb_scope(), spans: vec![span.clone()], ..Default::default() },
            ScopeSpans { scope: None, spans: vec![span], schema_url: "https://s".to_string() },
        ],
        ..Default::default()
    }
    .encode_to_vec();
    let leaves = OtelTracesBlockDecoder {}.decode(&payload).unwrap();
    assert_eq!(leaves.len(), 2);
    assert!(leaves.iter().all(|(t, _)| t == "otlp.Span"));
    let record = &leaves[0].1;
    for key in ["__attributes", "__resource", "__scope", "__type", "name", "traceId", "spanId", "startTimeUnixNano"] {
        assert!(record.iter().any(|(k, _)| k == key), "missing {key}");
    }
    assert!(!record.iter().any(|(k, _)| k == "__metric"));
    assert!(matches!(entry(record, "name"), JsonValue::Str(n) if n == "work"));
    assert!(matches!(entry(record, "traceId"), JsonValue::Str(t) if t == "01010101010101010101010101010101"));
    assert!(matches!(entry(record, "startTimeUnixNano"), JsonValue::Str(t) if t == "100"));
    match entry(&leaves[1].1, "__scope") {
        JsonValue::Object(o) => {
            assert_eq!(o.len(), 1);
            assert!(matches!(entry(o, "otel.scope.schema_url"), JsonValue::Str(u) if u == "https://s"));
        }
        _ => panic!("expected an object"),
    }
    match entry(&leaves[1].1, "__resource") {
        JsonValue::Object(o) => assert!(matches!(entry(o, "service"), JsonValue::Str(s) if s == "api")),
        _ => panic!("expected an object"),
    }
    assert_eq!(OtelTracesBlockDecoder {}.decode(&TRUNCATED).err(), Some(LakehouseError::CorruptPayload));

    let record = LogRecord { severity_number: 9, severity_text: "INFO".to_string(), ..Default::default() };
    let logs = ResourceLogs {
        scope_logs: vec![ScopeLogs { scope: pb_scope(), log_records: vec![LogRecord::default(), record], ..Default::default() }],
        ..Default::default()
    }
    .encode_to_vec();
    let leaves = OtelLogsBlockDecoder {}.decode(&logs).unwrap();
    assert_eq!(leaves.len(), 2);
    assert_eq!(leaves[1].0, "otlp.LogRecord");
    assert!(matches!(entry(&leaves[1].1, "severityText"), JsonValue::Str(t) if t == "INFO"));
    assert_eq!(OtelLogsBlockDecoder {}.decode(&TRUNCATED).err(), Some(LakehouseError::CorruptPayload));

    let point = NumberDataPoint { time_unix_nano: 40, value: Some(number_data_point::Value::AsDouble(0.5)), ..Default::default() };
    let metrics = ResourceMetrics {
        scope_metrics: vec![ScopeMetrics {
            metrics: vec![
                Metric { name: "none".to_string(), ..Default::default() },
                Metric {
                    name: "temp".to_string(),
                    unit: "C".to_string(),
                    data: Some(metric::Data::Gauge(Gauge { data_points: vec![point] })),
                    ..Default::default()
                },
            ],
            ..Default::default()
        }],
        ..Default::default()
    }
    .encode_to_vec();
    let leaves = OtelMetricsBlockDecoder {}.decode(&metrics).unwrap();
    assert_eq!(leaves.len(), 1);
    assert_eq!(leaves[0].0, "otlp.NumberDataPoint");
    let record = &leaves[0].1;
    assert!(matches!(entry(record, "timeUnixNano"), JsonValue::Str(t) if t == "40"));
    assert!(matches!(entry(record, "asDouble"), JsonValue::Double(b) if f64::from_bits(*b) == 0.5));
    match entry(record, "__metric") {
        JsonValue::Object(o) => {
            assert!(matches!(entry(o, "name"), JsonValue::Str(n) if n == "temp"));
            assert!(matches!(entry(o, "otel.metric.kind"), JsonValue::Str(k) if k == "gauge"));
        }
        _ => panic!("expected an object"),
    }
    assert_eq!(OtelMetricsBlockDecoder {}.decode(&TRUNCATED).err(), Some(LakehouseError::CorruptPayload));
    assert_eq!(OtelMetricsBlockDecoder {}.decode(&ResourceMetrics::default().encode_to_vec()).unwrap().len(), 0);
}
