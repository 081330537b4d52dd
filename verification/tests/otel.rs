use micromegas_lakehouse::otel_decoders::{leaf_envelope, leaf_type_name, metric_envelope, DecodedMetricKind};
use micromegas_lakehouse::otel_json::{
    any_value_to_json, attrs_object, last_wins, values_object, AttrValue, JsonValue,
};
use micromegas_lakehouse::otel_logs::{any_value_to_message, LogMessage, OtelLogRecord, OtelLogsBlockProcessor, OtelScopeLogs};
use micromegas_lakehouse::otel_metrics::{
    NumberValue, OtelMetric, OtelMetricData, OtelMetricsBlockProcessor, OtelNumberDataPoint, OtelScopeMetrics,
};
use micromegas_lakehouse::otel_spans::{
    proto_status_code_str, scope_extras, span_kind_str, OtelScope, OtelScopeSpans, OtelSpan, OtelSpanEvent,
    OtelSpanLink, OtelSpansBlockProcessor, OtelStatus,
};

/// A compact text of a JSON value, object keys sorted (their order is not significant).
fn render(j: &JsonValue) -> String {
    match j {
        JsonValue::Null => "null".to_string(),
        JsonValue::Bool(b) => b.to_string(),
        JsonValue::Int(i) => i.to_string(),
        JsonValue::UInt(u) => u.to_string(),
        JsonValue::Double(bits) => format!("{}", f64::from_bits(*bits)),
        JsonValue::Str(s) => format!("\"{s}\""),
        JsonValue::Array(vs) => format!("[{}]", vs.iter().map(render).collect::<Vec<_>>().join(",")),
        JsonValue::Object(es) => render_object(es),
    }
}

fn render_object(es: &[(String, JsonValue)]) -> String {
    let mut parts: Vec<String> = es.iter().map(|(k, v)| format!("\"{k}\":{}", render(v))).collect();
    parts.sort();
    format!("{{{}}}", parts.join(","))
}

fn kv(k: &str, v: AttrValue) -> (String, Option<AttrValue>) {
    (k.to_string(), Some(v))
}

fn s(v: &str) -> AttrValue {
    AttrValue::Str(v.to_string())
}

#[test]
fn hex_and_base64_encodings() {
    let b64 = |b: &[u8]| render(&any_value_to_json(&AttrValue::Bytes(b.to_vec())));
    assert_eq!(b64(b"hello"), "\"aGVsbG8=\"");
    assert_eq!(b64(&[0xff, 0xfe]), "\"//4=\"");
    assert_eq!(b64(&[]), "\"\"");
    let p = OtelSpansBlockProcessor {};
    let mut s = span(1, 2, 16, 8);
    s.links = vec![OtelSpanLink { trace_id: vec![0x00, 0xab, 0x10, 0xff], span_id: vec![], attributes: vec![] }];
    let rows = p.span_rows(&vec![OtelScopeSpans { scope: None, schema_url: String::new(), spans: vec![s] }]).unwrap();
    assert_eq!(render(&rows.rows[0].links), "[{\"attributes\":{},\"span_id\":\"\",\"trace_id\":\"00ab10ff\"}]");
}

#[test]
fn any_values_as_json() {
    assert_eq!(render(&any_value_to_json(&AttrValue::Empty)), "null");
    assert_eq!(render(&any_value_to_json(&s("x"))), "\"x\"");
    assert_eq!(render(&any_value_to_json(&AttrValue::Int(-4))), "-4");
    assert_eq!(render(&any_value_to_json(&AttrValue::Bool(true))), "true");
    assert_eq!(render(&any_value_to_json(&AttrValue::Double(1.5f64.to_bits()))), "1.5");
    assert_eq!(render(&any_value_to_json(&AttrValue::Bytes(b"hi".to_vec()))), "\"aGk=\"");
    let arr = AttrValue::Array(vec![AttrValue::Int(1), s("a")]);
    assert_eq!(render(&any_value_to_json(&arr)), "[1,\"a\"]");
    let kvs = AttrValue::KvList(vec![kv("a", AttrValue::Int(1)), ("b".to_string(), None), kv("a", AttrValue::Int(2))]);
    assert_eq!(render(&any_value_to_json(&kvs)), "{\"a\":2,\"b\":null}");
}

#[test]
fn later_entries_win() {
    let out = last_wins(vec![
        ("a".to_string(), JsonValue::Int(1)),
        ("b".to_string(), JsonValue::Int(2)),
        ("a".to_string(), JsonValue::Int(3)),
    ]);
    assert_eq!(out.len(), 2);
    assert_eq!(render_object(&out), "{\"a\":3,\"b\":2}");
    assert!(last_wins(vec![]).is_empty());
}

#[test]
fn attribute_objects() {
    let attrs = vec![kv("k", s("v")), ("none".to_string(), None), kv("x", AttrValue::Int(1))];
    let extras = vec![("x".to_string(), JsonValue::Str("extra".to_string()))];
    assert_eq!(render_object(&attrs_object(&attrs, extras)), "{\"k\":\"v\",\"none\":null,\"x\":\"extra\"}");
    assert_eq!(render_object(&values_object(&attrs)), "{\"k\":\"v\",\"x\":1}");
}

fn scope() -> Option<OtelScope> {
    Some(OtelScope {
        name: "my.lib".to_string(),
        version: "1.2".to_string(),
        attributes: vec![kv("team", s("core")), ("skip".to_string(), None)],
    })
}

#[test]
fn scope_properties() {
    let ex = scope_extras(&scope(), &"https://schema".to_string());
    assert_eq!(
        render_object(&ex),
        "{\"otel.scope.attr.team\":\"core\",\"otel.scope.name\":\"my.lib\",\"otel.scope.schema_url\":\"https://schema\",\"otel.scope.version\":\"1.2\"}"
    );
    assert!(scope_extras(&None, &String::new()).is_empty());
    let unnamed = Some(OtelScope { name: String::new(), version: String::new(), attributes: vec![] });
    assert!(scope_extras(&unnamed, &String::new()).is_empty());
}

#[test]
fn kind_and_status_names() {
    assert_eq!(span_kind_str(1), "INTERNAL");
    assert_eq!(span_kind_str(2), "SERVER");
    assert_eq!(span_kind_str(3), "CLIENT");
    assert_eq!(span_kind_str(4), "PRODUCER");
    assert_eq!(span_kind_str(5), "CONSUMER");
    assert_eq!(span_kind_str(0), "UNSPECIFIED");
    assert_eq!(span_kind_str(9), "UNSPECIFIED");
    assert_eq!(proto_status_code_str(1), "OK");
    assert_eq!(proto_status_code_str(2), "ERROR");
    assert_eq!(proto_status_code_str(0), "UNSET");
    assert_eq!(leaf_type_name(DecodedMetricKind::Gauge), "otlp.NumberDataPoint");
    assert_eq!(leaf_type_name(DecodedMetricKind::Sum { aggregation_temporality: 2, is_monotonic: true }), "otlp.NumberDataPoint");
    assert_eq!(leaf_type_name(DecodedMetricKind::Histogram { aggregation_temporality: 1 }), "otlp.HistogramDataPoint");
    assert_eq!(
        leaf_type_name(DecodedMetricKind::ExponentialHistogram { aggregation_temporality: 1 }),
        "otlp.ExponentialHistogramDataPoint"
    );
    assert_eq!(leaf_type_name(DecodedMetricKind::Summary), "otlp.SummaryDataPoint");
}

fn span(start: u64, end: u64, trace_len: usize, span_len: usize) -> OtelSpan {
    OtelSpan {
        trace_id: vec![1; trace_len],
        span_id: vec![2; span_len],
        parent_span_id: vec![3; 8],
        name: "work".to_string(),
        kind: 2,
        start_time_unix_nano: start,
        end_time_unix_nano: end,
        status: Some(OtelStatus { code: 2, message: "boom".to_string() }),
        attributes: vec![kv("http.method", s("GET"))],
        events: vec![OtelSpanEvent { time_unix_nano: start + 1, name: "ev".to_string(), attributes: vec![kv("a", AttrValue::Int(1))] }],
        links: vec![OtelSpanLink { trace_id: vec![0xab; 2], span_id: vec![0x01], attributes: vec![] }],
    }
}

#[test]
fn span_rows_keep_complete_spans() {
    let p = OtelSpansBlockProcessor {};
    let scopes = vec![OtelScopeSpans {
        scope: scope(),
        schema_url: String::new(),
        spans: vec![span(100, 250, 16, 8), span(0, 10, 16, 8), span(50, 300, 16, 8), span(60, 70, 15, 8)],
    }];
    let rows = p.span_rows(&scopes).unwrap();
    assert_eq!(rows.rows.len(), 2);
    assert_eq!(rows.min_time, 50);
    assert_eq!(rows.max_time, 300);
    let r = &rows.rows[0];
    assert_eq!(r.start_time, 100);
    assert_eq!(r.end_time, 250);
    assert_eq!(r.duration, 150);
    assert_eq!(r.kind, "SERVER");
    assert_eq!(r.status, "ERROR");
    assert_eq!(r.status_message, Some("boom".to_string()));
    assert_eq!(r.parent_span_id, Some(vec![3; 8]));
    assert_eq!(r.name, "work");
    assert_eq!(
        render_object(&r.properties),
        "{\"http.method\":\"GET\",\"otel.scope.attr.team\":\"core\",\"otel.scope.name\":\"my.lib\",\"otel.scope.version\":\"1.2\"}"
    );
    assert_eq!(render(&r.events), "[{\"attributes\":{\"a\":1},\"name\":\"ev\",\"time\":101}]");
    assert_eq!(render(&r.links), "[{\"attributes\":{},\"span_id\":\"01\",\"trace_id\":\"abab\"}]");
    assert!(p.span_rows(&vec![]).is_none());
    let none_kept = vec![OtelScopeSpans { scope: None, schema_url: String::new(), spans: vec![span(0, 5, 16, 8)] }];
    assert!(p.span_rows(&none_kept).is_none());
}

fn record(time: u64, observed: u64, sev: i32, body: Option<AttrValue>) -> OtelLogRecord {
    OtelLogRecord {
        time_unix_nano: time,
        observed_time_unix_nano: observed,
        severity_number: sev,
        severity_text: "WARN".to_string(),
        body,
        attributes: vec![kv("k", AttrValue::Int(3))],
        trace_id: vec![0x0f; 16],
        span_id: vec![0x10; 8],
        event_name: String::new(),
    }
}

#[test]
fn log_rows_from_records() {
    let p = OtelLogsBlockProcessor {};
    let scopes = vec![OtelScopeLogs {
        scope: scope(),
        schema_url: String::new(),
        log_records: vec![
            record(500, 0, 13, Some(s("hello"))),
            record(0, 0, 9, Some(s("dropped"))),
            record(0, 400, 1, None),
        ],
    }];
    let rows = p.log_rows(&scopes).unwrap();
    assert_eq!(rows.rows.len(), 2);
    assert_eq!((rows.min_time, rows.max_time), (400, 500));
    let r = &rows.rows[0];
    assert_eq!(r.time, 500);
    assert_eq!(r.target, "my.lib");
    assert_eq!(r.level, 3);
    assert!(matches!(&r.msg, LogMessage::Text(t) if t == "hello"));
    let props = render_object(&r.properties);
    assert!(props.contains("\"otel.trace_id\":\"0f0f0f0f0f0f0f0f0f0f0f0f0f0f0f0f\""));
    assert!(props.contains("\"otel.span_id\":\"1010101010101010\""));
    assert!(props.contains("\"otel.severity_text\":\"WARN\""));
    assert!(props.contains("\"k\":3"));
    assert!(!props.contains("otel.event_name"));
    let r = &rows.rows[1];
    assert_eq!(r.time, 400);
    assert_eq!(r.level, 6);
    assert!(matches!(&r.msg, LogMessage::Text(t) if t.is_empty()));
    assert!(p.log_rows(&vec![]).is_none());
}

#[test]
fn log_message_text_forms() {
    assert!(matches!(any_value_to_message(&AttrValue::Int(-42)), LogMessage::Text(t) if t == "-42"));
    assert!(matches!(any_value_to_message(&AttrValue::Int(i64::MIN)), LogMessage::Text(t) if t == i64::MIN.to_string()));
    assert!(matches!(any_value_to_message(&AttrValue::Bool(false)), LogMessage::Text(t) if t == "false"));
    assert!(matches!(any_value_to_message(&AttrValue::Bytes(b"hi".to_vec())), LogMessage::Text(t) if t == "aGk="));
    assert!(matches!(any_value_to_message(&AttrValue::Empty), LogMessage::Text(t) if t.is_empty()));
    assert!(matches!(any_value_to_message(&AttrValue::Double(2.5f64.to_bits())), LogMessage::Double(b) if f64::from_bits(b) == 2.5));
    match any_value_to_message(&AttrValue::Array(vec![AttrValue::Int(1)])) {
        LogMessage::Json(j) => assert_eq!(render(&j), "[1]"),
        _ => panic!("expected JSON"),
    }
}

fn point(time: u64, value: Option<NumberValue>) -> OtelNumberDataPoint {
    OtelNumberDataPoint { time_unix_nano: time, value, attributes: vec![kv("host", s("h1"))] }
}

#[test]
fn measure_rows_from_metrics() {
    let p = OtelMetricsBlockProcessor {};
    let scopes = vec![OtelScopeMetrics {
        scope: scope(),
        schema_url: String::new(),
        metrics: vec![
            OtelMetric {
                name: "requests".to_string(),
                unit: "1".to_string(),
                description: String::new(),
                metadata: vec![],
                data: Some(OtelMetricData::Sum {
                    aggregation_temporality: 2,
                    is_monotonic: true,
                    data_points: vec![point(20, Some(NumberValue::Int(7))), point(0, Some(NumberValue::Int(1))), point(30, None)],
                }),
            },
            OtelMetric {
                name: "temp".to_string(),
                unit: "C".to_string(),
                description: String::new(),
                metadata: vec![],
                data: Some(OtelMetricData::Gauge { data_points: vec![point(10, Some(NumberValue::Double(0.5f64.to_bits())))] }),
            },
            OtelMetric {
                name: "hist".to_string(),
                unit: String::new(),
                description: String::new(),
                metadata: vec![],
                data: Some(OtelMetricData::Histogram { aggregation_temporality: 1, point_attributes: vec![vec![]] }),
            },
        ],
    }];
    let rows = p.measure_rows(&scopes).unwrap();
    assert_eq!(rows.rows.len(), 2);
    assert_eq!((rows.min_time, rows.max_time), (10, 20));
    let r = &rows.rows[0];
    assert_eq!((r.time, r.name.as_str(), r.unit.as_str(), r.target.as_str()), (20, "requests", "1", "my.lib"));
    assert!(r.value == NumberValue::Int(7));
    assert_eq!(
        render_object(&r.properties),
        "{\"host\":\"h1\",\"otel.metric.aggregation_temporality\":2,\"otel.metric.is_monotonic\":true,\"otel.metric.kind\":\"sum\"}"
    );
    let r = &rows.rows[1];
    assert_eq!(r.name, "temp");
    assert!(r.value == NumberValue::Double(0.5f64.to_bits()));
    assert_eq!(render_object(&r.properties), "{\"host\":\"h1\",\"otel.metric.kind\":\"gauge\"}");
    assert!(p.measure_rows(&vec![]).is_none());
}

#[test]
fn metric_and_leaf_envelopes() {
    let env = metric_envelope(
        &"latency".to_string(),
        &"ms".to_string(),
        &"request latency".to_string(),
        &vec![kv("src", s("sdk"))],
        DecodedMetricKind::Histogram { aggregation_temporality: 1 },
    );
    assert_eq!(
        render_object(&env),
        "{\"description\":\"request latency\",\"name\":\"latency\",\"otel.metric.aggregation_temporality\":1,\"otel.metric.kind\":\"histogram\",\"otel.metric.metadata\":{\"src\":\"sdk\"},\"unit\":\"ms\"}"
    );
    let plain = metric_envelope(&"g".to_string(), &String::new(), &String::new(), &vec![], DecodedMetricKind::Gauge);
    assert_eq!(render_object(&plain), "{\"description\":\"\",\"name\":\"g\",\"otel.metric.kind\":\"gauge\",\"unit\":\"\"}");

    let base = JsonValue::Object(vec![("count".to_string(), JsonValue::Int(3)), ("__type".to_string(), JsonValue::Null)]);
    let leaf = leaf_envelope(
        base,
        "otlp.HistogramDataPoint",
        &vec![kv("k", s("v"))],
        JsonValue::Null,
        JsonValue::Str("scope".to_string()),
        env,
    );
    let text = render_object(&leaf);
    assert!(text.starts_with("{\"__attributes\":{\"k\":\"v\"},\"__metric\":{"));
    assert!(text.contains("\"__type\":\"otlp.HistogramDataPoint\""));
    assert!(text.contains("\"__resource\":null"));
    assert!(text.contains("\"__scope\":\"scope\""));
    assert!(text.contains("\"count\":3"));
    let scalar = leaf_envelope(JsonValue::Int(5), "t", &vec![], JsonValue::Null, JsonValue::Null, vec![]);
    assert_eq!(
        render_object(&scalar),
        "{\"__attributes\":{},\"__resource\":null,\"__scope\":null,\"__type\":\"t\",\"__value\":5}"
    );
}
