use vstd::prelude::*;
use crate::otel_json::{AttrValue, JsonValue, attrs_object, attrs_object_is, entries_at, entry_keys, last_positions, last_wins};
use crate::otel_logs::{OtelResourceLogs, OtelScopeLogs};
use crate::otel_metrics::{OtelMetric, OtelMetricData, OtelNumberDataPoint, OtelResourceMetrics, OtelScopeMetrics};
use crate::otel_spans::{ExtraValue, OtelResourceSpans, OtelScope, OtelScopeSpans, extra_is, extras_are, scope_extras, spec_scope_extras};

verus! {

/// The kind of a metric's data, with the fields its rows carry besides their data points.
#[derive(Clone, Copy, PartialEq, Eq, Structural)]
pub enum DecodedMetricKind {
    Sum { aggregation_temporality: i32, is_monotonic: bool },
    Gauge,
    Histogram { aggregation_temporality: i32 },
    ExponentialHistogram { aggregation_temporality: i32 },
    Summary,
}

/// The message type of the data points of a metric kind.
pub open spec fn spec_leaf_type_name(kind: DecodedMetricKind) -> Seq<char> {
    match kind {
        DecodedMetricKind::Sum { .. } => "otlp.NumberDataPoint"@,
        DecodedMetricKind::Gauge => "otlp.NumberDataPoint"@,
        DecodedMetricKind::Histogram { .. } => "otlp.HistogramDataPoint"@,
        DecodedMetricKind::ExponentialHistogram { .. } => "otlp.ExponentialHistogramDataPoint"@,
        DecodedMetricKind::Summary => "otlp.SummaryDataPoint"@,
    }
}

pub fn leaf_type_name(kind: DecodedMetricKind) -> (r: &'static str)
    ensures
        r@ == spec_leaf_type_name(kind),
{
    proof {
        reveal_strlit("otlp.NumberDataPoint");
        reveal_strlit("otlp.HistogramDataPoint");
        reveal_strlit("otlp.ExponentialHistogramDataPoint");
        reveal_strlit("otlp.SummaryDataPoint");
    }
    match kind {
        DecodedMetricKind::Sum { .. } => "otlp.NumberDataPoint",
        DecodedMetricKind::Gauge => "otlp.NumberDataPoint",
        DecodedMetricKind::Histogram { .. } => "otlp.HistogramDataPoint",
        DecodedMetricKind::ExponentialHistogram { .. } => "otlp.ExponentialHistogramDataPoint",
        DecodedMetricKind::Summary => "otlp.SummaryDataPoint",
    }
}

/// The kind-specific entries of a metric's `__metric` object.
pub open spec fn kind_extras(kind: DecodedMetricKind) -> Seq<(Seq<char>, ExtraValue)> {
    match kind {
        DecodedMetricKind::Sum { aggregation_temporality, is_monotonic } => seq![
            ("otel.metric.kind"@, ExtraValue::Text("sum"@)),
            ("otel.metric.aggregation_temporality"@, ExtraValue::Value(AttrValue::Int(aggregation_temporality as i64))),
            ("otel.metric.is_monotonic"@, ExtraValue::Value(AttrValue::Bool(is_monotonic))),
        ],
        DecodedMetricKind::Gauge => seq![("otel.metric.kind"@, ExtraValue::Text("gauge"@))],
        DecodedMetricKind::Histogram { aggregation_temporality } => seq![
            ("otel.metric.kind"@, ExtraValue::Text("histogram"@)),
            ("otel.metric.aggregation_temporality"@, ExtraValue::Value(AttrValue::Int(aggregation_temporality as i64))),
        ],
        DecodedMetricKind::ExponentialHistogram { aggregation_temporality } => seq![
            ("otel.metric.kind"@, ExtraValue::Text("exponential_histogram"@)),
            ("otel.metric.aggregation_temporality"@, ExtraValue::Value(AttrValue::Int(aggregation_temporality as i64))),
        ],
        DecodedMetricKind::Summary => seq![("otel.metric.kind"@, ExtraValue::Text("summary"@))],
    }
}

/// The entries of a metric's `__metric` object: its name, unit and description, its metadata
/// when not empty, then the kind-specific entries.
pub open spec fn spec_metric_envelope(name: Seq<char>, unit: Seq<char>, description: Seq<char>, metadata: Seq<(String, Option<AttrValue>)>, kind: DecodedMetricKind) -> Seq<(Seq<char>, ExtraValue)> {
    seq![("name"@, ExtraValue::Text(name)), ("unit"@, ExtraValue::Text(unit)), ("description"@, ExtraValue::Text(description))]
        + (if metadata.len() > 0 { seq![("otel.metric.metadata"@, ExtraValue::Attrs(metadata))] } else { Seq::empty() })
        + kind_extras(kind)
}

fn push_entry(out: &mut Vec<(String, JsonValue)>, e: (String, JsonValue), Ghost(d): Ghost<Seq<(Seq<char>, ExtraValue)>>, Ghost(x): Ghost<(Seq<char>, ExtraValue)>)
    requires
        extras_are(old(out)@, d),
        extra_is(e, x),
    ensures
        extras_are(final(out)@, d.push(x)),
{
    let ghost before = out@;
    out.push(e);
    assert forall|k: int| 0 <= k < out@.len() implies extra_is(#[trigger] out@[k], d.push(x)[k]) by {
        if k < before.len() {
            assert(out@[k] == before[k]);
        }
    }
}

fn text_entry(key: &str, text: &str) -> (r: (String, JsonValue))
    ensures
        extra_is(r, (key@, ExtraValue::Text(text@))),
{
    (String::from_str(key), JsonValue::Str(String::from_str(text)))
}

/// The entries of a metric's `__metric` object (see `spec_metric_envelope`).
pub fn metric_envelope(name: &String, unit: &String, description: &String, metadata: &Vec<(String, Option<AttrValue>)>, kind: DecodedMetricKind) -> (r: Vec<(String, JsonValue)>)
    ensures
        extras_are(r@, spec_metric_envelope(name@, unit@, description@, metadata@, kind)),
{
    proof {
        reveal_strlit("name");
        reveal_strlit("unit");
        reveal_strlit("description");
        reveal_strlit("otel.metric.metadata");
        reveal_strlit("otel.metric.kind");
        reveal_strlit("otel.metric.aggregation_temporality");
        reveal_strlit("otel.metric.is_monotonic");
        reveal_strlit("sum");
        reveal_strlit("gauge");
        reveal_strlit("histogram");
        reveal_strlit("exponential_histogram");
        reveal_strlit("summary");
    }
    let mut out: Vec<(String, JsonValue)> = Vec::new();
    let ghost mut d: Seq<(Seq<char>, ExtraValue)> = Seq::empty();
    push_entry(&mut out, text_entry("name", name.as_str()), Ghost(d), Ghost(("name"@, ExtraValue::Text(name@))));
    proof { d = d.push(("name"@, ExtraValue::Text(name@))); }
    push_entry(&mut out, text_entry("unit", unit.as_str()), Ghost(d), Ghost(("unit"@, ExtraValue::Text(unit@))));
    proof { d = d.push(("unit"@, ExtraValue::Text(unit@))); }
    push_entry(&mut out, text_entry("description", description.as_str()), Ghost(d), Ghost(("description"@, ExtraValue::Text(description@))));
    proof { d = d.push(("description"@, ExtraValue::Text(description@))); }
    if metadata.len() > 0 {
        let no_extras: Vec<(String, JsonValue)> = Vec::new();
        assert(no_extras@ =~= Seq::<(String, JsonValue)>::empty());
        let meta = attrs_object(metadata, no_extras);
        let e = (String::from_str("otel.metric.metadata"), JsonValue::Object(meta));
        push_entry(&mut out, e, Ghost(d), Ghost(("otel.metric.metadata"@, ExtraValue::Attrs(metadata@))));
        proof { d = d.push(("otel.metric.metadata"@, ExtraValue::Attrs(metadata@))); }
    }
    let ghost head = d;
    match kind {
        DecodedMetricKind::Sum { aggregation_temporality, is_monotonic } => {
            push_entry(&mut out, text_entry("otel.metric.kind", "sum"), Ghost(d), Ghost(kind_extras(kind)[0]));
            proof { d = d.push(kind_extras(kind)[0]); }
            push_entry(&mut out, (String::from_str("otel.metric.aggregation_temporality"), JsonValue::Int(aggregation_temporality as i64)), Ghost(d), Ghost(kind_extras(kind)[1]));
            proof { d = d.push(kind_extras(kind)[1]); }
            push_entry(&mut out, (String::from_str("otel.metric.is_monotonic"), JsonValue::Bool(is_monotonic)), Ghost(d), Ghost(kind_extras(kind)[2]));
            proof { d = d.push(kind_extras(kind)[2]); }
        },
        DecodedMetricKind::Gauge => {
            push_entry(&mut out, text_entry("otel.metric.kind", "gauge"), Ghost(d), Ghost(kind_extras(kind)[0]));
            proof { d = d.push(kind_extras(kind)[0]); }
        },
        DecodedMetricKind::Histogram { aggregation_temporality } => {
            push_entry(&mut out, text_entry("otel.metric.kind", "histogram"), Ghost(d), Ghost(kind_extras(kind)[0]));
            proof { d = d.push(kind_extras(kind)[0]); }
            push_entry(&mut out, (String::from_str("otel.metric.aggregation_temporality"), JsonValue::Int(aggregation_temporality as i64)), Ghost(d), Ghost(kind_extras(kind)[1]));
            proof { d = d.push(kind_extras(kind)[1]); }
        },
        DecodedMetricKind::ExponentialHistogram { aggregation_temporality } => {
            push_entry(&mut out, text_entry("otel.metric.kind", "exponential_histogram"), Ghost(d), Ghost(kind_extras(kind)[0]));
            proof { d = d.push(kind_extras(kind)[0]); }
            push_entry(&mut out, (String::from_str("otel.metric.aggregation_temporality"), JsonValue::Int(aggregation_temporality as i64)), Ghost(d), Ghost(kind_extras(kind)[1]));
            proof { d = d.push(kind_extras(kind)[1]); }
        },
        DecodedMetricKind::Summary => {
            push_entry(&mut out, text_entry("otel.metric.kind", "summary"), Ghost(d), Ghost(kind_extras(kind)[0]));
            proof { d = d.push(kind_extras(kind)[0]); }
        },
    }
    assert(d =~= spec_metric_envelope(name@, unit@, description@, metadata@, kind));
    out
}

/// The entries a leaf's dump starts from: its fields when it is an object, otherwise the dump
/// itself under `__value`.
pub open spec fn base_keys(base: JsonValue) -> Seq<Seq<char>> {
    match base {
        JsonValue::Object(m) => entry_keys(m@),
        _ => seq!["__value"@],
    }
}

/// The keys inserted, in order, into a leaf's envelope.
pub open spec fn envelope_keys(base: JsonValue, has_metric: bool) -> Seq<Seq<char>> {
    base_keys(base) + seq!["__type"@, "__attributes"@, "__resource"@, "__scope"@]
        + (if has_metric { seq!["__metric"@] } else { Seq::empty() })
}

/// Whether `e` is the entry inserted at position `p` into a leaf's envelope: the dump's entries,
/// then `__type` (the leaf's message type), `__attributes` (the object of its attributes),
/// `__resource`, `__scope`, and `__metric` (the object of the metric's entries) when there are any.
pub open spec fn envelope_entry_is(e: (String, JsonValue), p: int, base: JsonValue, leaf_type: Seq<char>,
    leaf_attrs: Seq<(String, Option<AttrValue>)>, resource: JsonValue, scope: JsonValue, metric: Seq<(String, JsonValue)>) -> bool {
    let nb = base_keys(base).len();
    if p < nb {
        match base {
            JsonValue::Object(m) => e == m@[p],
            _ => e.0@ == "__value"@ && e.1 == base,
        }
    } else if p == nb {
        e.0@ == "__type"@ && (e.1 matches JsonValue::Str(s) && s@ == leaf_type)
    } else if p == nb + 1 {
        e.0@ == "__attributes"@ && (e.1 matches JsonValue::Object(o) && attrs_object_is(o@, leaf_attrs, Seq::empty()))
    } else if p == nb + 2 {
        e.0@ == "__resource"@ && e.1 == resource
    } else if p == nb + 3 {
        e.0@ == "__scope"@ && e.1 == scope
    } else {
        e.0@ == "__metric"@ && (e.1 matches JsonValue::Object(o) && entries_at(o@, metric, last_positions(entry_keys(metric), 0)))
    }
}

/// Whether `out` is a leaf's envelope: for each key, the last entry inserted with it.
pub open spec fn envelope_is(out: Seq<(String, JsonValue)>, base: JsonValue, leaf_type: Seq<char>,
    leaf_attrs: Seq<(String, Option<AttrValue>)>, resource: JsonValue, scope: JsonValue, metric: Seq<(String, JsonValue)>) -> bool {
    &&& out.len() == last_positions(envelope_keys(base, metric.len() > 0), 0).len()
    &&& forall|k: int| 0 <= k && k < out.len() ==> envelope_entry_is(#[trigger] out[k],
        last_positions(envelope_keys(base, metric.len() > 0), 0)[k], base, leaf_type, leaf_attrs, resource, scope, metric)
}

/// The JSON object of a leaf record: its dump (`base`) with the `__type`, `__attributes`,
/// `__resource`, `__scope` and, when the metric has entries, `__metric` entries layered on top.
pub fn leaf_envelope(base: JsonValue, leaf_type: &str, leaf_attrs: &Vec<(String, Option<AttrValue>)>,
    resource: JsonValue, scope: JsonValue, metric: Vec<(String, JsonValue)>) -> (r: Vec<(String, JsonValue)>)
    ensures
        envelope_is(r@, base, leaf_type@, leaf_attrs@, resource, scope, metric@),
{
    proof {
        reveal_strlit("__value");
        reveal_strlit("__type");
        reveal_strlit("__attributes");
        reveal_strlit("__resource");
        reveal_strlit("__scope");
        reveal_strlit("__metric");
    }
    let ghost b = base;
    let ghost res = resource;
    let ghost sc = scope;
    let ghost mv = metric@;
    let mut entries: Vec<(String, JsonValue)> = match base {
        JsonValue::Object(m) => m,
        other => {
            let mut v: Vec<(String, JsonValue)> = Vec::new();
            v.push((String::from_str("__value"), other));
            v
        },
    };
    let ghost nb = entries@.len();
    let ghost base_entries = entries@;
    assert(entry_keys(base_entries) =~= base_keys(b));
    entries.push((String::from_str("__type"), JsonValue::Str(String::from_str(leaf_type))));
    let no_extras: Vec<(String, JsonValue)> = Vec::new();
    assert(no_extras@ =~= Seq::<(String, JsonValue)>::empty());
    entries.push((String::from_str("__attributes"), JsonValue::Object(attrs_object(leaf_attrs, no_extras))));
    entries.push((String::from_str("__resource"), resource));
    entries.push((String::from_str("__scope"), scope));
    let has_metric = metric.len() > 0;
    if has_metric {
        let metric_object = last_wins(metric);
        entries.push((String::from_str("__metric"), JsonValue::Object(metric_object)));
    }
    let ghost all = entries@;
    proof {
        assert(entry_keys(all) =~= envelope_keys(b, mv.len() > 0));
        assert forall|p: int| 0 <= p < all.len() implies envelope_entry_is(#[trigger] all[p], p, b, leaf_type@, leaf_attrs@, res, sc, mv) by {
            if p < nb {
                assert(all[p] == base_entries[p]);
            }
        }
    }
    let out = last_wins(entries);
    proof {
        let keys = envelope_keys(b, mv.len() > 0);
        crate::otel_json::lemma_last_positions_bounds(keys, 0);
        assert forall|k: int| 0 <= k && k < out@.len() implies envelope_entry_is(#[trigger] out@[k],
            last_positions(envelope_keys(b, mv.len() > 0), 0)[k], b, leaf_type@, leaf_attrs@, res, sc, mv) by {
            let p = last_positions(keys, 0)[k];
            assert(out@[k] == all[p]);
            assert(envelope_entry_is(all[p], p, b, leaf_type@, leaf_attrs@, res, sc, mv));
        }
    }
    out
}

// ---------------------------------------------------------------------------------------------
// The leaves of a metrics payload: one record per data point, in payload order.

/// The kind of a metric's data.
pub open spec fn spec_metric_kind(d: OtelMetricData) -> DecodedMetricKind {
    match d {
        OtelMetricData::Sum { aggregation_temporality, is_monotonic, .. } => DecodedMetricKind::Sum { aggregation_temporality, is_monotonic },
        OtelMetricData::Gauge { .. } => DecodedMetricKind::Gauge,
        OtelMetricData::Histogram { aggregation_temporality, .. } => DecodedMetricKind::Histogram { aggregation_temporality },
        OtelMetricData::ExponentialHistogram { aggregation_temporality, .. } => DecodedMetricKind::ExponentialHistogram { aggregation_temporality },
        OtelMetricData::Summary { .. } => DecodedMetricKind::Summary,
    }
}

/// The attributes of each data point of a metric's data, in order.
pub open spec fn point_attrs_of(d: OtelMetricData) -> Seq<Seq<(String, Option<AttrValue>)>> {
    match d {
        OtelMetricData::Sum { data_points, .. } => data_points@.map_values(|p: OtelNumberDataPoint| p.attributes@),
        OtelMetricData::Gauge { data_points } => data_points@.map_values(|p: OtelNumberDataPoint| p.attributes@),
        OtelMetricData::Histogram { point_attributes, .. } => point_attributes@.map_values(|a: Vec<(String, Option<AttrValue>)>| a@),
        OtelMetricData::ExponentialHistogram { point_attributes, .. } => point_attributes@.map_values(|a: Vec<(String, Option<AttrValue>)>| a@),
        OtelMetricData::Summary { point_attributes } => point_attributes@.map_values(|a: Vec<(String, Option<AttrValue>)>| a@),
    }
}

/// The positions (scope, metric, point) of the data points of metric `mi` of scope `si`; a
/// metric without data has none.
pub open spec fn leaves_of_metric(m: OtelMetric, si: int, mi: int) -> Seq<(int, int, int)> {
    match m.data {
        Some(d) => Seq::new(point_attrs_of(d).len(), |p: int| (si, mi, p)),
        None => Seq::empty(),
    }
}

/// The positions of the data points of the metrics of scope `si`, metric by metric.
pub open spec fn leaves_of_scope(ms: Seq<OtelMetric>, si: int) -> Seq<(int, int, int)>
    decreases ms.len(),
{
    if ms.len() == 0 {
        Seq::empty()
    } else {
        leaves_of_scope(ms.drop_last(), si) + leaves_of_metric(ms.last(), si, ms.len() - 1)
    }
}

/// The positions of all data points of a payload, scope by scope, in payload order.
pub open spec fn metric_leaf_positions(scopes: Seq<OtelScopeMetrics>) -> Seq<(int, int, int)>
    decreases scopes.len(),
{
    if scopes.len() == 0 {
        Seq::empty()
    } else {
        metric_leaf_positions(scopes.drop_last()) + leaves_of_scope(scopes.last().metrics@, scopes.len() - 1)
    }
}

/// Whether `o` is the `__scope` object of a scope: its extras (see `spec_scope_extras`), a later
/// entry replacing an earlier one of the same key.
pub open spec fn scope_object_is(o: Seq<(String, JsonValue)>, scope: Option<OtelScope>, schema_url: Seq<char>) -> bool {
    exists|e: Seq<(String, JsonValue)>| extras_are(e, spec_scope_extras(scope, schema_url)) && #[trigger] entries_at(o, e, last_positions(entry_keys(e), 0))
}

/// Whether `out` is a leaf's object, with `resource`, `scope_json` and `metric` the `__resource`,
/// `__scope` and `__metric` values layered on its dump.
pub open spec fn leaf_object_is(out: Seq<(String, JsonValue)>, base: JsonValue, leaf_type: Seq<char>,
    leaf_attrs: Seq<(String, Option<AttrValue>)>, resource_attrs: Seq<(String, Option<AttrValue>)>, scope: Option<OtelScope>,
    schema_url: Seq<char>, metric_d: Seq<(Seq<char>, ExtraValue)>, resource: JsonValue, scope_json: JsonValue,
    metric: Seq<(String, JsonValue)>) -> bool {
    &&& (resource matches JsonValue::Object(o) && attrs_object_is(o@, resource_attrs, Seq::empty()))
    &&& (scope_json matches JsonValue::Object(o) && scope_object_is(o@, scope, schema_url))
    &&& extras_are(metric, metric_d)
    &&& envelope_is(out, base, leaf_type, leaf_attrs, resource, scope_json, metric)
}

/// Whether `out` is the object of a leaf: its dump `base` with `__type`, `__attributes` (of the
/// leaf's attributes), `__resource` (the object of the resource's attributes), `__scope` (the
/// object of its scope's extras) and `__metric` (the object of `metric_d`) layered on top.
pub open spec fn leaf_record_is(out: Seq<(String, JsonValue)>, base: JsonValue, leaf_type: Seq<char>,
    leaf_attrs: Seq<(String, Option<AttrValue>)>, resource_attrs: Seq<(String, Option<AttrValue>)>, scope: Option<OtelScope>,
    schema_url: Seq<char>, metric_d: Seq<(Seq<char>, ExtraValue)>) -> bool {
    exists|resource: JsonValue, scope_json: JsonValue, metric: Seq<(String, JsonValue)>|
        #[trigger] leaf_object_is(out, base, leaf_type, leaf_attrs, resource_attrs, scope, schema_url, metric_d, resource, scope_json, metric)
}

/// Whether `leaf` is the record of the data point at `pos` with dump `base`: its message type
/// and its object, whose `__metric` holds its metric's entries (see `spec_metric_envelope`).
pub open spec fn metric_leaf_for(leaf: (String, Vec<(String, JsonValue)>), res: OtelResourceMetrics, base: JsonValue, pos: (int, int, int)) -> bool {
    let sm = res.scope_metrics@[pos.0];
    let m = sm.metrics@[pos.1];
    let d = m.data->Some_0;
    let kind = spec_metric_kind(d);
    &&& m.data is Some
    &&& leaf.0@ == spec_leaf_type_name(kind)
    &&& leaf_record_is(leaf.1@, base, spec_leaf_type_name(kind), point_attrs_of(d)[pos.2], res.resource_attributes@, sm.scope,
        sm.schema_url@, spec_metric_envelope(m.name@, m.unit@, m.description@, m.metadata@, kind))
}

fn metric_kind(d: &OtelMetricData) -> (k: DecodedMetricKind)
    ensures
        k == spec_metric_kind(*d),
{
    match d {
        OtelMetricData::Sum { aggregation_temporality, is_monotonic, .. } => DecodedMetricKind::Sum { aggregation_temporality: *aggregation_temporality, is_monotonic: *is_monotonic },
        OtelMetricData::Gauge { .. } => DecodedMetricKind::Gauge,
        OtelMetricData::Histogram { aggregation_temporality, .. } => DecodedMetricKind::Histogram { aggregation_temporality: *aggregation_temporality },
        OtelMetricData::ExponentialHistogram { aggregation_temporality, .. } => DecodedMetricKind::ExponentialHistogram { aggregation_temporality: *aggregation_temporality },
        OtelMetricData::Summary { .. } => DecodedMetricKind::Summary,
    }
}

fn point_count(d: &OtelMetricData) -> (n: usize)
    ensures
        n == point_attrs_of(*d).len(),
{
    match d {
        OtelMetricData::Sum { data_points, .. } => data_points.len(),
        OtelMetricData::Gauge { data_points } => data_points.len(),
        OtelMetricData::Histogram { point_attributes, .. } => point_attributes.len(),
        OtelMetricData::ExponentialHistogram { point_attributes, .. } => point_attributes.len(),
        OtelMetricData::Summary { point_attributes } => point_attributes.len(),
    }
}

fn point_attrs_at(d: &OtelMetricData, p: usize) -> (r: &Vec<(String, Option<AttrValue>)>)
    requires
        p < point_attrs_of(*d).len(),
    ensures
        r@ == point_attrs_of(*d)[p as int],
{
    match d {
        OtelMetricData::Sum { data_points, .. } => &data_points[p].attributes,
        OtelMetricData::Gauge { data_points } => &data_points[p].attributes,
        OtelMetricData::Histogram { point_attributes, .. } => &point_attributes[p],
        OtelMetricData::ExponentialHistogram { point_attributes, .. } => &point_attributes[p],
        OtelMetricData::Summary { point_attributes } => &point_attributes[p],
    }
}

/// The positions of all data points of a payload (see `metric_leaf_positions`).
fn leaf_positions(scopes: &Vec<OtelScopeMetrics>) -> (r: Vec<(usize, usize, usize)>)
    ensures
        r@.len() == metric_leaf_positions(scopes@).len(),
        forall|k: int| 0 <= k < r@.len() ==> {
            let p = #[trigger] r@[k];
            let q = metric_leaf_positions(scopes@)[k];
            p.0 as int == q.0 && p.1 as int == q.1 && p.2 as int == q.2
        },
{
    let mut out: Vec<(usize, usize, usize)> = Vec::new();
    let mut si: usize = 0;
    while si < scopes.len()
        invariant
            si <= scopes@.len(),
            out@.len() == metric_leaf_positions(scopes@.take(si as int)).len(),
            forall|k: int| 0 <= k < out@.len() ==> same_pos(#[trigger] out@[k], metric_leaf_positions(scopes@.take(si as int))[k]),
        decreases scopes@.len() - si,
    {
        let sm = &scopes[si];
        let ghost base = metric_leaf_positions(scopes@.take(si as int));
        proof {
            assert(scopes@.take(si + 1).drop_last() =~= scopes@.take(si as int));
            assert(scopes@.take(si + 1).last() == scopes@[si as int]);
        }
        let mut mi: usize = 0;
        while mi < sm.metrics.len()
            invariant
                si < scopes@.len(),
                *sm == scopes@[si as int],
                mi <= sm.metrics@.len(),
                base == metric_leaf_positions(scopes@.take(si as int)),
                out@.len() == (base + leaves_of_scope(sm.metrics@.take(mi as int), si as int)).len(),
                forall|k: int| 0 <= k < out@.len() ==> same_pos(#[trigger] out@[k], (base + leaves_of_scope(sm.metrics@.take(mi as int), si as int))[k]),
            decreases sm.metrics@.len() - mi,
        {
            let metric = &sm.metrics[mi];
            let ghost base2 = base + leaves_of_scope(sm.metrics@.take(mi as int), si as int);
            proof {
                assert(sm.metrics@.take(mi + 1).drop_last() =~= sm.metrics@.take(mi as int));
                assert(sm.metrics@.take(mi + 1).last() == sm.metrics@[mi as int]);
            }
            let n: usize = match &metric.data {
                Some(d) => point_count(d),
                None => 0,
            };
            let mut p: usize = 0;
            while p < n
                invariant
                    si < scopes@.len(),
                    mi < sm.metrics@.len(),
                    *metric == sm.metrics@[mi as int],
                    n == leaves_of_metric(*metric, si as int, mi as int).len(),
                    p <= n,
                    base2 == base + leaves_of_scope(sm.metrics@.take(mi as int), si as int),
                    out@.len() == base2.len() + p,
                    forall|k: int| 0 <= k < out@.len() ==> same_pos(#[trigger] out@[k], (base2 + leaves_of_metric(*metric, si as int, mi as int))[k]),
                decreases n - p,
            {
                let ghost before = out@;
                out.push((si, mi, p));
                proof {
                    assert forall|k: int| 0 <= k < out@.len() implies same_pos(#[trigger] out@[k], (base2 + leaves_of_metric(*metric, si as int, mi as int))[k]) by {
                        if k < before.len() {
                            assert(out@[k] == before[k]);
                        }
                    }
                }
                p = p + 1;
            }
            proof {
                assert(base + leaves_of_scope(sm.metrics@.take(mi + 1), si as int) =~= base2 + leaves_of_metric(*metric, si as int, mi as int));
            }
            mi = mi + 1;
        }
        proof {
            assert(sm.metrics@.take(sm.metrics@.len() as int) =~= sm.metrics@);
            assert(metric_leaf_positions(scopes@.take(si + 1)) =~= base + leaves_of_scope(sm.metrics@, si as int));
        }
        si = si + 1;
    }
    proof {
        assert(scopes@.take(scopes@.len() as int) =~= scopes@);
    }
    out
}

/// A position given as indices stands for a position given as integers.
pub open spec fn same_pos(p: (usize, usize, usize), q: (int, int, int)) -> bool {
    p.0 as int == q.0 && p.1 as int == q.1 && p.2 as int == q.2
}

proof fn lemma_leaf_position_valid(scopes: Seq<OtelScopeMetrics>, k: int)
    requires
        0 <= k < metric_leaf_positions(scopes).len(),
    ensures
        ({
            let q = metric_leaf_positions(scopes)[k];
            &&& 0 <= q.0 < scopes.len()
            &&& 0 <= q.1 < scopes[q.0].metrics@.len()
            &&& scopes[q.0].metrics@[q.1].data is Some
            &&& 0 <= q.2 < point_attrs_of(scopes[q.0].metrics@[q.1].data->Some_0).len()
        }),
    decreases scopes.len(),
{
    let prev = metric_leaf_positions(scopes.drop_last());
    if k < prev.len() {
        lemma_leaf_position_valid(scopes.drop_last(), k);
        assert(metric_leaf_positions(scopes)[k] == prev[k]);
        let q = prev[k];
        assert(scopes.drop_last()[q.0] == scopes[q.0]);
    } else {
        let si = scopes.len() - 1;
        lemma_scope_position_valid(scopes.last().metrics@, si, k - prev.len());
        assert(metric_leaf_positions(scopes)[k] == leaves_of_scope(scopes.last().metrics@, si)[k - prev.len()]);
    }
}

proof fn lemma_scope_position_valid(ms: Seq<OtelMetric>, si: int, k: int)
    requires
        0 <= k < leaves_of_scope(ms, si).len(),
    ensures
        ({
            let q = leaves_of_scope(ms, si)[k];
            &&& q.0 == si
            &&& 0 <= q.1 < ms.len()
            &&& ms[q.1].data is Some
            &&& 0 <= q.2 < point_attrs_of(ms[q.1].data->Some_0).len()
        }),
    decreases ms.len(),
{
    let prev = leaves_of_scope(ms.drop_last(), si);
    if k < prev.len() {
        lemma_scope_position_valid(ms.drop_last(), si, k);
        assert(leaves_of_scope(ms, si)[k] == prev[k]);
        assert(ms.drop_last()[prev[k].1] == ms[prev[k].1]);
    } else {
        assert(leaves_of_scope(ms, si)[k] == leaves_of_metric(ms.last(), si, ms.len() - 1)[k - prev.len()]);
    }
}

/// The object of a leaf record over `base`: see `leaf_record_is`.
fn leaf_record(base: JsonValue, leaf_type: &str, leaf_attrs: &Vec<(String, Option<AttrValue>)>, resource_attrs: &Vec<(String, Option<AttrValue>)>,
    scope: &Option<OtelScope>, schema_url: &String, metric: Vec<(String, JsonValue)>, Ghost(metric_d): Ghost<Seq<(Seq<char>, ExtraValue)>>) -> (r: Vec<(String, JsonValue)>)
    requires
        extras_are(metric@, metric_d),
    ensures
        leaf_record_is(r@, base, leaf_type@, leaf_attrs@, resource_attrs@, *scope, schema_url@, metric_d),
{
    let no_extras: Vec<(String, JsonValue)> = Vec::new();
    assert(no_extras@ =~= Seq::<(String, JsonValue)>::empty());
    let resource_object = attrs_object(resource_attrs, no_extras);
    let scope_entries = scope_extras(scope, schema_url);
    let ghost se = scope_entries@;
    let scope_object = last_wins(scope_entries);
    let ghost mv = metric@;
    let ghost resource_json = JsonValue::Object(resource_object);
    let ghost scope_json = JsonValue::Object(scope_object);
    let ghost b = base;
    let object = leaf_envelope(base, leaf_type, leaf_attrs, JsonValue::Object(resource_object), JsonValue::Object(scope_object), metric);
    proof {
        assert(scope_object_is(scope_object@, *scope, schema_url@));
        assert(leaf_object_is(object@, b, leaf_type@, leaf_attrs@, resource_attrs@, *scope, schema_url@, metric_d, resource_json, scope_json, mv));
    }
    object
}

/// The record of one data point: its message type and its object over `base`.
fn metric_leaf(res: &OtelResourceMetrics, si: usize, mi: usize, p: usize, base: JsonValue) -> (r: (String, Vec<(String, JsonValue)>))
    requires
        si < res.scope_metrics@.len(),
        mi < res.scope_metrics@[si as int].metrics@.len(),
        res.scope_metrics@[si as int].metrics@[mi as int].data is Some,
        p < point_attrs_of(res.scope_metrics@[si as int].metrics@[mi as int].data->Some_0).len(),
    ensures
        metric_leaf_for(r, *res, base, (si as int, mi as int, p as int)),
{
    let sm = &res.scope_metrics[si];
    let m = &sm.metrics[mi];
    let d = match &m.data {
        Some(d) => d,
        None => {
            assert(false);
            return (String::new(), Vec::new());
        },
    };
    let kind = metric_kind(d);
    let leaf_type = leaf_type_name(kind);
    let leaf_attrs = point_attrs_at(d, p);
    let metric = metric_envelope(&m.name, &m.unit, &m.description, &m.metadata, kind);
    let object = leaf_record(base, leaf_type, leaf_attrs, &res.resource_attributes, &sm.scope, &sm.schema_url, metric,
        Ghost(spec_metric_envelope(m.name@, m.unit@, m.description@, m.metadata@, kind)));
    (String::from_str(leaf_type), object)
}

/// The records of a metrics payload over their dumps: one per data point, in payload order;
/// `None` when `dumps` does not hold one dump per data point.
pub open spec fn metric_leaves_are(res: OtelResourceMetrics, dumps: Seq<JsonValue>, r: Option<Vec<(String, Vec<(String, JsonValue)>)>>) -> bool {
    &&& (r is None <==> dumps.len() != metric_leaf_positions(res.scope_metrics@).len())
    &&& (r matches Some(leaves) ==> {
        &&& leaves@.len() == metric_leaf_positions(res.scope_metrics@).len()
        &&& forall|k: int| 0 <= k < leaves@.len() ==> metric_leaf_for(#[trigger] leaves@[k], res, dumps[k], metric_leaf_positions(res.scope_metrics@)[k])
    })
}

/// The records of a metrics payload, one per data point in payload order (see
/// `metric_leaf_positions`), each over its dump: `dumps` holds the OTLP/JSON dump of each data
/// point, in the same order. `None` when `dumps` does not hold one dump per data point.
pub fn metric_leaves(res: &OtelResourceMetrics, dumps: Vec<JsonValue>) -> (r: Option<Vec<(String, Vec<(String, JsonValue)>)>>)
    ensures
        metric_leaves_are(*res, dumps@, r),
{
    let positions = leaf_positions(&res.scope_metrics);
    if positions.len() != dumps.len() {
        return None;
    }
    let ghost all = metric_leaf_positions(res.scope_metrics@);
    let ghost d0 = dumps@;
    let mut rest = dumps;
    let mut out: Vec<(String, Vec<(String, JsonValue)>)> = Vec::new();
    let mut k: usize = 0;
    while k < positions.len()
        invariant
            all == metric_leaf_positions(res.scope_metrics@),
            positions@.len() == all.len(),
            forall|j: int| 0 <= j < positions@.len() ==> same_pos(#[trigger] positions@[j], all[j]),
            d0.len() == all.len(),
            k <= positions@.len(),
            rest@ == d0.subrange(k as int, d0.len() as int),
            out@.len() == k,
            forall|j: int| 0 <= j < k ==> metric_leaf_for(#[trigger] out@[j], *res, d0[j], all[j]),
        decreases positions@.len() - k,
    {
        let (si, mi, p) = positions[k];
        proof {
            assert(same_pos(positions@[k as int], all[k as int]));
            lemma_leaf_position_valid(res.scope_metrics@, k as int);
        }
        let base = rest.remove(0);
        assert(base == d0[k as int]);
        let leaf = metric_leaf(res, si, mi, p, base);
        let ghost before = out@;
        out.push(leaf);
        proof {
            assert(rest@ =~= d0.subrange(k + 1, d0.len() as int));
            assert forall|j: int| 0 <= j < k + 1 implies metric_leaf_for(#[trigger] out@[j], *res, d0[j], all[j]) by {
                if j < k {
                    assert(out@[j] == before[j]);
                }
            }
        }
        k = k + 1;
    }
    Some(out)
}

// ---------------------------------------------------------------------------------------------
// The leaves of a spans or logs payload: one record per span or log record, in payload order.

/// The positions (scope, record) of records grouped by scope, `counts[si]` records in scope `si`,
/// scope by scope and in order.
pub open spec fn pair_positions(counts: Seq<int>) -> Seq<(int, int)>
    decreases counts.len(),
{
    if counts.len() == 0 {
        Seq::empty()
    } else {
        pair_positions(counts.drop_last()) + Seq::new(counts.last() as nat, |j: int| (counts.len() - 1, j))
    }
}

/// How many spans each scope holds.
pub open spec fn span_counts(scopes: Seq<OtelScopeSpans>) -> Seq<int> {
    scopes.map_values(|ss: OtelScopeSpans| ss.spans@.len() as int)
}

/// How many log records each scope holds.
pub open spec fn log_counts(scopes: Seq<OtelScopeLogs>) -> Seq<int> {
    scopes.map_values(|sl: OtelScopeLogs| sl.log_records@.len() as int)
}

pub open spec fn same_pair(p: (usize, usize), q: (int, int)) -> bool {
    p.0 as int == q.0 && p.1 as int == q.1
}

pub open spec fn counts_view(counts: Seq<usize>) -> Seq<int> {
    counts.map_values(|c: usize| c as int)
}

fn pair_positions_of(counts: &Vec<usize>) -> (r: Vec<(usize, usize)>)
    ensures
        r@.len() == pair_positions(counts_view(counts@)).len(),
        forall|k: int| 0 <= k < r@.len() ==> same_pair(#[trigger] r@[k], pair_positions(counts_view(counts@))[k]),
{
    let ghost cv = counts_view(counts@);
    let mut out: Vec<(usize, usize)> = Vec::new();
    let mut si: usize = 0;
    while si < counts.len()
        invariant
            cv == counts_view(counts@),
            si <= counts@.len(),
            out@.len() == pair_positions(cv.take(si as int)).len(),
            forall|k: int| 0 <= k < out@.len() ==> same_pair(#[trigger] out@[k], pair_positions(cv.take(si as int))[k]),
        decreases counts@.len() - si,
    {
        let n = counts[si];
        let ghost base = pair_positions(cv.take(si as int));
        let ghost run = Seq::new(n as nat, |j: int| (si as int, j));
        proof {
            assert(cv.take(si + 1).drop_last() =~= cv.take(si as int));
            assert(cv.take(si + 1).last() == n as int);
            assert(pair_positions(cv.take(si + 1)) == base + run);
        }
        let mut j: usize = 0;
        while j < n
            invariant
                si < counts@.len(),
                j <= n,
                run == Seq::new(n as nat, |x: int| (si as int, x)),
                out@.len() == base.len() + j,
                forall|k: int| 0 <= k < out@.len() ==> same_pair(#[trigger] out@[k], (base + run)[k]),
            decreases n - j,
        {
            let ghost before = out@;
            out.push((si, j));
            proof {
                assert forall|k: int| 0 <= k < out@.len() implies same_pair(#[trigger] out@[k], (base + run)[k]) by {
                    if k < before.len() {
                        assert(out@[k] == before[k]);
                    }
                }
            }
            j = j + 1;
        }
        si = si + 1;
    }
    proof {
        assert(cv.take(counts@.len() as int) =~= cv);
    }
    out
}

proof fn lemma_pair_position_valid(counts: Seq<int>, k: int)
    requires
        forall|i: int| 0 <= i < counts.len() ==> counts[i] >= 0,
        0 <= k < pair_positions(counts).len(),
    ensures
        0 <= pair_positions(counts)[k].0 < counts.len(),
        0 <= pair_positions(counts)[k].1 < counts[pair_positions(counts)[k].0],
    decreases counts.len(),
{
    let prev = pair_positions(counts.drop_last());
    if k < prev.len() {
        lemma_pair_position_valid(counts.drop_last(), k);
        assert(pair_positions(counts)[k] == prev[k]);
        assert(counts.drop_last()[prev[k].0] == counts[prev[k].0]);
    } else {
        assert(counts.last() >= 0);
        assert(pair_positions(counts)[k] == Seq::new(counts.last() as nat, |j: int| (counts.len() - 1, j))[k - prev.len()]);
    }
}

/// Whether `leaf` is the record of the span at `pos` with dump `base`: type `otlp.Span`, its
/// object over `base` with the span's attributes and no `__metric`.
pub open spec fn span_leaf_for(leaf: (String, Vec<(String, JsonValue)>), res: OtelResourceSpans, base: JsonValue, pos: (int, int)) -> bool {
    let ss = res.scope_spans@[pos.0];
    &&& leaf.0@ == "otlp.Span"@
    &&& leaf_record_is(leaf.1@, base, "otlp.Span"@, ss.spans@[pos.1].attributes@, res.resource_attributes@, ss.scope, ss.schema_url@, Seq::empty())
}

/// Whether `leaf` is the record of the log record at `pos` with dump `base`: type
/// `otlp.LogRecord`, its object over `base` with the record's attributes and no `__metric`.
pub open spec fn log_leaf_for(leaf: (String, Vec<(String, JsonValue)>), res: OtelResourceLogs, base: JsonValue, pos: (int, int)) -> bool {
    let sl = res.scope_logs@[pos.0];
    &&& leaf.0@ == "otlp.LogRecord"@
    &&& leaf_record_is(leaf.1@, base, "otlp.LogRecord"@, sl.log_records@[pos.1].attributes@, res.resource_attributes@, sl.scope, sl.schema_url@, Seq::empty())
}

/// The records of a spans payload over their dumps: one per span, in payload order; `None` when
/// `dumps` does not hold one dump per span.
pub open spec fn span_leaves_are(res: OtelResourceSpans, dumps: Seq<JsonValue>, r: Option<Vec<(String, Vec<(String, JsonValue)>)>>) -> bool {
    &&& (r is None <==> dumps.len() != pair_positions(span_counts(res.scope_spans@)).len())
    &&& (r matches Some(leaves) ==> {
        &&& leaves@.len() == pair_positions(span_counts(res.scope_spans@)).len()
        &&& forall|k: int| 0 <= k < leaves@.len() ==> span_leaf_for(#[trigger] leaves@[k], res, dumps[k], pair_positions(span_counts(res.scope_spans@))[k])
    })
}

/// The records of a logs payload over their dumps: one per log record, in payload order; `None`
/// when `dumps` does not hold one dump per record.
pub open spec fn log_leaves_are(res: OtelResourceLogs, dumps: Seq<JsonValue>, r: Option<Vec<(String, Vec<(String, JsonValue)>)>>) -> bool {
    &&& (r is None <==> dumps.len() != pair_positions(log_counts(res.scope_logs@)).len())
    &&& (r matches Some(leaves) ==> {
        &&& leaves@.len() == pair_positions(log_counts(res.scope_logs@)).len()
        &&& forall|k: int| 0 <= k < leaves@.len() ==> log_leaf_for(#[trigger] leaves@[k], res, dumps[k], pair_positions(log_counts(res.scope_logs@))[k])
    })
}

/// The records of a spans payload, one per span in payload order (see `span_counts`), each
/// over its dump. `None` when `dumps` does not hold one dump per span.
pub fn span_leaves(res: &OtelResourceSpans, dumps: Vec<JsonValue>) -> (r: Option<Vec<(String, Vec<(String, JsonValue)>)>>)
    ensures
        span_leaves_are(*res, dumps@, r),
{
    proof {
        reveal_strlit("otlp.Span");
    }
    let mut counts: Vec<usize> = Vec::new();
    let mut i: usize = 0;
    while i < res.scope_spans.len()
        invariant
            i <= res.scope_spans@.len(),
            counts_view(counts@) == span_counts(res.scope_spans@.take(i as int)),
        decreases res.scope_spans@.len() - i,
    {
        let n = res.scope_spans[i].spans.len();
        let ghost before = counts@;
        counts.push(n);
        proof {
            assert(res.scope_spans@.take(i + 1) =~= res.scope_spans@.take(i as int).push(res.scope_spans@[i as int]));
            assert(counts_view(counts@) =~= counts_view(before).push(n as int));
            assert(span_counts(res.scope_spans@.take(i + 1)) =~= span_counts(res.scope_spans@.take(i as int)).push(n as int));
        }
        i = i + 1;
    }
    assert(res.scope_spans@.take(i as int) =~= res.scope_spans@);
    let ghost cv = span_counts(res.scope_spans@);
    assert(forall|c: int| 0 <= c < cv.len() ==> #[trigger] cv[c] >= 0);
    let positions = pair_positions_of(&counts);
    if positions.len() != dumps.len() {
        return None;
    }
    let ghost all = pair_positions(cv);
    let ghost d0 = dumps@;
    let mut rest = dumps;
    let mut out: Vec<(String, Vec<(String, JsonValue)>)> = Vec::new();
    let mut k: usize = 0;
    while k < positions.len()
        invariant
            cv == span_counts(res.scope_spans@),
            forall|c: int| 0 <= c < cv.len() ==> #[trigger] cv[c] >= 0,
            all == pair_positions(cv),
            positions@.len() == all.len(),
            forall|j: int| 0 <= j < positions@.len() ==> same_pair(#[trigger] positions@[j], all[j]),
            d0.len() == all.len(),
            k <= positions@.len(),
            rest@ == d0.subrange(k as int, d0.len() as int),
            out@.len() == k,
            forall|j: int| 0 <= j < k ==> span_leaf_for(#[trigger] out@[j], *res, d0[j], all[j]),
        decreases positions@.len() - k,
    {
        let (si, j) = positions[k];
        proof {
            assert(same_pair(positions@[k as int], all[k as int]));
            lemma_pair_position_valid(cv, k as int);
        }
        let base = rest.remove(0);
        assert(base == d0[k as int]);
        let ss = &res.scope_spans[si];
        let no_metric: Vec<(String, JsonValue)> = Vec::new();
        assert(extras_are(no_metric@, Seq::empty()));
        let object = leaf_record(base, "otlp.Span", &ss.spans[j].attributes, &res.resource_attributes, &ss.scope, &ss.schema_url, no_metric,
            Ghost(Seq::empty()));
        let leaf = (String::from_str("otlp.Span"), object);
        let ghost before = out@;
        out.push(leaf);
        proof {
            assert(rest@ =~= d0.subrange(k + 1, d0.len() as int));
            assert forall|q: int| 0 <= q < k + 1 implies span_leaf_for(#[trigger] out@[q], *res, d0[q], all[q]) by {
                if q < k {
                    assert(out@[q] == before[q]);
                }
            }
        }
        k = k + 1;
    }
    Some(out)
}

/// The records of a logs payload, one per log record in payload order (see `log_counts`), each
/// over its dump. `None` when `dumps` does not hold one dump per record.
pub fn log_leaves(res: &OtelResourceLogs, dumps: Vec<JsonValue>) -> (r: Option<Vec<(String, Vec<(String, JsonValue)>)>>)
    ensures
        log_leaves_are(*res, dumps@, r),
{
    proof {
        reveal_strlit("otlp.LogRecord");
    }
    let mut counts: Vec<usize> = Vec::new();
    let mut i: usize = 0;
    while i < res.scope_logs.len()
        invariant
            i <= res.scope_logs@.len(),
            counts_view(counts@) == log_counts(res.scope_logs@.take(i as int)),
        decreases res.scope_logs@.len() - i,
    {
        let n = res.scope_logs[i].log_records.len();
        let ghost before = counts@;
        counts.push(n);
        proof {
            assert(res.scope_logs@.take(i + 1) =~= res.scope_logs@.take(i as int).push(res.scope_logs@[i as int]));
            assert(counts_view(counts@) =~= counts_view(before).push(n as int));
            assert(log_counts(res.scope_logs@.take(i + 1)) =~= log_counts(res.scope_logs@.take(i as int)).push(n as int));
        }
        i = i + 1;
    }
    assert(res.scope_logs@.take(i as int) =~= res.scope_logs@);
    let ghost cv = log_counts(res.scope_logs@);
    assert(forall|c: int| 0 <= c < cv.len() ==> #[trigger] cv[c] >= 0);
    let positions = pair_positions_of(&counts);
    if positions.len() != dumps.len() {
        return None;
    }
    let ghost all = pair_positions(cv);
    let ghost d0 = dumps@;
    let mut rest = dumps;
    let mut out: Vec<(String, Vec<(String, JsonValue)>)> = Vec::new();
    let mut k: usize = 0;
    while k < positions.len()
        invariant
            cv == log_counts(res.scope_logs@),
            forall|c: int| 0 <= c < cv.len() ==> #[trigger] cv[c] >= 0,
            all == pair_positions(cv),
            positions@.len() == all.len(),
            forall|j: int| 0 <= j < positions@.len() ==> same_pair(#[trigger] positions@[j], all[j]),
            d0.len() == all.len(),
            k <= positions@.len(),
            rest@ == d0.subrange(k as int, d0.len() as int),
            out@.len() == k,
            forall|j: int| 0 <= j < k ==> log_leaf_for(#[trigger] out@[j], *res, d0[j], all[j]),
        decreases positions@.len() - k,
    {
        let (si, j) = positions[k];
        proof {
            assert(same_pair(positions@[k as int], all[k as int]));
            lemma_pair_position_valid(cv, k as int);
        }
        let base = rest.remove(0);
        assert(base == d0[k as int]);
        let sl = &res.scope_logs[si];
        let no_metric: Vec<(String, JsonValue)> = Vec::new();
        assert(extras_are(no_metric@, Seq::empty()));
        let object = leaf_record(base, "otlp.LogRecord", &sl.log_records[j].attributes, &res.resource_attributes, &sl.scope, &sl.schema_url,
            no_metric, Ghost(Seq::empty()));
        let leaf = (String::from_str("otlp.LogRecord"), object);
        let ghost before = out@;
        out.push(leaf);
        proof {
            assert(rest@ =~= d0.subrange(k + 1, d0.len() as int));
            assert forall|q: int| 0 <= q < k + 1 implies log_leaf_for(#[trigger] out@[q], *res, d0[q], all[q]) by {
                if q < k {
                    assert(out@[q] == before[q]);
                }
            }
        }
        k = k + 1;
    }
    Some(out)
}

/// What the decoder does next, given how many records were visited and whether the visitor asked
/// for more: visit record `next` while there is one and the visitor has not asked to stop.
#[derive(Clone, Copy, Debug, PartialEq, Eq, Structural)]
pub enum LeafStep {
    Visit(usize),
    Stop,
}

/// Decides the decoder's next step: `Visit(visited)` when the visitor's last answer was to go on
/// and a record is left, else `Stop`.
pub fn next_leaf_step(visited: usize, leaf_count: usize, go_on: bool) -> (r: LeafStep)
    ensures
        go_on && visited < leaf_count ==> r == LeafStep::Visit(visited),
        !(go_on && visited < leaf_count) ==> r == LeafStep::Stop,
{
    if go_on && visited < leaf_count {
        LeafStep::Visit(visited)
    } else {
        LeafStep::Stop
    }
}

} // verus!
