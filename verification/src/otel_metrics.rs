use vstd::prelude::*;
use crate::otel_json::{AttrValue, JsonValue};
use crate::otel_spans::{ExtraValue, OtelScope, extra_is, extras_are, props_is, props_object};

verus! {

/// The value of a number data point: a double (by its IEEE-754 bits) or an integer.
#[derive(Clone, Copy, PartialEq, Eq, Structural)]
pub enum NumberValue {
    Double(u64),
    Int(i64),
}

/// A number data point of a sum or a gauge.
pub struct OtelNumberDataPoint {
    pub time_unix_nano: u64,
    pub value: Option<NumberValue>,
    pub attributes: Vec<(String, Option<AttrValue>)>,
}

/// The data of a metric. Histograms, exponential histograms and summaries give no measure rows;
/// of their data points only the attributes are held.
pub enum OtelMetricData {
    Sum { aggregation_temporality: i32, is_monotonic: bool, data_points: Vec<OtelNumberDataPoint> },
    Gauge { data_points: Vec<OtelNumberDataPoint> },
    Histogram { aggregation_temporality: i32, point_attributes: Vec<Vec<(String, Option<AttrValue>)>> },
    ExponentialHistogram { aggregation_temporality: i32, point_attributes: Vec<Vec<(String, Option<AttrValue>)>> },
    Summary { point_attributes: Vec<Vec<(String, Option<AttrValue>)>> },
}

/// A metric: its name, unit, description, metadata and data.
pub struct OtelMetric {
    pub name: String,
    pub unit: String,
    pub description: String,
    pub metadata: Vec<(String, Option<AttrValue>)>,
    pub data: Option<OtelMetricData>,
}

/// The metrics of one instrumentation scope.
pub struct OtelScopeMetrics {
    pub scope: Option<OtelScope>,
    pub schema_url: String,
    pub metrics: Vec<OtelMetric>,
}

/// The metrics of one resource: its attributes and its scopes.
pub struct OtelResourceMetrics {
    pub resource_attributes: Vec<(String, Option<AttrValue>)>,
    pub scope_metrics: Vec<OtelScopeMetrics>,
}

/// The properties a data point's metric adds: for a sum its aggregation temporality, whether it
/// is monotonic and the kind `sum`; for a gauge the kind `gauge`.
pub open spec fn metric_extras(data: OtelMetricData) -> Seq<(Seq<char>, ExtraValue)> {
    match data {
        OtelMetricData::Sum { aggregation_temporality, is_monotonic, .. } => seq![
            ("otel.metric.aggregation_temporality"@, ExtraValue::Value(AttrValue::Int(aggregation_temporality as i64))),
            ("otel.metric.is_monotonic"@, ExtraValue::Value(AttrValue::Bool(is_monotonic))),
            ("otel.metric.kind"@, ExtraValue::Text("sum"@)),
        ],
        OtelMetricData::Gauge { .. } => seq![("otel.metric.kind"@, ExtraValue::Text("gauge"@))],
        _ => Seq::empty(),
    }
}

/// The data points of a metric's data (none for the kinds that give no rows).
pub open spec fn data_points_of(data: Option<OtelMetricData>) -> Seq<OtelNumberDataPoint> {
    match data {
        Some(OtelMetricData::Sum { data_points, .. }) => data_points@,
        Some(OtelMetricData::Gauge { data_points }) => data_points@,
        _ => Seq::empty(),
    }
}

/// Whether a data point makes a row: its time is set (not zero) and it has a value.
pub open spec fn is_kept_point(dp: OtelNumberDataPoint) -> bool {
    dp.time_unix_nano as i64 != 0 && dp.value is Some
}

/// One row of the `measures` view, without the columns that come from the block's process.
pub struct MeasureRow {
    pub time: i64,
    pub target: String,
    pub name: String,
    pub unit: String,
    pub value: NumberValue,
    pub properties: Vec<(String, JsonValue)>,
}

/// Whether `row` is the row of data point `dp` of `metric` in scope `sm`: its time, its scope's
/// name as target (empty without scope), the metric's name and unit, its value, and its
/// properties from its attributes and its metric's extras.
pub open spec fn measure_row_is(row: MeasureRow, sm: OtelScopeMetrics, metric: OtelMetric, dp: OtelNumberDataPoint) -> bool {
    &&& row.time == dp.time_unix_nano as i64
    &&& row.target@ == (match sm.scope { Some(s) => s.name@, None => Seq::empty() })
    &&& row.name@ == metric.name@
    &&& row.unit@ == metric.unit@
    &&& dp.value == Some(row.value)
    &&& metric.data is Some
    &&& props_is(row.properties@, dp.attributes@, metric_extras(metric.data->Some_0))
}

/// The positions (scope, metric, point) of the kept points of a list of points, in order.
pub open spec fn kept_points(dps: Seq<OtelNumberDataPoint>, si: int, mi: int) -> Seq<(int, int, int)>
    decreases dps.len(),
{
    if dps.len() == 0 {
        Seq::empty()
    } else if is_kept_point(dps.last()) {
        kept_points(dps.drop_last(), si, mi).push((si, mi, dps.len() - 1))
    } else {
        kept_points(dps.drop_last(), si, mi)
    }
}

/// The positions of the kept points of a scope's metrics, metric by metric, in order.
pub open spec fn metric_positions(metrics: Seq<OtelMetric>, si: int) -> Seq<(int, int, int)>
    decreases metrics.len(),
{
    if metrics.len() == 0 {
        Seq::empty()
    } else {
        metric_positions(metrics.drop_last(), si) + kept_points(data_points_of(metrics.last().data), si, metrics.len() - 1)
    }
}

/// The positions (scope, metric, point) of the points that make rows, in order.
pub open spec fn measure_positions(scopes: Seq<OtelScopeMetrics>) -> Seq<(int, int, int)>
    decreases scopes.len(),
{
    if scopes.len() == 0 {
        Seq::empty()
    } else {
        measure_positions(scopes.drop_last()) + metric_positions(scopes.last().metrics@, scopes.len() - 1)
    }
}

/// Whether `row` is the row of the point at position `p`.
pub open spec fn measure_row_for(row: MeasureRow, scopes: Seq<OtelScopeMetrics>, p: (int, int, int)) -> bool {
    &&& 0 <= p.0 < scopes.len()
    &&& 0 <= p.1 < scopes[p.0].metrics@.len()
    &&& 0 <= p.2 < data_points_of(scopes[p.0].metrics@[p.1].data).len()
    &&& measure_row_is(row, scopes[p.0], scopes[p.0].metrics@[p.1], data_points_of(scopes[p.0].metrics@[p.1].data)[p.2])
}

/// Whether `(lo, hi)` is the earliest and the latest time of the rows.
pub open spec fn is_measure_time_range(rows: Seq<MeasureRow>, lo: i64, hi: i64) -> bool {
    &&& exists|k: int| 0 <= k < rows.len() && (#[trigger] rows[k]).time == lo
    &&& exists|k: int| 0 <= k < rows.len() && (#[trigger] rows[k]).time == hi
    &&& forall|k: int| 0 <= k < rows.len() ==> lo <= (#[trigger] rows[k]).time <= hi
}

/// The rows of a block of metrics with their time range.
pub struct MeasureRows {
    pub min_time: i64,
    pub max_time: i64,
    pub rows: Vec<MeasureRow>,
}

/// The extra properties of a metric's data points (see `metric_extras`).
fn metric_extras_json(data: &OtelMetricData) -> (r: Vec<(String, JsonValue)>)
    ensures
        extras_are(r@, metric_extras(*data)),
{
    proof {
        reveal_strlit("otel.metric.aggregation_temporality");
        reveal_strlit("otel.metric.is_monotonic");
        reveal_strlit("otel.metric.kind");
        reveal_strlit("sum");
        reveal_strlit("gauge");
    }
    let mut out: Vec<(String, JsonValue)> = Vec::new();
    match data {
        OtelMetricData::Sum { aggregation_temporality, is_monotonic, .. } => {
            out.push((String::from_str("otel.metric.aggregation_temporality"), JsonValue::Int(*aggregation_temporality as i64)));
            out.push((String::from_str("otel.metric.is_monotonic"), JsonValue::Bool(*is_monotonic)));
            out.push((String::from_str("otel.metric.kind"), JsonValue::Str(String::from_str("sum"))));
            assert(extra_is(out@[0], metric_extras(*data)[0]));
            assert(extra_is(out@[1], metric_extras(*data)[1]));
            assert(extra_is(out@[2], metric_extras(*data)[2]));
        },
        OtelMetricData::Gauge { .. } => {
            out.push((String::from_str("otel.metric.kind"), JsonValue::Str(String::from_str("gauge"))));
            assert(extra_is(out@[0], metric_extras(*data)[0]));
        },
        _ => {},
    }
    out
}

fn measure_row(sm: &OtelScopeMetrics, metric: &OtelMetric, data: &OtelMetricData, dp: &OtelNumberDataPoint) -> (row: MeasureRow)
    requires
        metric.data == Some(*data),
        dp.value is Some,
    ensures
        measure_row_is(row, *sm, *metric, *dp),
{
    let target = match &sm.scope {
        Some(s) => s.name.clone(),
        None => String::new(),
    };
    let value = match dp.value {
        Some(v) => v,
        None => NumberValue::Int(0),
    };
    let extras = metric_extras_json(data);
    let properties = props_object(&dp.attributes, extras, Ghost(metric_extras(*data)));
    MeasureRow {
        time: dp.time_unix_nano as i64,
        target,
        name: metric.name.clone(),
        unit: metric.unit.clone(),
        value,
        properties,
    }
}

/// The measure rows of `scopes`: one row per kept data point of a sum or a gauge, scope by scope,
/// metric by metric and in order, with their time range; `None` when no point makes a row.
pub open spec fn measure_rows_are(scopes: Seq<OtelScopeMetrics>, r: Option<MeasureRows>) -> bool {
    &&& (r is None <==> measure_positions(scopes).len() == 0)
    &&& (r matches Some(rs) ==> {
        &&& rs.rows@.len() == measure_positions(scopes).len()
        &&& forall|k: int| 0 <= k < rs.rows@.len() ==> measure_row_for(#[trigger] rs.rows@[k], scopes, measure_positions(scopes)[k])
        &&& is_measure_time_range(rs.rows@, rs.min_time, rs.max_time)
    })
}

/// A `BlockProcessor` for OpenTelemetry metric blocks (sums and gauges; other kinds are dropped).
pub struct OtelMetricsBlockProcessor {}

impl OtelMetricsBlockProcessor {
    /// One row per kept data point of a sum or a gauge (see `is_kept_point`), scope by scope,
    /// metric by metric and in order, with their time range; `None` when no point makes a row.
    pub fn measure_rows(&self, scopes: &Vec<OtelScopeMetrics>) -> (r: Option<MeasureRows>)
        ensures
            measure_rows_are(scopes@, r),
    {
        let mut rows: Vec<MeasureRow> = Vec::new();
        let mut min_t: i64 = i64::MAX;
        let mut max_t: i64 = i64::MIN;
        let mut si: usize = 0;
        while si < scopes.len()
            invariant
                si <= scopes@.len(),
                rows@.len() == measure_positions(scopes@.take(si as int)).len(),
                forall|k: int| 0 <= k < rows@.len() ==> measure_row_for(#[trigger] rows@[k], scopes@, measure_positions(scopes@.take(si as int))[k]),
                rows@.len() == 0 ==> min_t == i64::MAX && max_t == i64::MIN,
                rows@.len() > 0 ==> is_measure_time_range(rows@, min_t, max_t),
            decreases scopes@.len() - si,
        {
            let sm = &scopes[si];
            let ghost base = measure_positions(scopes@.take(si as int));
            proof {
                assert(scopes@.take(si + 1).drop_last() =~= scopes@.take(si as int));
                assert(scopes@.take(si + 1).last() == scopes@[si as int]);
            }
            let mut mi: usize = 0;
            while mi < sm.metrics.len()
                invariant
                    si < scopes@.len(),
                    *sm == scopes@[si as int],
                    mi <= sm.metrics@.len(),
                    base == measure_positions(scopes@.take(si as int)),
                    rows@.len() == (base + metric_positions(sm.metrics@.take(mi as int), si as int)).len(),
                    forall|k: int| 0 <= k < rows@.len() ==> measure_row_for(#[trigger] rows@[k], scopes@, (base + metric_positions(sm.metrics@.take(mi as int), si as int))[k]),
                    rows@.len() == 0 ==> min_t == i64::MAX && max_t == i64::MIN,
                    rows@.len() > 0 ==> is_measure_time_range(rows@, min_t, max_t),
                decreases sm.metrics@.len() - mi,
            {
                let metric = &sm.metrics[mi];
                let ghost base2 = base + metric_positions(sm.metrics@.take(mi as int), si as int);
                proof {
                    assert(sm.metrics@.take(mi + 1).drop_last() =~= sm.metrics@.take(mi as int));
                    assert(sm.metrics@.take(mi + 1).last() == sm.metrics@[mi as int]);
                }
                let empty: Vec<OtelNumberDataPoint> = Vec::new();
                let (data, dps): (Option<&OtelMetricData>, &Vec<OtelNumberDataPoint>) = match &metric.data {
                    Some(d) => match d {
                        OtelMetricData::Sum { data_points, .. } => (Some(d), data_points),
                        OtelMetricData::Gauge { data_points } => (Some(d), data_points),
                        _ => (None, &empty),
                    },
                    None => (None, &empty),
                };
                assert(dps@ == data_points_of(metric.data));
                assert(dps@.len() > 0 ==> data is Some && metric.data == Some(*data->Some_0));
                let mut j: usize = 0;
                while j < dps.len()
                    invariant
                        si < scopes@.len(),
                        *sm == scopes@[si as int],
                        mi < sm.metrics@.len(),
                        *metric == sm.metrics@[mi as int],
                        dps@ == data_points_of(metric.data),
                        dps@.len() > 0 ==> data is Some && metric.data == Some(*data->Some_0),
                        j <= dps@.len(),
                        base2 == base + metric_positions(sm.metrics@.take(mi as int), si as int),
                        rows@.len() == (base2 + kept_points(dps@.take(j as int), si as int, mi as int)).len(),
                        forall|k: int| 0 <= k < rows@.len() ==> measure_row_for(#[trigger] rows@[k], scopes@, (base2 + kept_points(dps@.take(j as int), si as int, mi as int))[k]),
                        rows@.len() == 0 ==> min_t == i64::MAX && max_t == i64::MIN,
                        rows@.len() > 0 ==> is_measure_time_range(rows@, min_t, max_t),
                    decreases dps@.len() - j,
                {
                    let dp = &dps[j];
                    let ghost before_pos = base2 + kept_points(dps@.take(j as int), si as int, mi as int);
                    proof {
                        assert(dps@.take(j + 1).drop_last() =~= dps@.take(j as int));
                        assert(dps@.take(j + 1).last() == dps@[j as int]);
                    }
                    let t = dp.time_unix_nano as i64;
                    if t != 0 && dp.value.is_some() {
                        let d = data.unwrap();
                        let row = measure_row(sm, metric, d, dp);
                        let ghost before = rows@;
                        let ghost old_min = min_t;
                        let ghost old_max = max_t;
                        if t < min_t {
                            min_t = t;
                        }
                        if t > max_t {
                            max_t = t;
                        }
                        rows.push(row);
                        proof {
                            let after_pos = base2 + kept_points(dps@.take(j + 1), si as int, mi as int);
                            assert(after_pos =~= before_pos.push((si as int, mi as int, j as int)));
                            assert forall|k: int| 0 <= k < rows@.len() implies measure_row_for(#[trigger] rows@[k], scopes@, after_pos[k]) by {
                                if k < before.len() {
                                    assert(rows@[k] == before[k]);
                                }
                            }
                            let n = before.len() as int;
                            assert(rows@[n].time == t);
                            if before.len() > 0 {
                                let a = choose|k: int| 0 <= k < before.len() && (#[trigger] before[k]).time == old_min;
                                let b = choose|k: int| 0 <= k < before.len() && (#[trigger] before[k]).time == old_max;
                                assert(rows@[a] == before[a] && rows@[b] == before[b]);
                                assert forall|k: int| 0 <= k < rows@.len() implies min_t <= (#[trigger] rows@[k]).time <= max_t by {
                                    if k < n {
                                        assert(rows@[k] == before[k]);
                                    }
                                }
                            }
                        }
                    } else {
                        proof {
                            assert(base2 + kept_points(dps@.take(j + 1), si as int, mi as int) =~= before_pos);
                        }
                    }
                    j = j + 1;
                }
                proof {
                    assert(dps@.take(dps@.len() as int) =~= dps@);
                    assert(base + metric_positions(sm.metrics@.take(mi + 1), si as int) =~= base2 + kept_points(dps@, si as int, mi as int));
                }
                mi = mi + 1;
            }
            proof {
                assert(sm.metrics@.take(sm.metrics@.len() as int) =~= sm.metrics@);
                assert(measure_positions(scopes@.take(si + 1)) == base + metric_positions(sm.metrics@, si as int));
            }
            si = si + 1;
        }
        assert(scopes@.take(scopes@.len() as int) =~= scopes@);
        if rows.len() == 0 {
            None
        } else {
            Some(MeasureRows { min_time: min_t, max_time: max_t, rows })
        }
    }
}

} // verus!
