use vstd::prelude::*;

verus! {

// The OpenTelemetry protobuf messages a block payload holds. Verus sees nothing inside them: they
// are read only by the conversions of `otel_payloads`, each of which moves a message's fields, one
// for one, into the library's plain-value models.

#[verifier::external_type_specification]
#[verifier::external_body]
pub struct ExProtoKeyValue(opentelemetry_proto::tonic::common::v1::KeyValue);

#[verifier::external_type_specification]
#[verifier::external_body]
pub struct ExProtoAnyValue(opentelemetry_proto::tonic::common::v1::AnyValue);

#[verifier::external_type_specification]
#[verifier::external_body]
pub struct ExProtoInstrumentationScope(opentelemetry_proto::tonic::common::v1::InstrumentationScope);

#[verifier::external_type_specification]
#[verifier::external_body]
pub struct ExProtoResourceSpans(opentelemetry_proto::tonic::trace::v1::ResourceSpans);

#[verifier::external_type_specification]
#[verifier::external_body]
pub struct ExProtoSpan(opentelemetry_proto::tonic::trace::v1::Span);

#[verifier::external_type_specification]
#[verifier::external_body]
pub struct ExProtoSpanEvent(opentelemetry_proto::tonic::trace::v1::span::Event);

#[verifier::external_type_specification]
#[verifier::external_body]
pub struct ExProtoSpanLink(opentelemetry_proto::tonic::trace::v1::span::Link);

#[verifier::external_type_specification]
#[verifier::external_body]
pub struct ExProtoResourceLogs(opentelemetry_proto::tonic::logs::v1::ResourceLogs);

#[verifier::external_type_specification]
#[verifier::external_body]
pub struct ExProtoLogRecord(opentelemetry_proto::tonic::logs::v1::LogRecord);

#[verifier::external_type_specification]
#[verifier::external_body]
pub struct ExProtoResourceMetrics(opentelemetry_proto::tonic::metrics::v1::ResourceMetrics);

#[verifier::external_type_specification]
#[verifier::external_body]
pub struct ExProtoMetric(opentelemetry_proto::tonic::metrics::v1::Metric);

#[verifier::external_type_specification]
#[verifier::external_body]
pub struct ExProtoMetricData(opentelemetry_proto::tonic::metrics::v1::metric::Data);

#[verifier::external_type_specification]
#[verifier::external_body]
pub struct ExProtoNumberDataPoint(opentelemetry_proto::tonic::metrics::v1::NumberDataPoint);

#[verifier::external_type_specification]
#[verifier::external_body]
pub struct ExProtoHistogramDataPoint(opentelemetry_proto::tonic::metrics::v1::HistogramDataPoint);

#[verifier::external_type_specification]
#[verifier::external_body]
pub struct ExProtoExponentialHistogramDataPoint(opentelemetry_proto::tonic::metrics::v1::ExponentialHistogramDataPoint);

#[verifier::external_type_specification]
#[verifier::external_body]
pub struct ExProtoSummaryDataPoint(opentelemetry_proto::tonic::metrics::v1::SummaryDataPoint);

#[verifier::external_type_specification]
#[verifier::external_body]
pub struct ExSerdeJsonValue(serde_json::Value);

#[verifier::external_type_specification]
#[verifier::external_body]
pub struct ExSerdeJsonNumber(serde_json::Number);

} // verus!
