pub mod error;
pub mod otel_attrs;
pub mod partition_source_data;
pub mod time_range;
pub mod jit_grouping;
pub mod jit_partitions;
pub mod jit_windows;
pub mod bytes;
pub mod jit_freshness;
pub mod view;
pub mod partition;
pub mod partition_cache;
pub mod batch_update;
pub mod merge;
pub mod audience_guard;
pub mod uuid_text;
pub mod view_definition;
pub mod log_stats_view;
pub mod catalog;
pub mod process_views;
pub mod row_times;
pub mod async_events;
pub mod table_functions;
pub mod ownership_rewrite;
pub mod otel_json;
pub mod otel_spans;
pub mod otel_logs;
pub mod otel_metrics;
pub mod otel_payloads;
pub mod otel_proto;
pub mod otel_decoders;
pub mod scan_plan;
pub mod list_partitions;
pub mod net_spans;
pub mod batch_merge;
pub mod time_text;
pub mod partition_specs;
pub mod blocks_view;
pub mod query_merger;
pub mod migration;
pub mod query_text;
pub mod get_payload;
pub mod file_cache;
pub mod jit_window_order;
