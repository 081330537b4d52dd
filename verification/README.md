# micromegas_lakehouse

The decision and data-shaping logic of the micromegas analytics lakehouse, written in Verus. The
library's functions carry `requires`/`ensures` contracts that Verus proves; the few calls into
outside crates go through trusted wrappers, listed below, whose contracts Verus takes as given.

What the library covers:

- **Partitions** (`partition`, `partition_cache`, `batch_update`, `merge`, `batch_merge`,
  `blocks_view`): partition metadata and its validation, cache filters, the choice between
  creating, merging or keeping a partition, merge plans and batched merge windows.
- **Just-in-time partitions** (`jit_grouping`, `jit_partitions`, `jit_windows`, `jit_freshness`,
  `query_text`): cutting source blocks into partitions that respect a size limit and never
  overlap in insert time, insert-time buckets and batch query windows, freshness of existing
  partitions, and the SQL texts the generation runs.
- **Access control** (`audience_guard`, `ownership_rewrite`, `list_partitions`, `get_payload`):
  the fail-closed readability rule, owner resolution, scan predicates, and the filtering of
  listings and payload reads.
- **OpenTelemetry rows** (`otel_json`, `otel_spans`, `otel_logs`, `otel_metrics`,
  `otel_decoders`, `otel_attrs`, `otel_payloads`, `otel_proto`): block payloads decoded into
  plain-value models, then spans, log records and metric points turned into rows with their
  JSON properties, or into one record per leaf message: its OTLP/JSON dump with the `__`
  envelope on top.
- **Views and catalog** (`process_views`, `net_spans`, `view_definition`, `log_stats_view`,
  `catalog`, `table_functions`, `scan_plan`, `query_merger`, `migration`, `file_cache`, ...).

Calls into `uuid`, `chrono`, `hex`, `base64`, `xxhash-rust`, `prost`, `serde_json` and a few
`std` functions go through small trusted wrappers (`#[verifier::external_body]`) whose contracts
state what those crates document; the protobuf messages are converted field for field into the
library's models, and their OTLP/JSON dumps come from `serde_json`. These wrappers are not proved.

`app/` holds the unverified edge: JSONB encoding of the library's JSON values, and drivers that
feed decoded records to a visitor, run block processors, resolve owners through a cache, check
view-instance access, read block rows and run the schema migration.
