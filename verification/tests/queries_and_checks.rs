use micromegas_lakehouse::error::LakehouseError;
use micromegas_lakehouse::file_cache::{entry_weight, slice_ranges, FileCachePolicy};
use micromegas_lakehouse::get_payload::{check_payload_access, distinct_process_ids, payload_object_path};
use micromegas_lakehouse::list_partitions::{next_page_offset, page_query, RESOLVE_CHUNK_ROWS};
use micromegas_lakehouse::migration::{
    metadata_batch_query, migration_decision, migration_plan, next_migration_step, step_target_version, MigrationAction,
    MigrationPhase, MigrationStep, LATEST_LAKEHOUSE_SCHEMA_VERSION,
};
use micromegas_lakehouse::process_views::{ImagesView, ImagesViewMaker};
use micromegas_lakehouse::query_merger::{make_lex_ordering, PhysicalSortKey};
use micromegas_lakehouse::query_text::{
    bucket_counts_sql, fill_time_range, interval_literal, process_batch_sql, process_identity_predicate,
    process_insert_range_sql, source_blocks_sql, stream_blocks_sql, stream_identity_predicate, stream_insert_range_sql,
    stream_metadata_sql,
};
use micromegas_lakehouse::partition_specs::{block_write_action, processor_for_format, BlockOutcome, BlockWriteAction};
use micromegas_lakehouse::table_functions::{DenyQueriesRefusal, DenyQueriesTableFunction};
use micromegas_lakehouse::time_range::TimeRange;
use micromegas_lakehouse::view::ScanSortColumn;

const PROCESS: &str = "67e55044-10b1-426f-9247-bb680e5fe0c8";
const PROCESS_ID: u128 = 0x67e5504410b1426f9247bb680e5fe0c8;
const HOUR: i64 = 3_600_000_000_000;
const T0: &str = "1970-01-01T00:00:00+00:00";
const T1: &str = "1970-01-01T01:00:00+00:00";

#[test]
fn migration_steps_and_plan() {
    assert_eq!(LATEST_LAKEHOUSE_SCHEMA_VERSION, 4);
    assert_eq!(next_migration_step(0), Some(MigrationStep::CreateTables));
    assert_eq!(next_migration_step(3), Some(MigrationStep::UpgradeV3ToV4));
    assert_eq!(next_migration_step(4), None);
    assert_eq!(next_migration_step(-1), None);
    assert_eq!(step_target_version(MigrationStep::UpgradeV1ToV2), 2);
    assert_eq!(
        migration_plan(0),
        vec![
            MigrationStep::CreateTables,
            MigrationStep::UpgradeV1ToV2,
            MigrationStep::UpgradeV2ToV3,
            MigrationStep::UpgradeV3ToV4
        ]
    );
    assert_eq!(migration_plan(2), vec![MigrationStep::UpgradeV2ToV3, MigrationStep::UpgradeV3ToV4]);
    assert!(migration_plan(4).is_empty());
    assert!(migration_plan(7).is_empty());
    // following the plan from any known version lands on the latest version
    for v in 0..=4 {
        let mut version = v;
        for step in migration_plan(v) {
            assert_eq!(next_migration_step(version), Some(step));
            version = step_target_version(step);
        }
        assert_eq!(version, LATEST_LAKEHOUSE_SCHEMA_VERSION);
    }
}

#[test]
fn migration_decisions() {
    assert_eq!(migration_decision(MigrationPhase::Unlocked, 4), MigrationAction::Done);
    assert_eq!(migration_decision(MigrationPhase::Unlocked, 2), MigrationAction::LockAndRecheck);
    assert_eq!(migration_decision(MigrationPhase::Locked, 4), MigrationAction::Done);
    assert_eq!(migration_decision(MigrationPhase::Locked, 0), MigrationAction::Execute);
    assert_eq!(migration_decision(MigrationPhase::Migrated, 4), MigrationAction::Done);
    assert_eq!(migration_decision(MigrationPhase::Migrated, 3), MigrationAction::VersionMismatch);
}

#[test]
fn metadata_batch_queries() {
    let prefix = "SELECT file_path, file_metadata, updated \n             FROM lakehouse_partitions \n             WHERE file_path IN (";
    assert_eq!(metadata_batch_query(1), format!("{prefix}$1)"));
    assert_eq!(metadata_batch_query(3), format!("{prefix}$1, $2, $3)"));
    let placeholders: Vec<String> = (1..=12).map(|i| format!("${}", i)).collect();
    assert_eq!(metadata_batch_query(12), format!("{prefix}{})", placeholders.join(", ")));
}

#[test]
fn interval_literals_count_whole_seconds() {
    assert_eq!(interval_literal(HOUR), "3600 seconds");
    assert_eq!(interval_literal(1_500_000_000), "1 seconds");
    assert_eq!(interval_literal(-1_500_000_000), "-1 seconds");
    assert_eq!(interval_literal(0), "0 seconds");
}

#[test]
fn jit_query_texts() {
    let range = TimeRange::new(0, HOUR);
    assert_eq!(
        process_identity_predicate(PROCESS_ID, "log"),
        format!("process_id = '{PROCESS}' AND array_has( \"streams.tags\", 'log' )")
    );
    assert_eq!(stream_identity_predicate(1), "stream_id = '00000000-0000-0000-0000-000000000001'");
    assert_eq!(
        bucket_counts_sql(HOUR, "stream_id = 'x'", range),
        format!(
            "SELECT date_bin('3600 seconds', insert_time) as bucket, COUNT(*) as nb_blocks\n             FROM source\n             WHERE stream_id = 'x'\n             AND insert_time >= '{T0}'\n             AND insert_time < '{T1}'\n             GROUP BY bucket\n             ORDER BY bucket;"
        )
    );
    assert_eq!(
        process_batch_sql(PROCESS_ID, "log", range),
        format!(
            "SELECT block_id, stream_id, process_id, begin_time, end_time, begin_ticks, end_ticks, nb_objects, object_offset, payload_size, insert_time\n             FROM source\n             WHERE process_id = '{PROCESS}'\n             AND array_has( \"streams.tags\", 'log' )\n             AND insert_time >= '{T0}'\n             AND insert_time < '{T1}'\n             ORDER BY insert_time, block_id;"
        )
    );
    let meta = stream_metadata_sql(PROCESS_ID, "cpu", range);
    assert!(meta.starts_with("SELECT stream_id,\n               first_value(\"process_id\")"));
    assert!(meta.ends_with(&format!("AND insert_time < '{T1}'\n        GROUP BY stream_id;")));
    assert_eq!(
        process_insert_range_sql(PROCESS_ID, "log", range),
        format!(
            "SELECT MIN(insert_time) as min_insert_time, MAX(insert_time) as max_insert_time\n        FROM source\n        WHERE process_id = '{PROCESS}'\n        AND array_has( \"streams.tags\", 'log' )\n        AND begin_time <= '{T1}'\n        AND end_time >= '{T0}';"
        )
    );
    assert_eq!(
        stream_insert_range_sql(PROCESS_ID, range),
        format!(
            "SELECT MIN(insert_time) as min_insert_time, MAX(insert_time) as max_insert_time\n        FROM source\n        WHERE stream_id = '{PROCESS}'\n        AND begin_time <= '{T1}'\n        AND end_time >= '{T0}';"
        )
    );
    let segment = stream_blocks_sql(PROCESS_ID, range, false);
    assert!(segment.contains("\n             FROM source\n             WHERE stream_id = '67e55044-"));
    let batched = stream_blocks_sql(PROCESS_ID, range, true);
    assert!(batched.contains("\n                 FROM source\n                 WHERE stream_id = '67e55044-"));
    assert!(batched.ends_with("\n                 ORDER BY insert_time, block_id;"));
    let source = source_blocks_sql("cpu", range);
    assert!(source.contains("WHERE array_has( \"streams.tags\", 'cpu' )"));
    assert!(source.ends_with(&format!("AND insert_time < '{T1}'\n          ;")));
}

#[test]
fn query_templates_take_the_range() {
    let range = TimeRange::new(0, HOUR);
    assert_eq!(
        fill_time_range("SELECT * FROM t WHERE time >= '{begin}' AND time < '{end}' AND x = '{begin}'", range),
        format!("SELECT * FROM t WHERE time >= '{T0}' AND time < '{T1}' AND x = '{T0}'")
    );
    assert_eq!(fill_time_range("no placeholder", range), "no placeholder");
}

fn col(name: &str, descending: bool) -> ScanSortColumn {
    ScanSortColumn { column: name.to_string(), descending }
}

#[test]
fn lex_orderings() {
    let fields = vec!["time".to_string(), "process_id".to_string(), "time".to_string()];
    let keys = make_lex_ordering(&fields, &vec![col("process_id", true), col("time", false)]).unwrap().unwrap();
    assert_eq!(
        keys,
        vec![
            PhysicalSortKey { index: 1, descending: true, nulls_first: true },
            PhysicalSortKey { index: 0, descending: false, nulls_first: false }
        ]
    );
    assert_eq!(make_lex_ordering(&fields, &vec![]), Ok(None));
    assert_eq!(make_lex_ordering(&fields, &vec![col("missing", false)]), Err(LakehouseError::UnknownColumn));
}

#[test]
fn payload_guard() {
    let ids = vec![PROCESS.to_string(), PROCESS.to_uppercase(), "00000000-0000-0000-0000-000000000002".to_string()];
    assert_eq!(distinct_process_ids(&ids), Ok(vec![PROCESS_ID, 2]));
    let bad = vec![PROCESS.to_string(), "../etc".to_string(), "nope".to_string()];
    assert_eq!(distinct_process_ids(&bad), Err("get_payload: '../etc' is not a valid process id".to_string()));
    assert_eq!(check_payload_access(&vec![PROCESS_ID, 2], &vec![2, PROCESS_ID]), Ok(()));
    assert_eq!(
        check_payload_access(&vec![2, PROCESS_ID], &vec![2]),
        Err(format!("get_payload: process '{PROCESS}' not found or not accessible"))
    );
    assert_eq!(payload_object_path("p", "s", "b"), "blobs/p/s/b");
}

#[test]
fn deny_query_validation() {
    let f = DenyQueriesTableFunction::new((), Some("admin@x".to_string()));
    let some = |s: &str| Some(s.to_string());
    let req = f.validate(some("query LIKE '%x%'"), some("abuse"), 3, 10).unwrap();
    assert_eq!(req.match_expr, "query LIKE '%x%'");
    assert_eq!(req.reason, "abuse");
    assert_eq!(req.created_by, "admin@x");
    assert_eq!(f.validate(None, some("r"), 0, 10).err(), Some(DenyQueriesRefusal::MissingMatchExpr));
    assert_eq!(f.validate(some("q"), None, 0, 10).err(), Some(DenyQueriesRefusal::MissingReason));
    assert_eq!(f.validate(some("q"), some(" \t\n"), 0, 10).err(), Some(DenyQueriesRefusal::EmptyReason));
    assert_eq!(f.validate(some("q"), some(""), 0, 10).err(), Some(DenyQueriesRefusal::EmptyReason));
    assert_eq!(f.validate(some("q"), some("\u{3000}\u{2003}\u{85}\u{a0}"), 0, 10).err(), Some(DenyQueriesRefusal::EmptyReason));
    assert!(f.validate(some("q"), some("\u{200b}"), 0, 10).is_ok());
    assert_eq!(f.validate(some("q"), some("r"), 10, 10).err(), Some(DenyQueriesRefusal::AtRuleCap));
    let anonymous = DenyQueriesTableFunction::new((), None);
    assert_eq!(anonymous.validate(some("q"), some("r"), 0, 10).err(), Some(DenyQueriesRefusal::NoCallerIdentity));
}

#[test]
fn file_cache_policy() {
    let p = FileCachePolicy::default();
    assert_eq!(p.max_capacity_bytes, 200 * 1024 * 1024);
    assert!(p.should_cache(10 * 1024 * 1024));
    assert!(!p.should_cache(10 * 1024 * 1024 + 1));
    assert!(FileCachePolicy::new(1, 0).should_cache(0));
    assert_eq!(entry_weight(5), Ok(5));
    assert_eq!(entry_weight(u32::MAX as u64), Ok(u32::MAX));
    assert_eq!(entry_weight(u32::MAX as u64 + 1), Err(LakehouseError::FileTooLargeToCache));
    let data = b"0123456789";
    assert_eq!(slice_ranges(data, &vec![(0, 3), (5, 5), (8, 10)]), vec![b"012".to_vec(), vec![], b"89".to_vec()]);
}

#[test]
fn images_views() {
    let v = ImagesViewMaker {}.make_view(PROCESS).unwrap();
    assert_eq!(v.get_view_set_name(), "images");
    assert_eq!(v.process_id(), PROCESS_ID);
    assert_eq!(v.get_file_schema_hash(), vec![1]);
    assert_eq!(v.jit_stream_tag(), "image");
    assert_eq!(v.check_batch_partition_spec(), Err(LakehouseError::BatchPartitionSpecUnsupported));
    assert_eq!(ImagesView::new("global").err(), Some(LakehouseError::GlobalInstanceUnsupported));
    assert_eq!(ImagesView::new("x").err(), Some(LakehouseError::InvalidViewInstanceId));
    assert_eq!(ImagesViewMaker {}.get_schema_hash(), vec![1]);
}

#[test]
fn restricted_listing_pages() {
    let q = page_query(2000);
    assert!(q.starts_with("SELECT view_set_name,\n                    view_instance_id,"));
    assert!(q.ends_with("max_sort_key_time\n                 FROM lakehouse_partitions\n                 ORDER BY ctid\n                 LIMIT 1000 OFFSET 2000;"));
    assert_eq!(next_page_offset(0, false, 0), None);
    assert_eq!(next_page_offset(RESOLVE_CHUNK_ROWS as usize, true, 0), None);
    assert_eq!(next_page_offset(999, false, 0), None);
    assert_eq!(next_page_offset(1000, false, 1000), Some(2000));
}

#[test]
fn block_dispatch_by_format() {
    let formats = vec!["msgpack/transit".to_string(), "otlp/v1/logs".to_string()];
    assert_eq!(processor_for_format(&formats, "otlp/v1/logs"), Some(1));
    assert_eq!(processor_for_format(&formats, "msgpack/transit"), Some(0));
    assert_eq!(processor_for_format(&formats, "otlp/v1/traces"), None);
    assert_eq!(block_write_action(BlockOutcome::NoProcessor), BlockWriteAction::Skip);
    assert_eq!(block_write_action(BlockOutcome::Failed), BlockWriteAction::ReportAndContinue);
    assert_eq!(block_write_action(BlockOutcome::Processed { has_rows: true }), BlockWriteAction::SendRows);
    assert_eq!(block_write_action(BlockOutcome::Processed { has_rows: false }), BlockWriteAction::Skip);
}
