use micromegas_lakehouse::async_events::{AsyncEventsBlockProcessor, MetricsBlockProcessor, ScopeDesc};
use micromegas_lakehouse::audience_guard::{AudienceGuard, ReadScope};
use micromegas_lakehouse::batch_merge::{compute_partition_stats, merge_batch_windows, MergeInput, PartitionStats};
use micromegas_lakehouse::batch_update::PartitionCreationStrategy;
use micromegas_lakehouse::blocks_view::{
    all_inputs_ordered_or_empty, blocks_file_schema_hash, blocks_max_partition_time_delta_nanos, blocks_update_group,
    get_merged_partition_sort_order, insert_time_sort_order, use_ordered_merger,
};
use micromegas_lakehouse::catalog::{
    list_view_sets, view_set_columns, ListViewSetsTableFunction, ListViewSetsTableProvider, ViewSchemaInfo,
};
use micromegas_lakehouse::error::LakehouseError;
use micromegas_lakehouse::jit_freshness::{find_up_to_date_among, freshness_fetch_range, spec_is_up_to_date, PartitionFreshnessRow};
use micromegas_lakehouse::jit_grouping::BlockOrder;
use micromegas_lakehouse::list_partitions::{chunk_candidates, filter_chunk};
use micromegas_lakehouse::net_spans::{prepare_net_spans_write, NetSpansView, NetSpansViewMaker};
use micromegas_lakehouse::partition::Partition;
use micromegas_lakehouse::partition_cache::PartitionCache;
use micromegas_lakehouse::partition_source_data::{BlockMetadata, PartitionSourceBlock, SourceDataBlocksInMemory};
use micromegas_lakehouse::partition_specs::{
    download_concurrency, estimate_row_bytes, write_description, MetadataPartitionSpec, RowChunker, SOURCE_BYTES_PER_BATCH,
};
use micromegas_lakehouse::process_views::{AsyncEventsView, LogView, LogViewMaker, MetricsView, MetricsViewMaker};
use micromegas_lakehouse::query_merger::{
    assert_ordering_satisfied, assert_single_partition, merge_sort_keys, ordering_honored, MergeStrategy, QueryMerger,
};
use micromegas_lakehouse::row_times::time_range;
use micromegas_lakehouse::scan_plan::{
    partition_bounds, plan_partition_scan, sort_and_check_non_overlapping, OrderingBounds, ScanLayout, ScanOrdering,
};
use micromegas_lakehouse::table_functions::{apply_row_limit, GrantVisibility, ListQueryDenialsTableFunction};
use micromegas_lakehouse::time_range::TimeRange;
use micromegas_lakehouse::view::{ScanSortColumn, ViewMetadata};

const PROCESS: &str = "67e55044-10b1-426f-9247-bb680e5fe0c8";
const PROCESS_ID: u128 = 0x67e5504410b1426f9247bb680e5fe0c8;

fn info(name: &str, hash: u8, schema: &str) -> ViewSchemaInfo {
    ViewSchemaInfo { view_set_name: name.to_string(), file_schema_hash: vec![hash], file_schema: schema.to_string() }
}

#[test]
fn view_sets_list_globals_then_makers() {
    let globals = vec![info("processes", 1, "p1"), info("log_entries", 2, "l"), info("processes", 9, "p9")];
    let makers = vec![info("log_entries", 4, "lm"), info("net_spans", 2, "n")];
    let sets = list_view_sets(&globals, &makers).unwrap();
    let names: Vec<&str> = sets.iter().map(|s| s.view_set_name.as_str()).collect();
    assert_eq!(names, vec!["processes", "log_entries", "net_spans"]);
    assert_eq!(sets[0].current_schema_hash, vec![1]);
    assert_eq!(sets[0].schema, "p1");
    assert!(!sets[0].has_view_maker && sets[0].global_instance_available);
    assert!(sets[1].has_view_maker && sets[1].global_instance_available);
    assert_eq!(sets[1].schema, "l");
    assert!(sets[2].has_view_maker && !sets[2].global_instance_available);
    let cols = view_set_columns(&sets);
    assert_eq!(cols.view_set_names, vec!["processes", "log_entries", "net_spans"]);
    assert_eq!(cols.has_view_makers, vec![false, true, true]);
    assert_eq!(cols.global_instances, vec![true, true, false]);
    assert_eq!(cols.schema_hashes, vec![vec![1], vec![2], vec![2]]);
    let provider = ListViewSetsTableProvider { view_factory: () };
    assert_eq!(provider.scan_columns(&globals, &makers).unwrap().schemas, vec!["p1", "l", "n"]);
    let f = ListViewSetsTableFunction::new(7u32);
    assert_eq!(*f.view_factory(), 7);
    let d = ListQueryDenialsTableFunction::new("denials");
    assert_eq!(*d.query_denials(), "denials");
}

#[test]
fn process_scoped_views() {
    let v = LogView::new(PROCESS).unwrap();
    assert_eq!(v.get_view_set_name(), "log_entries");
    assert_eq!(v.get_view_instance_id(), PROCESS);
    assert_eq!(v.process_id(), Some(PROCESS_ID));
    assert_eq!(v.get_file_schema_hash(), vec![4]);
    assert_eq!(v.check_batch_partition_spec(), Err(LakehouseError::BatchPartitionSpecUnsupported));
    assert_eq!(v.jit_update_process(), Ok(Some(PROCESS_ID)));
    assert_eq!(v.get_update_group(), None);
    assert_eq!(v.get_event_time_column_name(), "time");
    assert_eq!(v.get_max_partition_time_delta_nanos(), 3_600_000_000_000);
    let g = LogViewMaker {}.make_view("global").unwrap();
    assert_eq!(g.process_id(), None);
    assert_eq!(g.check_batch_partition_spec(), Ok(()));
    assert_eq!(g.jit_update_process(), Ok(None));
    assert_eq!(g.get_update_group(), Some(2000));
    assert_eq!(LogView::new("bogus").err(), Some(LakehouseError::InvalidViewInstanceId));

    let m = MetricsViewMaker {}.make_view(PROCESS).unwrap();
    assert_eq!(m.get_view_set_name(), "measures");
    assert_eq!(m.get_file_schema_hash(), vec![0]);
    assert_eq!(m.jit_update_process(), Ok(Some(PROCESS_ID)));
    assert_eq!(MetricsView::new("global").unwrap().check_batch_partition_spec(), Ok(()));
    assert_eq!(MetricsView::new("x").err(), Some(LakehouseError::InvalidViewInstanceId));

    let a = AsyncEventsView::new(PROCESS).unwrap();
    assert_eq!(a.get_view_set_name(), "async_events");
    assert_eq!(a.get_file_schema_hash(), vec![1]);
    assert_eq!(a.jit_update_process(), Ok(PROCESS_ID));
    assert_eq!(a.check_batch_partition_spec(), Err(LakehouseError::BatchPartitionSpecUnsupported));
    assert_eq!(a.get_update_group(), None);
    assert_eq!(AsyncEventsView::new("global").err(), Some(LakehouseError::GlobalInstanceUnsupported));
    assert_eq!(AsyncEventsView::new("x").err(), Some(LakehouseError::InvalidViewInstanceId));
}

#[test]
fn net_spans_view() {
    let v = NetSpansView::new(PROCESS).unwrap();
    assert_eq!(v.get_view_set_name(), "net_spans");
    assert_eq!(v.process_id(), PROCESS_ID);
    assert_eq!(v.get_file_schema_hash(), vec![2]);
    assert_eq!(v.get_time_bounds(), ("begin_time".to_string(), "end_time".to_string()));
    assert_eq!(v.jit_config().block_order, BlockOrder::EventTime);
    assert_eq!(NetSpansView::new("global").err(), Some(LakehouseError::GlobalInstanceUnsupported));
    let maker = NetSpansViewMaker::new(());
    assert_eq!(maker.get_schema_hash(), vec![2]);
    assert_eq!(maker.make_view("nope").err(), Some(LakehouseError::InvalidViewInstanceId));
}

fn sblock(stream: u128, insert: i64, begin_ticks: i64, end_ticks: i64) -> PartitionSourceBlock {
    PartitionSourceBlock {
        block: BlockMetadata {
            block_id: insert as u128,
            stream_id: stream,
            process_id: PROCESS_ID,
            begin_time: 0,
            end_time: 0,
            begin_ticks,
            end_ticks,
            nb_objects: 1,
            object_offset: 0,
            payload_size: 10,
            insert_time: insert,
        },
    }
}

#[test]
fn net_spans_write_plans() {
    let spec = SourceDataBlocksInMemory {
        blocks: vec![sblock(3, 20, 0, 10), sblock(3, 10, 10, 15), sblock(3, 30, 40, 50)],
        block_ids_hash: 3i64.to_le_bytes().to_vec(),
    };
    let plan = prepare_net_spans_write(&spec).unwrap();
    assert_eq!(plan.nb_events, 3);
    assert_eq!(plan.insert_range, TimeRange::new(10, 30));
    assert_eq!(plan.stream_id, 3);
    assert_eq!(plan.chains.len(), 2);
    assert_eq!((plan.min_begin_ticks, plan.max_end_ticks), (0, 50));
    let bad_hash = SourceDataBlocksInMemory { blocks: vec![], block_ids_hash: vec![1] };
    assert_eq!(prepare_net_spans_write(&bad_hash).err(), Some(LakehouseError::HashNotObjectCount));
    let empty = SourceDataBlocksInMemory { blocks: vec![], block_ids_hash: 0i64.to_le_bytes().to_vec() };
    assert_eq!(prepare_net_spans_write(&empty).err(), Some(LakehouseError::EmptyBlockList));
    let mixed = SourceDataBlocksInMemory {
        blocks: vec![sblock(3, 1, 0, 1), sblock(4, 2, 1, 2)],
        block_ids_hash: 2i64.to_le_bytes().to_vec(),
    };
    assert_eq!(prepare_net_spans_write(&mixed).err(), Some(LakehouseError::MultipleStreams));
}

fn part(begin: i64, end: i64, rows: i64, path: Option<&str>, sort: Option<Vec<&str>>) -> Partition {
    Partition {
        view_metadata: ViewMetadata { view_set_name: "v".to_string(), view_instance_id: "global".to_string(), file_schema_hash: vec![1] },
        insert_time_range: TimeRange::new(begin, end),
        event_time_range: if rows > 0 { Some(TimeRange::new(begin + 1, end - 1)) } else { None },
        updated: 0,
        file_path: path.map(|p| p.to_string()),
        file_size: 10,
        source_data_hash: vec![],
        num_rows: rows,
        sort_order: sort.map(|v| v.into_iter().map(|s| s.to_string()).collect()),
        max_sort_key_time: None,
    }
}

fn asc(col: &str) -> ScanSortColumn {
    ScanSortColumn { column: col.to_string(), descending: false }
}

#[test]
fn scan_bounds_and_ordering_checks() {
    let p = part(0, 10, 5, Some("a"), None);
    assert_eq!(partition_bounds(&p, OrderingBounds::InsertTime), Some((0, 10)));
    assert_eq!(partition_bounds(&p, OrderingBounds::EventTime), Some((1, 9)));
    let mut q = part(0, 10, 5, Some("a"), None);
    q.max_sort_key_time = Some(20);
    assert_eq!(partition_bounds(&q, OrderingBounds::EventTime), Some((1, 20)));
    assert_eq!(partition_bounds(&part(0, 10, 0, None, None), OrderingBounds::EventTime), None);

    let sorted = sort_and_check_non_overlapping(
        vec![part(20, 30, 1, Some("c"), None), part(0, 10, 1, Some("a"), None), part(10, 20, 1, Some("b"), None)],
        OrderingBounds::InsertTime,
    )
    .unwrap();
    let paths: Vec<&str> = sorted.iter().map(|p| p.file_path.as_deref().unwrap()).collect();
    assert_eq!(paths, vec!["a", "b", "c"]);
    assert_eq!(
        sort_and_check_non_overlapping(
            vec![part(0, 15, 1, Some("a"), None), part(10, 20, 1, Some("b"), None)],
            OrderingBounds::InsertTime
        )
        .err(),
        Some(LakehouseError::OrderingViolated)
    );
    assert!(ScanOrdering::Concatenated { columns: vec![], bounds: OrderingBounds::InsertTime }.declares_concatenated_ordering());
    assert!(!ScanOrdering::Unordered.declares_concatenated_ordering());
}

#[test]
fn scan_layouts() {
    let ps = vec![
        part(10, 20, 1, Some("b"), Some(vec!["time"])),
        part(0, 10, 0, None, None),
        part(0, 10, 1, Some("a"), Some(vec!["time", "id"])),
    ];
    match plan_partition_scan(&ps, &ScanOrdering::Unordered).unwrap() {
        ScanLayout::OneGroup { files, declares_ordering } => {
            assert!(!declares_ordering);
            assert_eq!(files.iter().map(|f| f.path.as_str()).collect::<Vec<_>>(), vec!["b", "a"]);
            assert_eq!(files[0].leading_bounds, None);
        }
        _ => panic!("expected one group"),
    }
    match plan_partition_scan(&ps, &ScanOrdering::PerFile { columns: vec![asc("time")] }).unwrap() {
        ScanLayout::PerFile { files } => assert_eq!(files.len(), 2),
        _ => panic!("expected one group per file"),
    }
    match plan_partition_scan(&ps, &ScanOrdering::PerFile { columns: vec![asc("id")] }).unwrap() {
        ScanLayout::OneGroup { declares_ordering, .. } => assert!(!declares_ordering),
        _ => panic!("an uncertified ordering degrades to one group"),
    }
    let concat = ScanOrdering::Concatenated { columns: vec![asc("time")], bounds: OrderingBounds::InsertTime };
    match plan_partition_scan(&ps, &concat).unwrap() {
        ScanLayout::OneGroup { files, declares_ordering } => {
            assert!(declares_ordering);
            assert_eq!(files.iter().map(|f| f.path.as_str()).collect::<Vec<_>>(), vec!["a", "b"]);
            assert_eq!(files[0].leading_bounds, Some((0, 10)));
        }
        _ => panic!("expected one ordered group"),
    }
    assert!(matches!(plan_partition_scan(&vec![part(0, 10, 0, None, None)], &ScanOrdering::Unordered), Ok(ScanLayout::Empty)));
    assert!(matches!(
        plan_partition_scan(&vec![part(0, 10, 1, None, None)], &ScanOrdering::Unordered),
        Err(LakehouseError::NonEmptyWithoutFilePath)
    ));
}

#[test]
fn merge_query_strategies() {
    let m = QueryMerger::new((), "SELECT * FROM source".to_string());
    assert!(matches!(m.strategy(), MergeStrategy::Concatenate { declared: false }));
    let m = m.with_merge_scan_ordering(ScanOrdering::Concatenated { columns: vec![], bounds: OrderingBounds::EventTime });
    assert!(matches!(m.strategy(), MergeStrategy::Concatenate { declared: true }));
    let m = m.with_merge_scan_ordering(ScanOrdering::PerFile { columns: vec![asc("time")] });
    match m.strategy() {
        MergeStrategy::SortedMerge(c) => assert_eq!(c[0].column, "time"),
        _ => panic!("expected a sorted merge"),
    }
    assert_eq!(m.query, "SELECT * FROM source");
    let keys = merge_sort_keys(&vec![asc("a"), ScanSortColumn { column: "b".to_string(), descending: true }]);
    assert_eq!((keys[0].ascending, keys[0].nulls_first), (true, false));
    assert_eq!((keys[1].ascending, keys[1].nulls_first), (false, true));
    assert!(ordering_honored("ProjectionExec\n  ParquetExec", false));
    assert!(!ordering_honored("SortPreservingMergeExec\n  ParquetExec", false));
    assert!(ordering_honored("SortPreservingMergeExec\n  ParquetExec", true));
    assert!(!ordering_honored("  SortExec: expr=[time]", true));
    assert_eq!(assert_single_partition(1), Ok(()));
    assert_eq!(assert_single_partition(3), Err(LakehouseError::PlanNotSinglePartition));
    assert_eq!(assert_ordering_satisfied(true), Ok(()));
    assert_eq!(assert_ordering_satisfied(false), Err(LakehouseError::OrderingNotSatisfied));
}

#[test]
fn partition_spec_helpers() {
    assert_eq!(download_concurrency(1), 64);
    assert_eq!(download_concurrency(10 * 1024 * 1024), 10);
    assert_eq!(download_concurrency(200 * 1024 * 1024), 1);
    let meta = ViewMetadata { view_set_name: "log_entries".to_string(), view_instance_id: "global".to_string(), file_schema_hash: vec![4] };
    assert_eq!(
        write_description(&meta, TimeRange::new(0, 3_600_000_000_000)),
        "[log_entries, global] 1970-01-01T00:00:00+00:00 1970-01-01T01:00:00+00:00"
    );
    assert_eq!(estimate_row_bytes(&vec![Some(3), None, Some(4)]), 7);
    let mut c = RowChunker::new();
    assert!(!c.has_pending());
    assert!(!c.add_row(10));
    assert!(c.has_pending());
    assert_eq!((c.pending_rows, c.pending_bytes), (1, 10));
    assert!(c.add_row(SOURCE_BYTES_PER_BATCH - 10));
    assert!(!c.has_pending());
    let spec = MetadataPartitionSpec {
        view_metadata: meta,
        insert_range: TimeRange::new(0, 1),
        record_count: 0,
        data_sql: String::new(),
        sort_order: None,
    };
    assert!(spec.is_empty());
    assert_eq!(spec.get_source_data_hash(), 0i64.to_le_bytes().to_vec());
}

#[test]
fn batched_merge_windows() {
    let inputs = vec![
        MergeInput { num_rows: 10, min_event_time: 100, max_event_time: 200 },
        MergeInput { num_rows: 5, min_event_time: 50, max_event_time: 150 },
    ];
    let stats = compute_partition_stats(&inputs).unwrap();
    assert!(stats == PartitionStats { num_rows: 15, min_event_time: 50, max_event_time: 200 });
    assert!(matches!(compute_partition_stats(&vec![]), Err(LakehouseError::EmptyPartitionSet)));
    let ws = merge_batch_windows(stats, 10);
    assert_eq!(ws, vec![TimeRange::new(50, 126), TimeRange::new(126, 202)]);
    assert!(ws.last().unwrap().end > stats.max_event_time);
}

#[test]
fn blocks_view_merge_decisions() {
    assert_eq!(blocks_file_schema_hash(), vec![5]);
    assert_eq!(insert_time_sort_order(), vec!["insert_time".to_string()]);
    assert_eq!(blocks_update_group(), Some(1000));
    assert_eq!(blocks_max_partition_time_delta_nanos(&PartitionCreationStrategy::CreateFromSource), 3_600_000_000_000);
    let cache = PartitionCache::new(vec![], TimeRange::new(0, 1));
    assert_eq!(blocks_max_partition_time_delta_nanos(&PartitionCreationStrategy::MergeExisting(cache)), 86_400_000_000_000);
    let ordered = vec![part(0, 10, 1, Some("a"), Some(vec!["insert_time"])), part(10, 20, 0, None, None)];
    assert!(all_inputs_ordered_or_empty(&ordered));
    assert!(use_ordered_merger(&ordered));
    assert_eq!(get_merged_partition_sort_order(&ordered), Some(vec!["insert_time".to_string()]));
    let empty_only = vec![part(10, 20, 0, None, None)];
    assert!(!use_ordered_merger(&empty_only));
    let unordered = vec![part(0, 10, 1, Some("a"), None)];
    assert!(!all_inputs_ordered_or_empty(&unordered));
    assert_eq!(get_merged_partition_sort_order(&unordered), None);
}

fn scope(name: &str) -> ScopeDesc {
    ScopeDesc { name: name.to_string(), filename: "f.rs".to_string(), target: "t".to_string(), line: 7 }
}

#[test]
fn async_event_blocks() {
    let p = AsyncEventsBlockProcessor {};
    let mut c = p.start_block(4, PROCESS_ID, 1);
    assert_eq!(c.stream_id, PROCESS);
    assert_eq!(c.block_id, "00000000-0000-0000-0000-000000000001");
    assert!(p.finish_block(AsyncEventsBlockProcessor {}.start_block(0, 1, 2)).is_none());
    assert!(c.on_begin_async_scope(scope("a"), 30, 1, 0));
    assert!(c.on_end_async_scope(scope("a"), 10, 1, 0));
    let rows = p.finish_block(c).unwrap();
    assert_eq!((rows.min_time, rows.max_time), (10, 30));
    assert_eq!(rows.rows.len(), 2);
    assert_eq!(rows.rows[0].event_type, "begin");
    assert_eq!(rows.rows[1].event_type, "end");
    assert_eq!(rows.rows[1].line, 7);
    assert_eq!(MetricsBlockProcessor {}.measures_time_range(&vec![5, -3, 9]), Some((-3, 9)));
    assert_eq!(MetricsBlockProcessor {}.measures_time_range(&vec![]), None);
    assert_eq!(time_range(&vec![4]), Some((4, 4)));
}

fn row(begin: i64, end: i64, schema: u8, count: i64) -> PartitionFreshnessRow {
    PartitionFreshnessRow {
        begin_insert_time: begin,
        end_insert_time: end,
        file_schema_hash: vec![schema],
        source_data_hash: count.to_le_bytes().to_vec(),
    }
}

#[test]
fn jit_freshness_checks() {
    let meta = ViewMetadata { view_set_name: "v".to_string(), view_instance_id: PROCESS.to_string(), file_schema_hash: vec![1] };
    let spec = SourceDataBlocksInMemory {
        blocks: vec![sblock(3, 10, 0, 1), sblock(3, 20, 1, 2)],
        block_ids_hash: 2i64.to_le_bytes().to_vec(),
    };
    assert_eq!(spec_is_up_to_date(&meta, &spec, BlockOrder::EventTime, &vec![row(10, 20, 1, 2)]), Ok(true));
    assert_eq!(spec_is_up_to_date(&meta, &spec, BlockOrder::EventTime, &vec![row(10, 20, 1, 3)]), Ok(false));
    assert_eq!(spec_is_up_to_date(&meta, &spec, BlockOrder::InsertTime, &vec![row(10, 20, 1, 3)]), Ok(true));
    assert_eq!(spec_is_up_to_date(&meta, &spec, BlockOrder::EventTime, &vec![row(10, 20, 2, 2)]), Ok(false));
    assert_eq!(spec_is_up_to_date(&meta, &spec, BlockOrder::EventTime, &vec![]), Ok(false));
    assert_eq!(
        spec_is_up_to_date(&meta, &spec, BlockOrder::EventTime, &vec![row(10, 20, 1, 2), row(10, 20, 1, 2)]),
        Ok(false)
    );
    let mut broken = row(10, 20, 1, 2);
    broken.source_data_hash = vec![1];
    assert_eq!(
        spec_is_up_to_date(&meta, &spec, BlockOrder::EventTime, &vec![broken]),
        Err(LakehouseError::HashNotObjectCount)
    );
    let empty = SourceDataBlocksInMemory { blocks: vec![], block_ids_hash: vec![] };
    assert_eq!(spec_is_up_to_date(&meta, &empty, BlockOrder::EventTime, &vec![]), Err(LakehouseError::EmptyBlockList));

    let later = SourceDataBlocksInMemory { blocks: vec![sblock(3, 30, 2, 3)], block_ids_hash: 1i64.to_le_bytes().to_vec() };
    let specs = vec![spec, later];
    assert_eq!(freshness_fetch_range(&specs), Ok(Some(TimeRange::new(10, 30))));
    assert_eq!(freshness_fetch_range(&vec![]), Ok(None));
    let verdicts = find_up_to_date_among(
        &meta,
        BlockOrder::EventTime,
        &specs,
        vec![row(10, 20, 1, 2), row(30, 30, 1, 5)],
    )
    .unwrap();
    assert_eq!(verdicts, vec![true, false]);
}

#[test]
fn jit_freshness_stale_verdicts_stay_stale() {
    let meta = ViewMetadata { view_set_name: "v".to_string(), view_instance_id: PROCESS.to_string(), file_schema_hash: vec![1] };
    let first = SourceDataBlocksInMemory {
        blocks: vec![sblock(3, 100, 0, 1), sblock(3, 110, 1, 2)],
        block_ids_hash: 2i64.to_le_bytes().to_vec(),
    };
    let second = SourceDataBlocksInMemory {
        blocks: vec![sblock(3, 110, 2, 3), sblock(3, 120, 3, 4)],
        block_ids_hash: 2i64.to_le_bytes().to_vec(),
    };
    let specs = vec![first, second];
    // Both specs see two overlapping rows, so both are stale; dropping the row inside the first
    // spec's range leaves each with one matching row, which must not make either up to date.
    let candidates = vec![row(105, 110, 1, 5), row(110, 125, 1, 5)];
    assert_eq!(spec_is_up_to_date(&meta, &specs[0], BlockOrder::InsertTime, &vec![row(110, 125, 1, 5)]), Ok(true));
    assert_eq!(find_up_to_date_among(&meta, BlockOrder::InsertTime, &specs, candidates).unwrap(), vec![false, false]);
}

#[test]
fn table_function_helpers() {
    let mut rows = vec![1, 2, 3, 4];
    apply_row_limit(&mut rows, Some(2));
    assert_eq!(rows, vec![1, 2]);
    apply_row_limit(&mut rows, Some(10));
    assert_eq!(rows, vec![1, 2]);
    apply_row_limit(&mut rows, None);
    assert_eq!(rows, vec![1, 2]);
    assert_eq!(GrantVisibility::All.identity_selectors(), None);
    let held = GrantVisibility::Held(vec!["user:a".to_string(), "*".to_string(), "group:b".to_string()]);
    assert_eq!(held.identity_selectors(), Some(vec!["user:a".to_string(), "group:b".to_string()]));
}

#[test]
fn partition_listing_pages() {
    let instances = vec![PROCESS.to_string(), "global".to_string(), PROCESS.to_string(), "x".to_string()];
    let (row_ids, candidates) = chunk_candidates(&instances);
    assert_eq!(row_ids, vec![Some(PROCESS_ID), None, Some(PROCESS_ID), None]);
    assert_eq!(candidates, vec![PROCESS_ID]);
    let names = vec!["log_entries".to_string(), "log_stats".to_string(), "measures".to_string(), "log_entries".to_string()];
    let guard = AudienceGuard::new(ReadScope::Audiences(vec!["a".to_string()]), false, vec!["log_stats".to_string()]);
    let (kept, reached) = filter_chunk(&guard, &names, &instances, &row_ids, &vec![PROCESS_ID], 0, None);
    assert_eq!(kept, vec![0, 1, 2]);
    assert!(!reached);
    let (kept, reached) = filter_chunk(&guard, &names, &instances, &row_ids, &vec![], 0, None);
    assert_eq!(kept, vec![1]);
    assert!(!reached);
    let (kept, reached) = filter_chunk(&guard, &names, &instances, &row_ids, &vec![PROCESS_ID], 1, Some(3));
    assert_eq!(kept, vec![0, 1]);
    assert!(reached);
}
