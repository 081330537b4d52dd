use micromegas_lakehouse::batch_update::{
    partition_ranges, plan_materialization, regeneration_ranges, verify_force_regeneration_alignment,
    verify_overlapping_partitions, MaterializeAction, PartitionCreationStrategy,
};
use micromegas_lakehouse::error::LakehouseError;
use micromegas_lakehouse::partition_source_data::{block_metadata_of_row, parse_block_id, stream_id_of_row};
use micromegas_lakehouse::merge::{partition_set_stats, prepare_merge};
use micromegas_lakehouse::partition::Partition;
use micromegas_lakehouse::partition_cache::PartitionCache;
use micromegas_lakehouse::partition_source_data::{
    hash_to_object_count, object_count_to_hash, parse_parent_process_id,
};
use micromegas_lakehouse::time_range::TimeRange;
use micromegas_lakehouse::view::{ScanSortColumn, ViewMetadata};

fn meta(set: &str, instance: &str, schema: &[u8]) -> ViewMetadata {
    ViewMetadata {
        view_set_name: set.to_string(),
        view_instance_id: instance.to_string(),
        file_schema_hash: schema.to_vec(),
    }
}

fn part(set: &str, instance: &str, begin: i64, end: i64, hash: Vec<u8>, size: i64) -> Partition {
    Partition {
        view_metadata: meta(set, instance, &[1]),
        insert_time_range: TimeRange::new(begin, end),
        event_time_range: Some(TimeRange::new(begin, end)),
        updated: 0,
        file_path: Some(format!("{set}/{instance}/{begin}.parquet")),
        file_size: size,
        source_data_hash: hash,
        num_rows: 10,
        sort_order: None,
        max_sort_key_time: None,
    }
}

fn counted(set: &str, begin: i64, end: i64, count: i64) -> Partition {
    part(set, "global", begin, end, count.to_le_bytes().to_vec(), 100)
}

#[test]
fn object_count_hash_round_trips() {
    for v in [0i64, 1, 42, -1, i64::MAX, i64::MIN, 123_456_789] {
        let h = object_count_to_hash(v);
        assert_eq!(h, v.to_le_bytes().to_vec());
        assert_eq!(hash_to_object_count(&h), Ok(v));
    }
    assert_eq!(hash_to_object_count(&[1, 2, 3]), Err(LakehouseError::HashNotObjectCount));
    assert_eq!(hash_to_object_count(&[]), Err(LakehouseError::HashNotObjectCount));
}

#[test]
fn parent_process_id_parsing() {
    assert_eq!(parse_parent_process_id(""), Ok(None));
    assert_eq!(
        parse_parent_process_id("67e55044-10b1-426f-9247-bb680e5fe0c8"),
        Ok(Some(0x67e5504410b1426f9247bb680e5fe0c8u128))
    );
    assert_eq!(
        parse_parent_process_id("not-a-uuid"),
        Err(LakehouseError::InvalidParentProcessId)
    );
}

#[test]
fn partition_validation_errors() {
    let ok = counted("log_entries", 0, 10, 3);
    assert_eq!(ok.validate(), Ok(()));

    let mut p = counted("log_entries", 0, 10, 3);
    p.event_time_range = None;
    assert_eq!(p.validate(), Err(LakehouseError::NonEmptyWithoutEventTimeRange));

    let mut p = counted("log_entries", 0, 10, 3);
    p.file_path = None;
    assert_eq!(p.validate(), Err(LakehouseError::NonEmptyWithoutFilePath));

    let mut p = counted("log_entries", 0, 10, 3);
    p.num_rows = 0;
    assert_eq!(p.validate(), Err(LakehouseError::EmptyWithEventTimeRange));

    let mut p = counted("log_entries", 0, 10, 3);
    p.num_rows = 0;
    p.event_time_range = None;
    assert_eq!(p.validate(), Err(LakehouseError::EmptyWithFilePath));

    let mut p = counted("log_entries", 0, 10, 3);
    p.num_rows = -1;
    assert_eq!(p.validate(), Err(LakehouseError::NegativeRowCount));

    let mut p = counted("log_entries", 0, 10, 3);
    p.num_rows = 0;
    p.event_time_range = None;
    p.file_path = None;
    assert_eq!(p.validate(), Ok(()));
    p.max_sort_key_time = Some(5);
    assert_eq!(p.validate(), Err(LakehouseError::SortKeyWithoutEventTimeRange));
}

#[test]
fn partition_accessors_and_sort_certification() {
    let mut p = counted("log_entries", 5, 15, 3);
    assert_eq!(p.begin_insert_time(), 5);
    assert_eq!(p.end_insert_time(), 15);
    assert_eq!(p.min_event_time(), Some(5));
    assert_eq!(p.max_event_time(), Some(15));
    assert!(!p.is_empty());
    let cols = vec![ScanSortColumn { column: "time".to_string(), descending: false }];
    assert!(!p.certifies_sort_order(&cols));
    p.sort_order = Some(vec!["time".to_string(), "process_id".to_string()]);
    assert!(p.certifies_sort_order(&cols));
    assert!(!p.certifies_sort_order(&vec![]));
    let desc = vec![ScanSortColumn { column: "time".to_string(), descending: true }];
    assert!(!p.certifies_sort_order(&desc));
    let other = vec![ScanSortColumn { column: "process_id".to_string(), descending: false }];
    assert!(!p.certifies_sort_order(&other));
    p.num_rows = 0;
    assert!(p.certifies_sort_order(&desc));
}

#[test]
fn cache_filters_and_fetch() {
    let cache = PartitionCache::new(
        vec![
            counted("a", 0, 10, 1),
            counted("b", 0, 10, 1),
            counted("a", 10, 20, 1),
            counted("a", 30, 40, 1),
        ],
        TimeRange::new(0, 40),
    );
    assert_eq!(cache.len(), 4);
    let f = cache.filter("a", "global", &[1], TimeRange::new(5, 15));
    assert_eq!(f.partitions.len(), 2);
    assert_eq!(f.partitions[1].begin_insert_time(), 10);
    assert_eq!(cache.filter("a", "global", &[2], TimeRange::new(5, 15)).len(), 0);
    assert_eq!(cache.filter_insert_range(TimeRange::new(0, 5)).len(), 2);
    assert_eq!(cache.filter_inside_range("a", "global", TimeRange::new(0, 20)).len(), 2);
    assert_eq!(cache.filter_inside_range("a", "global", TimeRange::new(5, 20)).len(), 1);
    assert_eq!(
        cache.fetch("a", "global", Some(TimeRange::new(0, 50)), vec![1]).err(),
        Some(LakehouseError::RangeOutsideCache)
    );
    assert_eq!(cache.fetch("a", "global", Some(TimeRange::new(0, 12)), vec![1]).unwrap().len(), 2);
    assert_eq!(cache.fetch("a", "global", None, vec![1]).unwrap().len(), 3);
}

#[test]
fn overlapping_partitions_strategy() {
    let range = TimeRange::new(0, 20);
    let source = 5i64.to_le_bytes();
    // nothing there: create from source
    let empty = PartitionCache::new(vec![], range);
    let s = verify_overlapping_partitions(&empty, range, "a", "global", &[1], &source).unwrap();
    assert!(matches!(s, PartitionCreationStrategy::CreateFromSource));
    // counts match and several partitions: merge them
    let two = PartitionCache::new(vec![counted("a", 0, 10, 2), counted("a", 10, 20, 3)], range);
    match verify_overlapping_partitions(&two, range, "a", "global", &[1], &source).unwrap() {
        PartitionCreationStrategy::MergeExisting(c) => assert_eq!(c.partitions.len(), 2),
        _ => panic!("expected a merge"),
    }
    // counts differ: recreate
    let s = verify_overlapping_partitions(&two, range, "a", "global", &[1], &6i64.to_le_bytes()).unwrap();
    assert!(matches!(s, PartitionCreationStrategy::CreateFromSource));
    // a single matching partition: up to date
    let one = PartitionCache::new(vec![counted("a", 0, 20, 5)], range);
    let s = verify_overlapping_partitions(&one, range, "a", "global", &[1], &source).unwrap();
    assert!(matches!(s, PartitionCreationStrategy::Abort));
    // a partition reaching outside: abort
    let wide = PartitionCache::new(vec![counted("a", 0, 30, 5)], range);
    let s = verify_overlapping_partitions(&wide, range, "a", "global", &[1], &source).unwrap();
    assert!(matches!(s, PartitionCreationStrategy::Abort));
    // a legacy hash: recreate
    let legacy = PartitionCache::new(vec![part("a", "global", 0, 20, vec![9, 9], 1)], range);
    let s = verify_overlapping_partitions(&legacy, range, "a", "global", &[1], &source).unwrap();
    assert!(matches!(s, PartitionCreationStrategy::CreateFromSource));
    // a source hash that is not a count
    assert_eq!(
        verify_overlapping_partitions(&empty, range, "a", "global", &[1], &[1, 2]).err(),
        Some(LakehouseError::HashNotObjectCount)
    );
}

#[test]
fn materialization_plans() {
    let range = TimeRange::new(0, 100);
    assert!(plan_materialization(&PartitionCreationStrategy::Abort, 10, range) == MaterializeAction::Done);
    assert!(plan_materialization(&PartitionCreationStrategy::CreateFromSource, 100, range) == MaterializeAction::WriteFromSource);
    assert!(plan_materialization(&PartitionCreationStrategy::CreateFromSource, 10, range) == MaterializeAction::SubdivideRange);
    let subs = PartitionCache::new(vec![counted("a", 0, 50, 1), counted("a", 50, 100, 1)], range);
    assert!(plan_materialization(&PartitionCreationStrategy::MergeExisting(subs), 50, range) == MaterializeAction::Done);
    let mixed = PartitionCache::new(vec![counted("a", 0, 50, 1), counted("a", 50, 100, 1)], range);
    assert!(plan_materialization(&PartitionCreationStrategy::MergeExisting(mixed), 25, range) == MaterializeAction::SubdivideRange);
    let whole = PartitionCache::new(vec![counted("a", 0, 50, 1), counted("a", 50, 100, 1)], range);
    assert!(plan_materialization(&PartitionCreationStrategy::MergeExisting(whole), 100, range) == MaterializeAction::MergeExisting);
}

#[test]
fn partition_ranges_tile_the_range() {
    let rs = partition_ranges(TimeRange::new(100, 160), 20);
    assert_eq!(rs, vec![TimeRange::new(100, 120), TimeRange::new(120, 140), TimeRange::new(140, 160)]);
    let rs = partition_ranges(TimeRange::new(0, 50), 20);
    assert_eq!(rs, vec![TimeRange::new(0, 20), TimeRange::new(20, 40)]);
    assert!(partition_ranges(TimeRange::new(10, 0), 5).is_empty());
    for w in rs.windows(2) {
        assert_eq!(w[0].end, w[1].begin);
    }
}

#[test]
fn regeneration_needs_an_exact_tiling() {
    assert_eq!(regeneration_ranges(TimeRange::new(0, 60), 20).unwrap().len(), 3);
    assert_eq!(regeneration_ranges(TimeRange::new(0, 50), 20).err(), Some(LakehouseError::DeltaDoesNotTileRange));
    assert_eq!(regeneration_ranges(TimeRange::new(0, 10), 20).err(), Some(LakehouseError::DeltaDoesNotTileRange));
    assert_eq!(regeneration_ranges(TimeRange::new(0, 10), 0).err(), Some(LakehouseError::DeltaDoesNotTileRange));
    let cache = PartitionCache::new(vec![counted("a", 0, 30, 1), counted("b", 0, 30, 1)], TimeRange::new(0, 30));
    assert_eq!(verify_force_regeneration_alignment(&cache, TimeRange::new(0, 30), "a", "global"), Ok(()));
    assert_eq!(
        verify_force_regeneration_alignment(&cache, TimeRange::new(0, 20), "a", "global"),
        Err(LakehouseError::PartialOverlap)
    );
    assert_eq!(verify_force_regeneration_alignment(&cache, TimeRange::new(0, 20), "c", "global"), Ok(()));
}

#[test]
fn merge_stats_sum_counts_and_hash_legacy_bytes() {
    let ps = vec![counted("a", 0, 10, 2), counted("a", 10, 20, 3)];
    assert_eq!(partition_set_stats(&[1], &ps), Ok((200, 5)));
    let legacy = vec![part("a", "global", 0, 10, vec![7, 7, 7], 11)];
    let expected = xxhash_rust::xxh32::xxh32(&[7, 7, 7], 0) as i64;
    assert_eq!(partition_set_stats(&[1], &legacy), Ok((11, expected)));
    assert_ne!(expected, 0);
    assert_eq!(partition_set_stats(&[2], &ps), Err(LakehouseError::IncompatibleFileSchema));
}

#[test]
fn merge_plan_orders_partitions() {
    let cache = PartitionCache::new(
        vec![counted("a", 10, 20, 3), counted("a", 0, 10, 2), counted("a", 20, 40, 1)],
        TimeRange::new(0, 40),
    );
    let plan = prepare_merge(&cache, &[1], "a", "global", TimeRange::new(0, 20)).unwrap().unwrap();
    assert_eq!(plan.partitions.len(), 2);
    assert_eq!(plan.partitions[0].begin_insert_time(), 0);
    assert_eq!(plan.partitions[1].begin_insert_time(), 10);
    assert_eq!(plan.sum_size, 200);
    assert_eq!(plan.source_hash, 5);
    assert_eq!(plan.source_data_hash, 5i64.to_le_bytes().to_vec());
    assert!(prepare_merge(&cache, &[1], "a", "global", TimeRange::new(0, 10)).unwrap().is_none());
    assert_eq!(
        prepare_merge(&cache, &[2], "a", "global", TimeRange::new(0, 20)).err(),
        Some(LakehouseError::IncompatibleFileSchema)
    );
}

#[test]
fn block_rows_parse_their_ids() {
    let b = "67e55044-10b1-426f-9247-bb680e5fe0c8";
    let st = "00000000-0000-0000-0000-000000000002";
    let p = "00000000-0000-0000-0000-000000000003";
    let m = block_metadata_of_row(b, st, p, 10, 20, 30, 40, 5, 6, 7, 8).unwrap();
    assert_eq!(m.block_id, 0x67e5504410b1426f9247bb680e5fe0c8);
    assert_eq!((m.stream_id, m.process_id), (2, 3));
    assert_eq!((m.begin_time, m.end_time, m.begin_ticks, m.end_ticks), (10, 20, 30, 40));
    assert_eq!((m.nb_objects, m.object_offset, m.payload_size, m.insert_time), (5, 6, 7, 8));
    assert_eq!(block_metadata_of_row("x", st, p, 0, 0, 0, 0, 0, 0, 0, 0).err(), Some(LakehouseError::InvalidRowId));
    assert_eq!(block_metadata_of_row(b, st, "", 0, 0, 0, 0, 0, 0, 0, 0).err(), Some(LakehouseError::InvalidRowId));
    assert_eq!(stream_id_of_row(st), Ok(2));
    assert_eq!(stream_id_of_row("stream"), Err(LakehouseError::InvalidRowId));
    assert_eq!(parse_block_id(b), Ok(0x67e5504410b1426f9247bb680e5fe0c8));
    assert_eq!(parse_block_id("abc"), Err("parse_block: 'abc' is not a valid block id".to_string()));
}
