use micromegas_lakehouse::log_stats_view::{
    log_stats_ddl_text, log_stats_view_definition, COUNT_SRC_QUERY, EXTRACT_QUERY, MERGE_QUERY,
};
use micromegas_lakehouse::otel_attrs::severity_number_to_level;

#[test]
fn log_stats_definition_values() {
    let def = log_stats_view_definition();
    assert_eq!(def.view_set_name, "log_stats");
    assert_eq!(def.extract_query, EXTRACT_QUERY);
    assert_eq!(def.count_src_query, COUNT_SRC_QUERY);
    assert_eq!(def.merge_partitions_query, MERGE_QUERY);
    assert_eq!(def.update_group, 3000);
    assert_eq!(def.options.min_time_column, "time_bin");
    assert_eq!(def.options.max_time_column, "time_bin");
    assert_eq!(def.options.source_partition_delta, "1 day");
    assert_eq!(def.options.merge_partition_delta, "1 day");
    assert_eq!(
        def.options.merge_sort_order,
        Some(vec![
            "time_bin".to_string(),
            "process_id".to_string(),
            "level".to_string(),
            "target".to_string()
        ])
    );
}

#[test]
fn log_stats_ddl_text_matches_definition() {
    let def = log_stats_view_definition();
    let expected = format!(
        "CREATE MATERIALIZED VIEW {} WITH (\n  extract_query = $${}$$,\n  count_src_query = $${}$$,\n  merge_partitions_query = $${}$$,\n  update_group = {},\n  time_column = '{}',\n  source_partition_delta = '{}',\n  merge_partition_delta = '{}',\n  merge_sort_order = '{}'\n)",
        def.view_set_name,
        def.extract_query,
        def.count_src_query,
        def.merge_partitions_query,
        def.update_group,
        def.options.min_time_column,
        def.options.source_partition_delta,
        def.options.merge_partition_delta,
        "time_bin, process_id, level, target",
    );
    assert_eq!(log_stats_ddl_text(), expected);
    assert!(log_stats_ddl_text().contains("update_group = 3000,"));
    let ddl = log_stats_ddl_text();
    assert!(ddl.starts_with("CREATE MATERIALIZED VIEW log_stats WITH ("));
    assert!(ddl.ends_with(')'));
    assert_eq!(ddl.matches("$$").count(), 6);
    assert_eq!(ddl.matches('$').count(), 12);
    assert!(ddl.contains("time_column = 'time_bin'"));
    assert!(ddl.contains("merge_sort_order = 'time_bin, process_id, level, target'"));
}

#[test]
fn severity_levels_follow_otel_ranges() {
    assert_eq!(severity_number_to_level(0), 6);
    assert_eq!(severity_number_to_level(1), 6);
    assert_eq!(severity_number_to_level(4), 6);
    assert_eq!(severity_number_to_level(5), 5);
    assert_eq!(severity_number_to_level(9), 4);
    assert_eq!(severity_number_to_level(13), 3);
    assert_eq!(severity_number_to_level(17), 2);
    assert_eq!(severity_number_to_level(21), 1);
    assert_eq!(severity_number_to_level(24), 1);
    assert_eq!(severity_number_to_level(25), 1);
    assert_eq!(severity_number_to_level(-3), 1);
}
