use micromegas_lakehouse::error::LakehouseError;
use micromegas_lakehouse::jit_grouping::BlockOrder;
use micromegas_lakehouse::jit_partitions::{
    blocks_insert_time_range, group_blocks_into_partitions, group_contiguous_block_chains,
    partitions_of_window, JitPartitionConfig,
};
use micromegas_lakehouse::jit_windows::{
    batch_windows, jit_insert_range, process_jit_insert_range, split_into_buckets, trunc_to_slice,
};
use micromegas_lakehouse::partition_source_data::{BlockMetadata, PartitionSourceBlock};
use micromegas_lakehouse::time_range::TimeRange;

const HOUR: i64 = 3_600_000_000_000;

fn block(id: u128, nb_objects: i32, insert_time: i64, begin_ticks: i64, end_ticks: i64) -> PartitionSourceBlock {
    PartitionSourceBlock {
        block: BlockMetadata {
            block_id: id,
            stream_id: 7,
            process_id: 9,
            begin_time: begin_ticks,
            end_time: end_ticks,
            begin_ticks,
            end_ticks,
            nb_objects,
            object_offset: 0,
            payload_size: 100,
            insert_time,
        },
    }
}

fn config(max_nb_objects: i64, block_order: BlockOrder) -> JitPartitionConfig {
    JitPartitionConfig {
        max_nb_objects,
        max_insert_time_slice: HOUR,
        block_order,
        target_rows_per_query: 250_000,
    }
}

fn ids(blocks: &[PartitionSourceBlock]) -> Vec<u128> {
    blocks.iter().map(|b| b.block.block_id).collect()
}

#[test]
fn default_jit_config() {
    let c = JitPartitionConfig::default();
    assert_eq!(c.max_nb_objects, 20 * 1024 * 1024);
    assert_eq!(c.max_insert_time_slice, HOUR);
    assert_eq!(c.block_order, BlockOrder::InsertTime);
    assert_eq!(c.target_rows_per_query, 250_000);
}

#[test]
fn truncation_to_slices() {
    assert_eq!(trunc_to_slice(HOUR + 100, HOUR), Ok(HOUR));
    assert_eq!(trunc_to_slice(2 * HOUR, HOUR), Ok(2 * HOUR));
    assert_eq!(trunc_to_slice(-1, HOUR), Ok(-HOUR));
    assert_eq!(trunc_to_slice(5, 0), Err(LakehouseError::TimeTruncation));
    assert_eq!(trunc_to_slice(5, -10), Err(LakehouseError::TimeTruncation));
    assert_eq!(
        jit_insert_range(TimeRange::new(HOUR + 5, 3 * HOUR + 7), HOUR),
        Ok(TimeRange::new(HOUR, 4 * HOUR))
    );
    assert_eq!(jit_insert_range(TimeRange::new(1, 2), 0), Err(LakehouseError::TimeTruncation));
    assert_eq!(process_jit_insert_range(0, 5, HOUR), Ok(None));
    assert_eq!(process_jit_insert_range(5, 0, HOUR), Ok(None));
    assert_eq!(process_jit_insert_range(HOUR + 1, HOUR + 2, HOUR), Ok(Some(TimeRange::new(HOUR, 2 * HOUR))));
}

#[test]
fn buckets_follow_insert_slices() {
    let blocks = vec![
        block(1, 1, 10, 0, 1),
        block(2, 1, 20, 0, 1),
        block(3, 1, HOUR + 1, 0, 1),
        block(4, 1, 2 * HOUR, 0, 1),
        block(5, 1, 2 * HOUR + 3, 0, 1),
    ];
    let buckets = split_into_buckets(blocks, HOUR).unwrap();
    let got: Vec<Vec<u128>> = buckets.iter().map(|b| ids(b)).collect();
    assert_eq!(got, vec![vec![1, 2], vec![3], vec![4, 5]]);
    assert!(split_into_buckets(vec![], HOUR).unwrap().is_empty());
    assert_eq!(split_into_buckets(vec![block(1, 1, 10, 0, 1)], 0).err(), Some(LakehouseError::TimeTruncation));
}

#[test]
fn batch_windows_close_before_the_target() {
    let range = TimeRange::new(0, 4 * HOUR);
    // no counts at all: one window covering the range
    assert_eq!(batch_windows(range, HOUR, &vec![], 10), vec![range]);
    // 6 + 6 would exceed 10: close before the second bucket
    let counts = vec![(0, 6), (HOUR, 6), (3 * HOUR, 3)];
    assert_eq!(
        batch_windows(range, HOUR, &counts, 10),
        vec![TimeRange::new(0, HOUR), TimeRange::new(HOUR, 4 * HOUR)]
    );
    // an oversized bucket stays a batch of its own
    let counts = vec![(HOUR, 50), (2 * HOUR, 1)];
    assert_eq!(
        batch_windows(range, HOUR, &counts, 10),
        vec![TimeRange::new(0, 2 * HOUR), TimeRange::new(2 * HOUR, 4 * HOUR)]
    );
    // windows tile the range
    let ws = batch_windows(range, HOUR, &vec![(0, 9), (HOUR, 9), (2 * HOUR, 9), (3 * HOUR, 9)], 10);
    assert_eq!(ws.len(), 4);
    assert_eq!(ws[0].begin, 0);
    assert_eq!(ws[3].end, 4 * HOUR);
    for w in ws.windows(2) {
        assert_eq!(w[0].end, w[1].begin);
    }
    let big = batch_windows(range, HOUR, &vec![(0, i64::MAX), (HOUR, i64::MAX)], i64::MAX);
    assert_eq!(big, vec![TimeRange::new(0, HOUR), TimeRange::new(HOUR, range.end)]);
}

#[test]
fn insert_order_grouping_cuts_at_the_limit() {
    let blocks = vec![block(1, 3, 1, 0, 1), block(2, 3, 2, 0, 1), block(3, 3, 3, 0, 1)];
    let parts = group_blocks_into_partitions(&config(6, BlockOrder::InsertTime), blocks.clone());
    assert_eq!(parts.len(), 2);
    assert_eq!(ids(&parts[0].blocks), vec![1, 2]);
    assert_eq!(parts[0].block_ids_hash, 6i64.to_le_bytes().to_vec());
    assert_eq!(ids(&parts[1].blocks), vec![3]);
    assert_eq!(parts[1].block_ids_hash, 3i64.to_le_bytes().to_vec());
    let parts = group_blocks_into_partitions(&config(5, BlockOrder::InsertTime), blocks);
    assert_eq!(parts.len(), 3);
    assert!(group_blocks_into_partitions(&config(5, BlockOrder::InsertTime), vec![]).is_empty());
}

#[test]
fn zero_object_windows_emit_nothing() {
    let blocks = vec![block(1, 0, 1, 0, 1), block(2, 0, 2, 0, 1)];
    assert!(group_blocks_into_partitions(&config(5, BlockOrder::InsertTime), blocks).is_empty());
}

#[test]
fn event_order_grouping_sorts_and_stays_insert_safe() {
    // event order reverses insert order: the sort puts block 2 first
    let blocks = vec![block(1, 1, 1, 10, 11), block(2, 1, 2, 0, 1)];
    let parts = group_blocks_into_partitions(&config(100, BlockOrder::EventTime), blocks.clone());
    assert_eq!(parts.len(), 1);
    assert_eq!(ids(&parts[0].blocks), vec![2, 1]);
    // the natural cut would put the later-inserted block first: the window grows instead
    let parts = group_blocks_into_partitions(&config(1, BlockOrder::EventTime), blocks);
    assert_eq!(parts.len(), 1);
    assert_eq!(parts[0].block_ids_hash, 2i64.to_le_bytes().to_vec());
    // ties keep their incoming order
    let ties = vec![block(5, 1, 1, 3, 4), block(6, 1, 2, 3, 4), block(7, 1, 3, 0, 1)];
    let parts = group_blocks_into_partitions(&config(100, BlockOrder::EventTime), ties);
    assert_eq!(ids(&parts[0].blocks), vec![7, 5, 6]);
}

#[test]
fn event_order_partitions_do_not_overlap_in_insert_time() {
    let blocks = vec![
        block(1, 2, 10, 0, 1),
        block(2, 2, 20, 1, 2),
        block(3, 2, 5, 2, 3),
        block(4, 2, 30, 3, 4),
        block(5, 2, 40, 4, 5),
    ];
    let parts = group_blocks_into_partitions(&config(4, BlockOrder::EventTime), blocks);
    let ranges: Vec<TimeRange> = parts.iter().map(|p| blocks_insert_time_range(&p.blocks).unwrap()).collect();
    for w in ranges.windows(2) {
        assert!(w[0].end <= w[1].begin);
    }
    let total: usize = parts.iter().map(|p| p.blocks.len()).sum();
    assert_eq!(total, 5);
}

#[test]
fn insert_time_range_of_blocks() {
    let blocks = vec![block(1, 1, 30, 0, 1), block(2, 1, 10, 0, 1), block(3, 1, 20, 0, 1)];
    assert_eq!(blocks_insert_time_range(&blocks), Ok(TimeRange::new(10, 30)));
    assert_eq!(blocks_insert_time_range(&vec![]), Err(LakehouseError::EmptyBlockList));
}

#[test]
fn contiguous_chains_break_at_gaps() {
    let blocks = vec![
        block(1, 1, 1, 0, 10),
        block(2, 1, 1, 10, 20),
        block(3, 1, 1, 5, 8),
        block(4, 1, 1, 21, 30),
        block(5, 1, 1, 25, 40),
    ];
    let chains = group_contiguous_block_chains(&blocks);
    let got: Vec<Vec<u128>> = chains.iter().map(|c| c.iter().map(|b| b.block_id).collect()).collect();
    assert_eq!(got, vec![vec![1, 2, 3], vec![4, 5]]);
    assert!(group_contiguous_block_chains(&vec![]).is_empty());
}

#[test]
fn window_partitions_follow_buckets() {
    let blocks = vec![
        block(1, 1, 10, 0, 1),
        block(2, 1, 20, 1, 2),
        block(3, 1, HOUR + 5, 2, 3),
        block(4, 1, HOUR + 6, 3, 4),
        block(5, 1, HOUR + 7, 4, 5),
    ];
    let parts = partitions_of_window(&config(2, BlockOrder::InsertTime), blocks).unwrap();
    let got: Vec<Vec<u128>> = parts.iter().map(|p| ids(&p.blocks)).collect();
    assert_eq!(got, vec![vec![1, 2], vec![3, 4], vec![5]]);
    let mut bad = config(2, BlockOrder::InsertTime);
    bad.max_insert_time_slice = 0;
    assert_eq!(partitions_of_window(&bad, vec![block(1, 1, 10, 0, 1)]).err(), Some(LakehouseError::TimeTruncation));
    assert!(partitions_of_window(&bad, vec![]).unwrap().is_empty());
}

#[test]
fn window_partitions_never_overlap_across_buckets() {
    // insert-ordered blocks whose event order is reversed within each bucket
    let blocks = vec![
        block(1, 1, 10, 50, 51),
        block(2, 1, 20, 40, 41),
        block(3, 1, HOUR + 1, 30, 31),
        block(4, 1, HOUR + 2, 20, 21),
        block(5, 1, 2 * HOUR + 3, 10, 11),
    ];
    let parts = partitions_of_window(&config(1, BlockOrder::EventTime), blocks).unwrap();
    let ranges: Vec<TimeRange> = parts.iter().map(|p| blocks_insert_time_range(&p.blocks).unwrap()).collect();
    assert!(ranges.len() >= 3);
    for w in ranges.windows(2) {
        assert!(w[0].end <= w[1].begin);
    }
    assert!(ranges[0].end < HOUR && ranges[ranges.len() - 1].begin >= 2 * HOUR);
}
