use vstd::prelude::*;
use crate::error::LakehouseError;
use crate::time_range::TimeRange;

verus! {

/// What a batched merge reads of a partition: its row count and its event time range.
#[derive(Clone, Copy, PartialEq, Eq, Structural)]
pub struct MergeInput {
    pub num_rows: i64,
    pub min_event_time: i64,
    pub max_event_time: i64,
}

/// The totals of a set of partitions: rows, earliest and latest event time.
#[derive(Clone, Copy, PartialEq, Eq, Structural)]
pub struct PartitionStats {
    pub num_rows: i64,
    pub min_event_time: i64,
    pub max_event_time: i64,
}

/// The total row count of partitions.
pub open spec fn total_rows(s: Seq<MergeInput>) -> int
    decreases s.len(),
{
    if s.len() == 0 { 0 } else { total_rows(s.drop_last()) + s.last().num_rows }
}

/// The earliest event time of non-empty `s`.
pub open spec fn min_event(s: Seq<MergeInput>) -> i64
    decreases s.len(),
{
    if s.len() <= 1 {
        s[0].min_event_time
    } else {
        let m = min_event(s.drop_last());
        if s.last().min_event_time < m { s.last().min_event_time } else { m }
    }
}

/// The latest event time of non-empty `s`.
pub open spec fn max_event(s: Seq<MergeInput>) -> i64
    decreases s.len(),
{
    if s.len() <= 1 {
        s[0].max_event_time
    } else {
        let m = max_event(s.drop_last());
        if s.last().max_event_time > m { s.last().max_event_time } else { m }
    }
}

/// Whether every running total of row counts fits in an `i64`.
pub open spec fn totals_fit(s: Seq<MergeInput>) -> bool {
    forall|k: int| 0 <= k <= s.len() ==> i64::MIN <= #[trigger] total_rows(s.take(k)) <= i64::MAX
}

/// The totals of a set of partitions to merge; an empty set is refused.
pub fn compute_partition_stats(partitions: &Vec<MergeInput>) -> (r: Result<PartitionStats, LakehouseError>)
    requires
        totals_fit(partitions@),
    ensures
        partitions@.len() == 0 ==> r == Err::<PartitionStats, LakehouseError>(LakehouseError::EmptyPartitionSet),
        partitions@.len() > 0 ==> r == Ok::<PartitionStats, LakehouseError>((PartitionStats {
            num_rows: total_rows(partitions@) as i64,
            min_event_time: min_event(partitions@),
            max_event_time: max_event(partitions@),
        })),
{
    if partitions.len() == 0 {
        return Err(LakehouseError::EmptyPartitionSet);
    }
    let first = partitions[0];
    let mut num_rows: i64 = first.num_rows;
    let mut min_t: i64 = first.min_event_time;
    let mut max_t: i64 = first.max_event_time;
    proof {
        assert(partitions@.take(1).drop_last() =~= partitions@.take(0));
        assert(partitions@.take(0) =~= Seq::<MergeInput>::empty());
        assert(partitions@.take(1).last() == first);
        assert(total_rows(partitions@.take(0)) == 0);
        assert(total_rows(partitions@.take(1)) == first.num_rows);
    }
    let mut i: usize = 1;
    while i < partitions.len()
        invariant
            1 <= i <= partitions@.len(),
            totals_fit(partitions@),
            num_rows == total_rows(partitions@.take(i as int)),
            min_t == min_event(partitions@.take(i as int)),
            max_t == max_event(partitions@.take(i as int)),
        decreases partitions@.len() - i,
    {
        let p = partitions[i];
        proof {
            assert(partitions@.take(i + 1).drop_last() =~= partitions@.take(i as int));
            assert(i64::MIN <= total_rows(partitions@.take(i + 1)) <= i64::MAX);
        }
        num_rows = num_rows + p.num_rows;
        if p.min_event_time < min_t {
            min_t = p.min_event_time;
        }
        if p.max_event_time > max_t {
            max_t = p.max_event_time;
        }
        i = i + 1;
    }
    assert(partitions@.take(partitions@.len() as int) =~= partitions@);
    Ok(PartitionStats { num_rows, min_event_time: min_t, max_event_time: max_t })
}

/// The number of batches of a merge: one per `approx_nb_rows_per_batch` rows, plus one.
pub open spec fn spec_nb_batches(stats: PartitionStats, approx_nb_rows_per_batch: i64) -> int {
    stats.num_rows / approx_nb_rows_per_batch + 1
}

/// The event time span of each batch: the stats' span split evenly over the batches, plus one
/// nanosecond so that the last batch reaches past the latest event.
pub open spec fn spec_batch_delta(stats: PartitionStats, approx_nb_rows_per_batch: i64) -> int {
    (stats.max_event_time - stats.min_event_time) / spec_nb_batches(stats, approx_nb_rows_per_batch) + 1
}

/// The event time windows a batched merge queries, in order: `nb_batches` windows of
/// `batch_delta` each from the earliest event time.
pub fn merge_batch_windows(stats: PartitionStats, approx_nb_rows_per_batch: i64) -> (r: Vec<TimeRange>)
    requires
        approx_nb_rows_per_batch > 0,
        stats.num_rows >= 0,
        stats.min_event_time <= stats.max_event_time,
        stats.max_event_time - stats.min_event_time <= i64::MAX,
        spec_nb_batches(stats, approx_nb_rows_per_batch) <= i32::MAX,
        stats.min_event_time + spec_batch_delta(stats, approx_nb_rows_per_batch) * (spec_nb_batches(stats, approx_nb_rows_per_batch) + 1) <= i64::MAX,
    ensures
        r@.len() == spec_nb_batches(stats, approx_nb_rows_per_batch),
        forall|i: int| 0 <= i < r@.len() ==> #[trigger] r@[i] == (TimeRange {
            begin: (stats.min_event_time + spec_batch_delta(stats, approx_nb_rows_per_batch) * i) as i64,
            end: (stats.min_event_time + spec_batch_delta(stats, approx_nb_rows_per_batch) * (i + 1)) as i64,
        }),
{
    let nb_batches: i64 = stats.num_rows / approx_nb_rows_per_batch + 1;
    let span: i64 = stats.max_event_time - stats.min_event_time;
    assert(span / nb_batches <= span) by (nonlinear_arith)
        requires span >= 0, nb_batches >= 1;
    assert(span / nb_batches < i64::MAX) by (nonlinear_arith)
        requires
            span >= 0,
            nb_batches >= 1,
            span / nb_batches <= span,
            stats.min_event_time >= i64::MIN,
            stats.min_event_time + (span / nb_batches + 1) * (nb_batches + 1) <= i64::MAX;
    let delta: i64 = span / nb_batches + 1;
    let ghost d = spec_batch_delta(stats, approx_nb_rows_per_batch);
    let ghost nb = spec_nb_batches(stats, approx_nb_rows_per_batch);
    assert(delta == d);
    assert(d >= 1) by (nonlinear_arith)
        requires d == (stats.max_event_time - stats.min_event_time) / nb + 1, nb >= 1, stats.max_event_time - stats.min_event_time >= 0;
    let mut out: Vec<TimeRange> = Vec::new();
    let mut i: i64 = 0;
    let mut begin: i64 = stats.min_event_time;
    while i < nb_batches
        invariant
            0 <= i <= nb_batches,
            nb_batches == nb,
            delta == d,
            d >= 1,
            stats.min_event_time + d * (nb + 1) <= i64::MAX,
            begin == stats.min_event_time + d * i,
            out@.len() == i,
            forall|k: int| 0 <= k < i ==> #[trigger] out@[k] == (TimeRange {
                begin: (stats.min_event_time + d * k) as i64,
                end: (stats.min_event_time + d * (k + 1)) as i64,
            }),
        decreases nb_batches - i,
    {
        assert(d * (i + 1) <= d * (nb + 1)) by (nonlinear_arith)
            requires d >= 1, i + 1 <= nb + 1;
        assert(d * (i + 1) == d * i + d) by (nonlinear_arith);
        assert(d * i >= 0) by (nonlinear_arith) requires d >= 1, i >= 0;
        let end = begin + delta;
        out.push(TimeRange { begin, end });
        begin = end;
        i = i + 1;
    }
    out
}

/// Law: the windows of a batched merge are consecutive, start at the earliest event time, and
/// the last one ends past the latest event time, so every row of the partitions falls in exactly
/// one window.
pub proof fn merge_batch_windows_cover(stats: PartitionStats, approx_nb_rows_per_batch: i64)
    requires
        approx_nb_rows_per_batch > 0,
        stats.num_rows >= 0,
        stats.min_event_time <= stats.max_event_time,
    ensures
        spec_nb_batches(stats, approx_nb_rows_per_batch) >= 1,
        spec_batch_delta(stats, approx_nb_rows_per_batch) >= 1,
        stats.min_event_time + spec_batch_delta(stats, approx_nb_rows_per_batch) * spec_nb_batches(stats, approx_nb_rows_per_batch)
            > stats.max_event_time,
{
    let nb = spec_nb_batches(stats, approx_nb_rows_per_batch);
    let span = stats.max_event_time - stats.min_event_time;
    let d = spec_batch_delta(stats, approx_nb_rows_per_batch);
    assert(stats.num_rows / approx_nb_rows_per_batch >= 0) by (nonlinear_arith)
        requires stats.num_rows >= 0, approx_nb_rows_per_batch > 0;
    assert(nb >= 1);
    assert(span / nb >= 0) by (nonlinear_arith)
        requires span >= 0, nb >= 1;
    assert(d * nb > span) by (nonlinear_arith)
        requires span >= 0, nb >= 1, d == span / nb + 1;
}

} // verus!
