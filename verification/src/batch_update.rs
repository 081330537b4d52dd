use vstd::prelude::*;
use crate::error::LakehouseError;
use crate::partition::{partitions_view, Partition, PartitionView};
use crate::partition_cache::{keeps, of_view, overlaps_insert_range, selected, PartitionCache, Selection};
use crate::partition_source_data::{hash_to_object_count, le_value};
use crate::time_range::TimeRange;
use crate::view::str_eq;

verus! {

/// Defines the strategy for creating a new partition.
pub enum PartitionCreationStrategy {
    /// Create the partition from the source data.
    CreateFromSource,
    /// Merge existing partitions.
    MergeExisting(PartitionCache),
    /// Abort the partition creation.
    Abort,
}

/// The kind of a strategy, as a value.
#[derive(PartialEq, Eq, Structural)]
pub enum StrategyKind {
    CreateFromSource,
    MergeExisting,
    Abort,
}

impl PartitionCreationStrategy {
    pub open spec fn kind(&self) -> StrategyKind {
        match self {
            PartitionCreationStrategy::CreateFromSource => StrategyKind::CreateFromSource,
            PartitionCreationStrategy::MergeExisting(_) => StrategyKind::MergeExisting,
            PartitionCreationStrategy::Abort => StrategyKind::Abort,
        }
    }
}

/// The partition reaches outside `range`: it overlaps it only partly.
pub open spec fn partly_outside(p: PartitionView, range: TimeRange) -> bool {
    p.insert_time_range.begin < range.begin || p.insert_time_range.end > range.end
}

/// The partition settles the decision on its own: it only partly overlaps the range (abort), or
/// its source hash is not an object count (recreate).
pub open spec fn decides(p: PartitionView, range: TimeRange) -> bool {
    partly_outside(p, range) || p.source_data_hash.len() != 8
}

pub open spec fn is_first_decider(ps: Seq<PartitionView>, range: TimeRange, k: int) -> bool {
    &&& 0 <= k < ps.len()
    &&& decides(ps[k], range)
    &&& forall|j: int| 0 <= j < k ==> !decides(#[trigger] ps[j], range)
}

/// Sum of the object counts the partitions' hashes record.
pub open spec fn sum_counts(ps: Seq<PartitionView>) -> int
    decreases ps.len(),
{
    if ps.len() == 0 {
        0
    } else {
        sum_counts(ps.drop_last()) + le_value(ps.last().source_data_hash) as int
    }
}

/// Whether existing partitions of the view cover `range` with the source data's object count:
/// none found means create from source; one reaching outside the range means abort; one with a
/// hash that is not an object count means recreate; object counts that differ from the source's
/// mean recreate; several matching ones mean merge them; a single matching one means it is
/// already up to date (abort).
pub open spec fn spec_strategy(filtered: Seq<PartitionView>, range: TimeRange, source_data_hash: Seq<u8>) -> Result<StrategyKind, LakehouseError> {
    if source_data_hash.len() != 8 {
        Err(LakehouseError::HashNotObjectCount)
    } else if filtered.len() == 0 {
        Ok(StrategyKind::CreateFromSource)
    } else if exists|k: int| is_first_decider(filtered, range, k) {
        let k = choose|k: int| is_first_decider(filtered, range, k);
        if partly_outside(filtered[k], range) {
            Ok(StrategyKind::Abort)
        } else {
            Ok(StrategyKind::CreateFromSource)
        }
    } else if le_value(source_data_hash) as int != sum_counts(filtered) {
        Ok(StrategyKind::CreateFromSource)
    } else if filtered.len() > 1 {
        Ok(StrategyKind::MergeExisting)
    } else {
        Ok(StrategyKind::Abort)
    }
}

proof fn lemma_first_decider_unique(ps: Seq<PartitionView>, range: TimeRange, k1: int, k2: int)
    requires
        is_first_decider(ps, range, k1),
        is_first_decider(ps, range, k2),
    ensures
        k1 == k2,
{
    if k1 < k2 {
        assert(!decides(ps[k1], range));
    } else if k2 < k1 {
        assert(!decides(ps[k2], range));
    }
}

/// Decides how to (re)materialize the partition covering `insert_range` of a view, from the
/// partitions of all views already known for that range.
pub fn verify_overlapping_partitions(
    existing_partitions_all_views: &PartitionCache,
    insert_range: TimeRange,
    view_set_name: &str,
    view_instance_id: &str,
    file_schema_hash: &[u8],
    source_data_hash: &[u8],
) -> (r: Result<PartitionCreationStrategy, LakehouseError>)
    ensures
        ({
            let filtered = selected(
                Selection::ViewOverlapping { view_set_name: view_set_name@, view_instance_id: view_instance_id@, file_schema_hash: file_schema_hash@, range: insert_range },
                partitions_view(existing_partitions_all_views.partitions@),
            );
            match spec_strategy(filtered, insert_range, source_data_hash@) {
                Err(e) => r == Err::<PartitionCreationStrategy, LakehouseError>(e),
                Ok(kind) => r is Ok && r->Ok_0.kind() == kind && (r->Ok_0 matches PartitionCreationStrategy::MergeExisting(c)
                    ==> partitions_view(c.partitions@) == filtered && c.insert_range == insert_range),
            }
        }),
{
    if source_data_hash.len() != 8 {
        return Err(LakehouseError::HashNotObjectCount);
    }
    let nb_source_events = hash_to_object_count(source_data_hash)?;
    let filtered = existing_partitions_all_views.filter(view_set_name, view_instance_id, file_schema_hash, insert_range);
    let ghost fv = partitions_view(filtered.partitions@);
    if filtered.partitions.len() == 0 {
        return Ok(PartitionCreationStrategy::CreateFromSource);
    }
    let mut existing_source_hash: i128 = 0;
    let nb_existing_partitions = filtered.partitions.len();
    let mut i: usize = 0;
    while i < filtered.partitions.len()
        invariant
            i <= fv.len(),
            fv == partitions_view(filtered.partitions@),
            fv == selected(
                Selection::ViewOverlapping { view_set_name: view_set_name@, view_instance_id: view_instance_id@, file_schema_hash: file_schema_hash@, range: insert_range },
                partitions_view(existing_partitions_all_views.partitions@),
            ),
            fv.len() > 0,
            source_data_hash@.len() == 8,
            forall|j: int| 0 <= j < i ==> !decides(#[trigger] fv[j], insert_range),
            existing_source_hash == sum_counts(fv.subrange(0, i as int)),
            -0x8000_0000_0000_0000 * i <= existing_source_hash <= 0x8000_0000_0000_0000 * i,
        decreases fv.len() - i,
    {
        let part = &filtered.partitions[i];
        assert(part@ == fv[i as int]);
        let begin = part.begin_insert_time();
        let end = part.end_insert_time();
        if begin < insert_range.begin || end > insert_range.end {
            proof {
                assert(is_first_decider(fv, insert_range, i as int));
                let k = choose|k: int| is_first_decider(fv, insert_range, k);
                lemma_first_decider_unique(fv, insert_range, i as int, k);
            }
            return Ok(PartitionCreationStrategy::Abort);
        }
        if part.source_data_hash.len() == 8 {
            let c = hash_to_object_count(part.source_data_hash.as_slice())?;
            proof {
                assert(fv.subrange(0, i + 1).drop_last() =~= fv.subrange(0, i as int));
            }
            existing_source_hash = existing_source_hash + c as i128;
        } else {
            proof {
                assert(is_first_decider(fv, insert_range, i as int));
                let k = choose|k: int| is_first_decider(fv, insert_range, k);
                lemma_first_decider_unique(fv, insert_range, i as int, k);
            }
            return Ok(PartitionCreationStrategy::CreateFromSource);
        }
        i = i + 1;
    }
    proof {
        assert(fv.subrange(0, i as int) =~= fv);
        assert(!exists|k: int| is_first_decider(fv, insert_range, k));
    }
    if nb_source_events as i128 != existing_source_hash {
        return Ok(PartitionCreationStrategy::CreateFromSource);
    }
    if nb_existing_partitions > 1 {
        return Ok(PartitionCreationStrategy::MergeExisting(filtered));
    }
    Ok(PartitionCreationStrategy::Abort)
}

proof fn lemma_first_decider_exists(ps: Seq<PartitionView>, range: TimeRange, k: int)
    requires
        0 <= k < ps.len(),
        decides(ps[k], range),
    ensures
        exists|f: int| is_first_decider(ps, range, f),
    decreases k,
{
    if exists|j: int| 0 <= j < k && decides(#[trigger] ps[j], range) {
        let j = choose|j: int| 0 <= j < k && decides(#[trigger] ps[j], range);
        lemma_first_decider_exists(ps, range, j);
    } else {
        assert(is_first_decider(ps, range, k));
    }
}

/// The strategy never writes over a partition that reaches outside the range. Scanning the
/// matching partitions in order, the first one that starts before `range.begin` or ends after
/// `range.end`, with every earlier one inside the range and carrying an object count, makes the
/// strategy `Abort`. So `MergeExisting` is chosen only when every matching partition lies inside
/// the range and carries an object count, and `CreateFromSource` only when each matching
/// partition that reaches outside the range comes after one whose hash is not an object count.
pub proof fn strategy_respects_partition_bounds(filtered: Seq<PartitionView>, range: TimeRange, source_data_hash: Seq<u8>)
    ensures
        forall|k: int| 0 <= k < filtered.len() && source_data_hash.len() == 8
            && ((#[trigger] filtered[k]).insert_time_range.begin < range.begin || filtered[k].insert_time_range.end > range.end)
            && (forall|j: int| 0 <= j < k ==> range.begin <= (#[trigger] filtered[j]).insert_time_range.begin
                && filtered[j].insert_time_range.end <= range.end && filtered[j].source_data_hash.len() == 8)
            ==> spec_strategy(filtered, range, source_data_hash) == Ok::<StrategyKind, LakehouseError>(StrategyKind::Abort),
        spec_strategy(filtered, range, source_data_hash) == Ok::<StrategyKind, LakehouseError>(StrategyKind::MergeExisting) ==>
            forall|k: int| 0 <= k < filtered.len() ==> range.begin <= (#[trigger] filtered[k]).insert_time_range.begin
                && filtered[k].insert_time_range.end <= range.end && filtered[k].source_data_hash.len() == 8,
        spec_strategy(filtered, range, source_data_hash) == Ok::<StrategyKind, LakehouseError>(StrategyKind::CreateFromSource) ==>
            forall|k: int| 0 <= k < filtered.len()
                && ((#[trigger] filtered[k]).insert_time_range.begin < range.begin || filtered[k].insert_time_range.end > range.end)
                ==> exists|j: int| 0 <= j < k && (#[trigger] filtered[j]).source_data_hash.len() != 8,
{
    assert forall|k: int| 0 <= k < filtered.len() && source_data_hash.len() == 8
        && ((#[trigger] filtered[k]).insert_time_range.begin < range.begin || filtered[k].insert_time_range.end > range.end)
        && (forall|j: int| 0 <= j < k ==> range.begin <= (#[trigger] filtered[j]).insert_time_range.begin
            && filtered[j].insert_time_range.end <= range.end && filtered[j].source_data_hash.len() == 8)
        implies spec_strategy(filtered, range, source_data_hash) == Ok::<StrategyKind, LakehouseError>(StrategyKind::Abort) by {
        assert forall|j: int| 0 <= j < k implies !decides(#[trigger] filtered[j], range) by {
            assert(range.begin <= filtered[j].insert_time_range.begin);
        }
        assert(is_first_decider(filtered, range, k));
        let f = choose|f: int| is_first_decider(filtered, range, f);
        lemma_first_decider_unique(filtered, range, k, f);
    }
    if spec_strategy(filtered, range, source_data_hash) == Ok::<StrategyKind, LakehouseError>(StrategyKind::MergeExisting) {
        assert forall|k: int| 0 <= k < filtered.len() implies range.begin <= (#[trigger] filtered[k]).insert_time_range.begin
            && filtered[k].insert_time_range.end <= range.end && filtered[k].source_data_hash.len() == 8 by {
            if decides(filtered[k], range) {
                lemma_first_decider_exists(filtered, range, k);
            }
        }
    }
    if spec_strategy(filtered, range, source_data_hash) == Ok::<StrategyKind, LakehouseError>(StrategyKind::CreateFromSource) {
        assert forall|k: int| 0 <= k < filtered.len()
            && ((#[trigger] filtered[k]).insert_time_range.begin < range.begin || filtered[k].insert_time_range.end > range.end)
            implies exists|j: int| 0 <= j < k && (#[trigger] filtered[j]).source_data_hash.len() != 8 by {
            lemma_first_decider_exists(filtered, range, k);
            let f = choose|f: int| is_first_decider(filtered, range, f);
            if k < f {
                assert(!decides(filtered[k], range));
            }
            assert(f != k);
            assert(filtered[f].source_data_hash.len() != 8);
        }
    }
}

/// When every matching partition lies inside the range and records an object count, the counts
/// decide: if they do not add up to the source's object count the partition is recreated from the
/// source; if they do, several partitions are merged and a single one is already up to date. No
/// matching partition at all means creating from the source; a source hash that is not an object
/// count is refused.
pub proof fn strategy_from_object_counts(filtered: Seq<PartitionView>, range: TimeRange, source_data_hash: Seq<u8>)
    ensures
        source_data_hash.len() != 8 ==> spec_strategy(filtered, range, source_data_hash) == Err::<StrategyKind, LakehouseError>(LakehouseError::HashNotObjectCount),
        source_data_hash.len() == 8 && filtered.len() == 0 ==> spec_strategy(filtered, range, source_data_hash) == Ok::<StrategyKind, LakehouseError>(StrategyKind::CreateFromSource),
        source_data_hash.len() == 8 && (forall|k: int| 0 <= k < filtered.len() ==> range.begin <= (#[trigger] filtered[k]).insert_time_range.begin
            && filtered[k].insert_time_range.end <= range.end && filtered[k].source_data_hash.len() == 8) ==> {
            &&& le_value(source_data_hash) as int != sum_counts(filtered) ==> spec_strategy(filtered, range, source_data_hash) == Ok::<StrategyKind, LakehouseError>(StrategyKind::CreateFromSource)
            &&& le_value(source_data_hash) as int == sum_counts(filtered) && filtered.len() > 1 ==> spec_strategy(filtered, range, source_data_hash) == Ok::<StrategyKind, LakehouseError>(StrategyKind::MergeExisting)
            &&& le_value(source_data_hash) as int == sum_counts(filtered) && filtered.len() == 1 ==> spec_strategy(filtered, range, source_data_hash) == Ok::<StrategyKind, LakehouseError>(StrategyKind::Abort)
        },
{
    if source_data_hash.len() == 8 && filtered.len() > 0 && (forall|k: int| 0 <= k < filtered.len() ==> range.begin <= (#[trigger] filtered[k]).insert_time_range.begin
        && filtered[k].insert_time_range.end <= range.end && filtered[k].source_data_hash.len() == 8) {
        assert(!exists|f: int| is_first_decider(filtered, range, f)) by {
            if exists|f: int| is_first_decider(filtered, range, f) {
                let f = choose|f: int| is_first_decider(filtered, range, f);
                assert(!decides(filtered[f], range));
            }
        }
    }
}

/// What materializing one partition range does once the strategy is known.
#[derive(PartialEq, Eq, Structural)]
pub enum MaterializeAction {
    /// Nothing to write: up to date, aborted, or already split into sub-partitions.
    Done,
    /// Write the partition from its source data.
    WriteFromSource,
    /// Merge the existing partitions into one.
    MergeExisting,
    /// Materialize the range as sub-partitions of the view's (smaller) partition delta.
    SubdivideRange,
}

/// Every partition spans exactly `delta` nanoseconds of insert time.
pub open spec fn all_span(ps: Seq<PartitionView>, delta: i64) -> bool {
    forall|k: int| 0 <= k < ps.len() ==> (#[trigger] ps[k]).insert_time_range.end - ps[k].insert_time_range.begin == delta
}

pub open spec fn spec_materialize_action(kind: StrategyKind, merge_parts: Seq<PartitionView>, new_delta: i64, range: TimeRange) -> MaterializeAction {
    if kind == StrategyKind::Abort {
        MaterializeAction::Done
    } else if new_delta < range.end - range.begin {
        if kind == StrategyKind::MergeExisting && all_span(merge_parts, new_delta) {
            MaterializeAction::Done
        } else {
            MaterializeAction::SubdivideRange
        }
    } else if kind == StrategyKind::CreateFromSource {
        MaterializeAction::WriteFromSource
    } else {
        MaterializeAction::MergeExisting
    }
}

/// Decides what materializing `insert_range` does given the strategy and the view's maximum
/// partition delta for it (`new_delta`, nanoseconds): a range wider than the delta is split into
/// sub-partitions, unless the partitions to merge already are exactly such sub-partitions.
pub fn plan_materialization(strategy: &PartitionCreationStrategy, new_delta: i64, insert_range: TimeRange) -> (a: MaterializeAction)
    ensures
        a == spec_materialize_action(strategy.kind(), match strategy {
            PartitionCreationStrategy::MergeExisting(c) => partitions_view(c.partitions@),
            _ => Seq::empty(),
        }, new_delta, insert_range),
{
    if let PartitionCreationStrategy::Abort = strategy {
        return MaterializeAction::Done;
    }
    if (new_delta as i128) < (insert_range.end as i128) - (insert_range.begin as i128) {
        if let PartitionCreationStrategy::MergeExisting(cache) = strategy {
            let ghost pv = partitions_view(cache.partitions@);
            let mut all = true;
            let mut i: usize = 0;
            while i < cache.partitions.len()
                invariant
                    i <= pv.len(),
                    pv == partitions_view(cache.partitions@),
                    all == forall|k: int| 0 <= k < i ==> (#[trigger] pv[k]).insert_time_range.end - pv[k].insert_time_range.begin == new_delta,
                decreases pv.len() - i,
            {
                let p = &cache.partitions[i];
                assert(p@ == pv[i as int]);
                if (p.end_insert_time() as i128) - (p.begin_insert_time() as i128) != new_delta as i128 {
                    all = false;
                }
                i = i + 1;
            }
            if all {
                return MaterializeAction::Done;
            }
        }
        return MaterializeAction::SubdivideRange;
    }
    match strategy {
        PartitionCreationStrategy::CreateFromSource => MaterializeAction::WriteFromSource,
        _ => MaterializeAction::MergeExisting,
    }
}

/// Number of whole `delta`-long partitions that fit from the start of `range`.
pub open spec fn nb_partitions_in(range: TimeRange, delta: i64) -> int {
    if range.end >= range.begin {
        (range.end - range.begin) / (delta as int)
    } else {
        0
    }
}

/// The `k`-th partition range of `range` for `delta`.
pub open spec fn partition_slot(range: TimeRange, delta: i64, k: int) -> TimeRange {
    TimeRange { begin: (range.begin + k * delta) as i64, end: (range.begin + (k + 1) * delta) as i64 }
}

/// The consecutive `delta`-long partition ranges starting at `insert_range.begin` and ending no
/// later than `insert_range.end` (what `materialize_partition_range` walks through).
pub fn partition_ranges(insert_range: TimeRange, delta: i64) -> (r: Vec<TimeRange>)
    requires
        delta > 0,
    ensures
        r@.len() == nb_partitions_in(insert_range, delta),
        forall|k: int| 0 <= k < r@.len() ==> #[trigger] r@[k] == partition_slot(insert_range, delta, k),
{
    let mut out: Vec<TimeRange> = Vec::new();
    if insert_range.end < insert_range.begin {
        return out;
    }
    let span: i128 = insert_range.end as i128 - insert_range.begin as i128;
    let count: i128 = span / (delta as i128);
    proof {
        assert(count * delta <= span) by (nonlinear_arith)
            requires count as int == (span as int) / (delta as int), delta > 0, span >= 0;
        assert(count >= 0) by (nonlinear_arith)
            requires count as int == (span as int) / (delta as int), delta > 0, span >= 0;
    }
    let mut begin_part: i64 = insert_range.begin;
    let mut k: i128 = 0;
    while k < count
        invariant
            delta > 0,
            0 <= k <= count,
            span == insert_range.end - insert_range.begin,
            count as int == (span as int) / (delta as int),
            count * delta <= span,
            begin_part == insert_range.begin + k * delta,
            out@.len() == k,
            forall|j: int| 0 <= j < k ==> #[trigger] out@[j] == partition_slot(insert_range, delta, j),
        decreases count - k,
    {
        proof {
            assert((k + 1) * delta <= count * delta) by (nonlinear_arith)
                requires k + 1 <= count, delta > 0;
            assert((k + 1) * delta == k * delta + delta) by (nonlinear_arith);
        }
        let end_part = begin_part + delta;
        out.push(TimeRange::new(begin_part, end_part));
        begin_part = end_part;
        k = k + 1;
    }
    out
}

/// Law: the partition ranges are consecutive and `delta` long, start at the range's begin, and,
/// when `delta` divides the range's span, end exactly at its end.
pub proof fn partition_ranges_tile(insert_range: TimeRange, delta: i64, rs: Seq<TimeRange>)
    requires
        delta > 0,
        rs.len() == nb_partitions_in(insert_range, delta),
        forall|k: int| 0 <= k < rs.len() ==> #[trigger] rs[k] == partition_slot(insert_range, delta, k),
        insert_range.end - insert_range.begin <= i64::MAX,
    ensures
        forall|k: int| 0 <= k < rs.len() ==> (#[trigger] rs[k]).end - rs[k].begin == delta,
        forall|k: int| 0 <= k < rs.len() - 1 ==> (#[trigger] rs[k]).end == rs[k + 1].begin,
        rs.len() > 0 ==> rs[0].begin == insert_range.begin,
        rs.len() > 0 && (insert_range.end - insert_range.begin) % (delta as int) == 0 ==> rs[rs.len() - 1].end == insert_range.end,
{
    let span = insert_range.end - insert_range.begin;
    let n = rs.len() as int;
    if n > 0 {
        assert(n * delta <= span) by (nonlinear_arith)
            requires n == span / (delta as int), delta > 0, span >= 0;
    }
    assert forall|k: int| 0 <= k < rs.len() implies (#[trigger] rs[k]).end - rs[k].begin == delta by {
        assert((k + 1) * delta <= n * delta) by (nonlinear_arith)
            requires k + 1 <= n, delta > 0;
        assert((k + 1) * delta == k * delta + delta) by (nonlinear_arith);
        assert(k * delta >= 0) by (nonlinear_arith)
            requires k >= 0, delta > 0;
    }
    assert forall|k: int| 0 <= k < rs.len() - 1 implies (#[trigger] rs[k]).end == rs[k + 1].begin by {
        assert((k + 2) * delta <= n * delta) by (nonlinear_arith)
            requires k + 2 <= n, delta > 0;
        assert((k + 1) * delta == k * delta + delta) by (nonlinear_arith);
        assert(k * delta >= 0) by (nonlinear_arith)
            requires k >= 0, delta > 0;
    }
    if n > 0 && span % (delta as int) == 0 {
        assert(n * delta == span) by (nonlinear_arith)
            requires n == span / (delta as int), span % (delta as int) == 0, delta > 0;
    }
}

/// The partition ranges regeneration rewrites: `delta` must exactly tile the range (a positive
/// delta, no longer than the range, dividing its span), else nothing is regenerated.
pub fn regeneration_ranges(insert_range: TimeRange, delta: i64) -> (r: Result<Vec<TimeRange>, LakehouseError>)
    requires
        i64::MIN <= insert_range.end - insert_range.begin <= i64::MAX,
    ensures
        !(delta > 0 && insert_range.end - insert_range.begin >= delta && (insert_range.end - insert_range.begin) % (delta as int) == 0)
            ==> r == Err::<Vec<TimeRange>, LakehouseError>(LakehouseError::DeltaDoesNotTileRange),
        (delta > 0 && insert_range.end - insert_range.begin >= delta && (insert_range.end - insert_range.begin) % (delta as int) == 0)
            ==> r is Ok && r->Ok_0@.len() == nb_partitions_in(insert_range, delta)
            && forall|k: int| 0 <= k < r->Ok_0@.len() ==> #[trigger] r->Ok_0@[k] == partition_slot(insert_range, delta, k),
{
    let span = insert_range.end - insert_range.begin;
    let step = delta;
    if !(step > 0 && span >= step && span % step == 0) {
        return Err(LakehouseError::DeltaDoesNotTileRange);
    }
    Ok(partition_ranges(insert_range, delta))
}

/// Regeneration must fully contain every existing partition of the view it overlaps: fails when
/// one reaches outside `insert_range` (whatever its file schema).
pub fn verify_force_regeneration_alignment(
    existing_partitions_all_views: &PartitionCache,
    insert_range: TimeRange,
    view_set_name: &str,
    view_instance_id: &str,
) -> (r: Result<(), LakehouseError>)
    ensures
        r is Err <==> exists|k: int| 0 <= k < existing_partitions_all_views.partitions@.len() && {
            let p = #[trigger] existing_partitions_all_views.partitions@[k]@;
            overlaps_insert_range(p, insert_range) && of_view(p, view_set_name@, view_instance_id@) && partly_outside(p, insert_range)
        },
        r is Err ==> r == Err::<(), LakehouseError>(LakehouseError::PartialOverlap),
{
    let mut i: usize = 0;
    while i < existing_partitions_all_views.partitions.len()
        invariant
            i <= existing_partitions_all_views.partitions@.len(),
            forall|k: int| 0 <= k < i ==> !({
                let p = #[trigger] existing_partitions_all_views.partitions@[k]@;
                overlaps_insert_range(p, insert_range) && of_view(p, view_set_name@, view_instance_id@) && partly_outside(p, insert_range)
            }),
        decreases existing_partitions_all_views.partitions@.len() - i,
    {
        let part = &existing_partitions_all_views.partitions[i];
        let overlapping = part.insert_time_range.begin < insert_range.end && part.insert_time_range.end > insert_range.begin;
        if overlapping && str_eq(part.view_metadata.view_set_name.as_str(), view_set_name)
            && str_eq(part.view_metadata.view_instance_id.as_str(), view_instance_id) {
            if part.begin_insert_time() < insert_range.begin || part.end_insert_time() > insert_range.end {
                assert({
                    let p = existing_partitions_all_views.partitions@[i as int]@;
                    overlaps_insert_range(p, insert_range) && of_view(p, view_set_name@, view_instance_id@) && partly_outside(p, insert_range)
                });
                return Err(LakehouseError::PartialOverlap);
            }
        }
        i = i + 1;
    }
    Ok(())
}

} // verus!
