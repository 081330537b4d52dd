use vstd::prelude::*;
use crate::bytes::{bytes_copy, bytes_eq};
use crate::error::LakehouseError;
use crate::jit_grouping::{max_insert, min_insert, BlockOrder};
use crate::jit_partitions::blocks_insert_time_range;
use crate::partition_source_data::{hash_to_object_count, le_value, spec_object_count, PartitionSourceBlock, SourceDataBlocksInMemory};
use crate::time_range::TimeRange;
use crate::view::ViewMetadata;

verus! {

/// One `lakehouse_partitions` candidate row considered when checking freshness.
pub struct PartitionFreshnessRow {
    pub begin_insert_time: i64,
    pub end_insert_time: i64,
    pub file_schema_hash: Vec<u8>,
    pub source_data_hash: Vec<u8>,
}

/// The values a freshness row holds.
pub struct FreshnessRowView {
    pub begin_insert_time: i64,
    pub end_insert_time: i64,
    pub file_schema_hash: Seq<u8>,
    pub source_data_hash: Seq<u8>,
}

impl View for PartitionFreshnessRow {
    type V = FreshnessRowView;

    open spec fn view(&self) -> FreshnessRowView {
        FreshnessRowView {
            begin_insert_time: self.begin_insert_time,
            end_insert_time: self.end_insert_time,
            file_schema_hash: self.file_schema_hash@,
            source_data_hash: self.source_data_hash@,
        }
    }
}

impl PartitionFreshnessRow {
    pub fn copy(&self) -> (r: PartitionFreshnessRow)
        ensures
            r@ == self@,
    {
        PartitionFreshnessRow {
            begin_insert_time: self.begin_insert_time,
            end_insert_time: self.end_insert_time,
            file_schema_hash: bytes_copy(self.file_schema_hash.as_slice()),
            source_data_hash: bytes_copy(self.source_data_hash.as_slice()),
        }
    }
}

/// The values of a list of rows.
pub open spec fn rows_view(rows: Seq<PartitionFreshnessRow>) -> Seq<FreshnessRowView> {
    rows.map_values(|r: PartitionFreshnessRow| r@)
}

/// Whether a candidate row is one the per-spec check considers, for a spec covering insert times
/// `[min, max]`: the exact range under `EventTime`; under `InsertTime` the exact instant for a
/// degenerate range, an inclusive overlap otherwise.
pub open spec fn row_matches(order: BlockOrder, min: i64, max: i64, r: FreshnessRowView) -> bool {
    match order {
        BlockOrder::EventTime => r.begin_insert_time == min && r.end_insert_time == max,
        BlockOrder::InsertTime => if min == max {
            r.begin_insert_time == min && r.end_insert_time == min
        } else {
            r.begin_insert_time <= max && r.end_insert_time >= min
        },
    }
}

pub open spec fn matching_rows(order: BlockOrder, min: i64, max: i64, rows: Seq<FreshnessRowView>) -> Seq<FreshnessRowView> {
    rows.filter(|r: FreshnessRowView| row_matches(order, min, max, r))
}

/// Every matched row's hash reads as an object count.
pub open spec fn all_hashes_valid(rows: Seq<FreshnessRowView>) -> bool {
    forall|k: int| 0 <= k < rows.len() ==> (#[trigger] rows[k]).source_data_hash.len() == 8
}

/// Whether the partition a spec (blocks, hash) describes is already written and up to date,
/// given the candidate rows and the view's current file schema hash.
pub open spec fn spec_up_to_date(
    file_schema_hash: Seq<u8>,
    blocks: Seq<PartitionSourceBlock>,
    spec_hash: Seq<u8>,
    order: BlockOrder,
    rows: Seq<FreshnessRowView>,
) -> Result<bool, LakehouseError> {
    if blocks.len() == 0 {
        Err(LakehouseError::EmptyBlockList)
    } else {
        let min = min_insert(blocks, 0, blocks.len() as int);
        let max = max_insert(blocks, 0, blocks.len() as int);
        let m = matching_rows(order, min, max, rows);
        if m.len() != 1 {
            if all_hashes_valid(m) {
                Ok(false)
            } else {
                Err(LakehouseError::HashNotObjectCount)
            }
        } else if m[0].file_schema_hash != file_schema_hash {
            Ok(false)
        } else {
            match (spec_object_count(m[0].source_data_hash), spec_object_count(spec_hash)) {
                (Ok(existing), Ok(required)) => Ok(match order {
                    BlockOrder::EventTime => existing == required,
                    BlockOrder::InsertTime => existing >= required,
                }),
                (Err(e), _) => Err(e),
                (_, Err(e)) => Err(e),
            }
        }
    }
}

/// Decides whether a JIT partition spec is already materialized and up to date: exactly one
/// candidate row must match its insert range (see `row_matches`), carry the view's current file
/// schema hash, and cover as many objects (`EventTime`) or at least as many (`InsertTime`).
pub fn spec_is_up_to_date(
    view_meta: &ViewMetadata,
    spec: &SourceDataBlocksInMemory,
    block_order: BlockOrder,
    candidates: &Vec<PartitionFreshnessRow>,
) -> (r: Result<bool, LakehouseError>)
    ensures
        r == spec_up_to_date(view_meta.file_schema_hash@, spec.blocks@, spec.block_ids_hash@, block_order, rows_view(candidates@)),
{
    let range = blocks_insert_time_range(&spec.blocks)?;
    let min_insert_time = range.begin;
    let max_insert_time = range.end;
    let ghost rows = rows_view(candidates@);
    // The matching rows, as indices into `candidates`.
    let mut matches: Vec<usize> = Vec::new();
    let ghost mut mv: Seq<FreshnessRowView> = Seq::empty();
    let mut i: usize = 0;
    while i < candidates.len()
        invariant
            i <= candidates@.len(),
            rows == rows_view(candidates@),
            mv == matching_rows(block_order, min_insert_time, max_insert_time, rows.subrange(0, i as int)),
            matches@.len() == mv.len(),
            forall|k: int| 0 <= k < matches@.len() ==> #[trigger] matches@[k] < candidates@.len() && candidates@[matches@[k] as int]@ == mv[k],
        decreases candidates@.len() - i,
    {
        let c = &candidates[i];
        let keep = match block_order {
            BlockOrder::EventTime => c.begin_insert_time == min_insert_time && c.end_insert_time == max_insert_time,
            BlockOrder::InsertTime => if min_insert_time == max_insert_time {
                c.begin_insert_time == min_insert_time && c.end_insert_time == min_insert_time
            } else {
                c.begin_insert_time <= max_insert_time && c.end_insert_time >= min_insert_time
            },
        };
        proof {
            assert(rows.subrange(0, i + 1) =~= rows.subrange(0, i as int).push(rows[i as int]));
            rows.subrange(0, i as int).lemma_filter_push(rows[i as int], |r: FreshnessRowView| row_matches(block_order, min_insert_time, max_insert_time, r));
            assert(rows[i as int] == candidates@[i as int]@);
            assert(keep == row_matches(block_order, min_insert_time, max_insert_time, rows[i as int]));
        }
        if keep {
            matches.push(i);
            proof {
                mv = mv.push(rows[i as int]);
            }
        }
        i = i + 1;
    }
    proof {
        assert(rows.subrange(0, i as int) =~= rows);
    }
    if matches.len() != 1 {
        let mut k: usize = 0;
        while k < matches.len()
            invariant
                k <= matches@.len(),
                matches@.len() == mv.len(),
                mv.len() != 1,
                rows == rows_view(candidates@),
                mv == matching_rows(block_order, min_insert_time, max_insert_time, rows),
                spec.blocks@.len() > 0,
                min_insert_time == min_insert(spec.blocks@, 0, spec.blocks@.len() as int),
                max_insert_time == max_insert(spec.blocks@, 0, spec.blocks@.len() as int),
                forall|q: int| 0 <= q < matches@.len() ==> #[trigger] matches@[q] < candidates@.len() && candidates@[matches@[q] as int]@ == mv[q],
                forall|q: int| 0 <= q < k ==> (#[trigger] mv[q]).source_data_hash.len() == 8,
            decreases matches@.len() - k,
        {
            let idx = matches[k];
            let count = hash_to_object_count(candidates[idx].source_data_hash.as_slice());
            if count.is_err() {
                assert(!all_hashes_valid(mv)) by {
                    assert(mv[k as int].source_data_hash.len() != 8);
                }
                return Err(LakehouseError::HashNotObjectCount);
            }
            k = k + 1;
        }
        return Ok(false);
    }
    let r = &candidates[matches[0]];
    if !bytes_eq(r.file_schema_hash.as_slice(), view_meta.file_schema_hash.as_slice()) {
        return Ok(false);
    }
    let existing_count = hash_to_object_count(r.source_data_hash.as_slice())?;
    let required_count = hash_to_object_count(spec.block_ids_hash.as_slice())?;
    let up_to_date = match block_order {
        BlockOrder::EventTime => existing_count == required_count,
        BlockOrder::InsertTime => existing_count >= required_count,
    };
    Ok(up_to_date)
}


/// A spec is reported up to date only against exactly one matching row that carries the view's
/// current file schema hash and a readable object count, and only when that row covers the spec's
/// objects: at least as many objects under `InsertTime`, exactly as many under `EventTime`. With
/// one such row, fewer objects than the spec requires always means the partition is stale.
pub proof fn up_to_date_needs_enough_objects(
    fsh: Seq<u8>,
    blocks: Seq<PartitionSourceBlock>,
    spec_hash: Seq<u8>,
    order: BlockOrder,
    rows: Seq<FreshnessRowView>,
)
    requires
        blocks.len() > 0,
    ensures
        ({
            let m = matching_rows(order, min_insert(blocks, 0, blocks.len() as int), max_insert(blocks, 0, blocks.len() as int), rows);
            &&& spec_up_to_date(fsh, blocks, spec_hash, order, rows) == Ok::<bool, LakehouseError>(true) ==> {
                &&& m.len() == 1
                &&& m[0].file_schema_hash == fsh
                &&& m[0].source_data_hash.len() == 8
                &&& spec_hash.len() == 8
                &&& order == BlockOrder::InsertTime ==> le_value(m[0].source_data_hash) >= le_value(spec_hash)
                &&& order == BlockOrder::EventTime ==> le_value(m[0].source_data_hash) == le_value(spec_hash)
            }
            &&& (m.len() == 1 && m[0].file_schema_hash == fsh && m[0].source_data_hash.len() == 8
                && spec_hash.len() == 8 && le_value(m[0].source_data_hash) < le_value(spec_hash))
                ==> spec_up_to_date(fsh, blocks, spec_hash, order, rows) == Ok::<bool, LakehouseError>(false)
        }),
{
}

/// The rows a spec covering insert times `[min, max]` is checked against are exactly the candidate
/// rows recording that same range under `EventTime`; under `InsertTime`, those recording the
/// instant `min` when the spec covers a single instant, and otherwise those whose recorded range
/// meets `[min, max]` (bounds included).
pub proof fn matching_rows_are_the_covering_ones(order: BlockOrder, min: i64, max: i64, rows: Seq<FreshnessRowView>)
    ensures
        ({
            let m = matching_rows(order, min, max, rows);
            let covers = |r: FreshnessRowView| if order == BlockOrder::EventTime {
                r.begin_insert_time == min && r.end_insert_time == max
            } else if min == max {
                r.begin_insert_time == min && r.end_insert_time == min
            } else {
                r.begin_insert_time <= max && min <= r.end_insert_time
            };
            &&& m.len() <= rows.len()
            &&& forall|i: int| 0 <= i < m.len() ==> covers(#[trigger] m[i])
            &&& forall|j: int| 0 <= j < rows.len() && covers(#[trigger] rows[j]) ==> m.contains(rows[j])
        }),
{
    let pred = |r: FreshnessRowView| row_matches(order, min, max, r);
    assert forall|i: int| 0 <= i < rows.filter(pred).len() implies row_matches(order, min, max, #[trigger] rows.filter(pred)[i]) by {
        rows.lemma_filter_pred(pred, i);
    }
    assert forall|j: int| 0 <= j < rows.len() && row_matches(order, min, max, #[trigger] rows[j]) implies rows.filter(pred).contains(rows[j]) by {
        rows.lemma_filter_contains(pred, j);
    }
    rows.lemma_filter_len(pred);
}

// ---------------------------------------------------------------------------------------------
// The batched freshness check (`find_up_to_date_partitions`) over a fetched candidate set.

/// The insert range of a (non-empty) spec.
pub open spec fn spec_range(spec: SourceDataBlocksInMemory) -> (i64, i64) {
    (min_insert(spec.blocks@, 0, spec.blocks@.len() as int), max_insert(spec.blocks@, 0, spec.blocks@.len() as int))
}

/// The verdicts for `specs[..k]`, failing at the first spec whose check fails.
pub open spec fn verdicts_upto(
    fsh: Seq<u8>,
    specs: Seq<SourceDataBlocksInMemory>,
    order: BlockOrder,
    rows: Seq<FreshnessRowView>,
    k: int,
) -> Result<Seq<bool>, LakehouseError>
    decreases k,
{
    if k <= 0 {
        Ok(Seq::empty())
    } else {
        match verdicts_upto(fsh, specs, order, rows, k - 1) {
            Err(e) => Err(e),
            Ok(v) => match spec_up_to_date(fsh, specs[k - 1].blocks@, specs[k - 1].block_ids_hash@, order, rows) {
                Err(e) => Err(e),
                Ok(b) => Ok(v.push(b)),
            },
        }
    }
}

pub open spec fn verdicts(fsh: Seq<u8>, specs: Seq<SourceDataBlocksInMemory>, order: BlockOrder, rows: Seq<FreshnessRowView>) -> Result<Seq<bool>, LakehouseError> {
    verdicts_upto(fsh, specs, order, rows, specs.len() as int)
}

/// A row lies entirely inside the insert range of a spec verdicted stale.
pub open spec fn inside_stale_range(r: FreshnessRowView, ranges: Seq<(i64, i64)>, v: Seq<bool>) -> bool {
    exists|i: int| 0 <= i < v.len() && i < ranges.len() && !v[i] && r.begin_insert_time >= (#[trigger] ranges[i]).0 && r.end_insert_time <= ranges[i].1
}

/// The rows that survive the rewrites the stale specs will make.
pub open spec fn surviving_rows(rows: Seq<FreshnessRowView>, ranges: Seq<(i64, i64)>, v: Seq<bool>) -> Seq<FreshnessRowView> {
    rows.filter(|r: FreshnessRowView| !inside_stale_range(r, ranges, v))
}

/// Pointwise conjunction of two verdict lists: a spec stays up to date only if both say so.
pub open spec fn and_verdicts(v: Seq<bool>, nv: Seq<bool>) -> Seq<bool> {
    Seq::new(v.len(), |i: int| v[i] && nv[i])
}

/// Every verdict true in `a` is true in `b` (same length).
pub open spec fn verdicts_within(a: Seq<bool>, b: Seq<bool>) -> bool {
    a.len() == b.len() && forall|i: int| 0 <= i < a.len() && #[trigger] a[i] ==> b[i]
}

/// Re-runs the verdicts, dropping the rows the stale specs will retire, until no verdict changes.
/// A spec once verdicted stale stays stale: each round's verdicts are combined with the previous
/// ones by `and_verdicts`.
pub open spec fn freshness_fixpoint(
    fsh: Seq<u8>,
    specs: Seq<SourceDataBlocksInMemory>,
    order: BlockOrder,
    ranges: Seq<(i64, i64)>,
    rows: Seq<FreshnessRowView>,
    v: Seq<bool>,
) -> Result<Seq<bool>, LakehouseError>
    decreases rows.len(),
{
    if !v.contains(false) {
        Ok(v)
    } else {
        let next = surviving_rows(rows, ranges, v);
        match verdicts(fsh, specs, order, next) {
            Err(e) => Err(e),
            Ok(nv) => if and_verdicts(v, nv) == v {
                Ok(v)
            } else if next.len() < rows.len() {
                freshness_fixpoint(fsh, specs, order, ranges, next, and_verdicts(v, nv))
            } else {
                Ok(v)
            },
        }
    }
}

/// What `find_up_to_date_partitions` returns for `specs` given the fetched candidate rows.
pub open spec fn spec_find_up_to_date(
    fsh: Seq<u8>,
    specs: Seq<SourceDataBlocksInMemory>,
    order: BlockOrder,
    rows: Seq<FreshnessRowView>,
) -> Result<Seq<bool>, LakehouseError> {
    if exists|i: int| 0 <= i < specs.len() && (#[trigger] specs[i]).blocks@.len() == 0 {
        Err(LakehouseError::EmptyBlockList)
    } else {
        match verdicts(fsh, specs, order, rows) {
            Err(e) => Err(e),
            Ok(v) => freshness_fixpoint(fsh, specs, order, specs.map_values(|s: SourceDataBlocksInMemory| spec_range(s)), rows, v),
        }
    }
}

proof fn lemma_filter_same_len<A>(s: Seq<A>, p: spec_fn(A) -> bool)
    requires
        s.filter(p).len() == s.len(),
    ensures
        s.filter(p) == s,
    decreases s.len(),
{
    reveal(Seq::filter);
    if s.len() > 0 {
        s.drop_last().lemma_filter_len(p);
        if !p(s.last()) {
            assert(false);
        }
        lemma_filter_same_len(s.drop_last(), p);
        assert(s.drop_last().push(s.last()) =~= s);
    }
}

/// The insert range the candidate rows are fetched for: from the first spec's lowest insert time
/// to the last spec's highest one. `None` for no spec (nothing to fetch).
pub fn freshness_fetch_range(specs: &Vec<SourceDataBlocksInMemory>) -> (r: Result<Option<TimeRange>, LakehouseError>)
    ensures
        specs@.len() == 0 ==> r == Ok::<Option<TimeRange>, LakehouseError>(None),
        specs@.len() > 0 && (exists|i: int| 0 <= i < specs@.len() && (#[trigger] specs@[i]).blocks@.len() == 0) ==> r == Err::<Option<TimeRange>, LakehouseError>(LakehouseError::EmptyBlockList),
        specs@.len() > 0 && (forall|i: int| 0 <= i < specs@.len() ==> (#[trigger] specs@[i]).blocks@.len() > 0) ==> r == Ok::<Option<TimeRange>, LakehouseError>(Some(TimeRange {
            begin: spec_range(specs@[0]).0,
            end: spec_range(specs@[specs@.len() - 1]).1,
        })),
{
    if specs.len() == 0 {
        return Ok(None);
    }
    let ranges = spec_ranges(specs)?;
    Ok(Some(TimeRange::new(ranges[0].0, ranges[ranges.len() - 1].1)))
}

/// The insert range of each spec; fails if one holds no block.
pub fn spec_ranges(specs: &Vec<SourceDataBlocksInMemory>) -> (r: Result<Vec<(i64, i64)>, LakehouseError>)
    ensures
        (exists|i: int| 0 <= i < specs@.len() && (#[trigger] specs@[i]).blocks@.len() == 0) ==> r == Err::<Vec<(i64, i64)>, LakehouseError>(LakehouseError::EmptyBlockList),
        (forall|i: int| 0 <= i < specs@.len() ==> (#[trigger] specs@[i]).blocks@.len() > 0) ==> r is Ok && r->Ok_0@ == specs@.map_values(|s: SourceDataBlocksInMemory| spec_range(s)),
{
    let mut ranges: Vec<(i64, i64)> = Vec::new();
    let mut i: usize = 0;
    while i < specs.len()
        invariant
            i <= specs@.len(),
            forall|k: int| 0 <= k < i ==> (#[trigger] specs@[k]).blocks@.len() > 0,
            ranges@ == specs@.subrange(0, i as int).map_values(|s: SourceDataBlocksInMemory| spec_range(s)),
        decreases specs@.len() - i,
    {
        match blocks_insert_time_range(&specs[i].blocks) {
            Ok(range) => {
                ranges.push((range.begin, range.end));
                assert(ranges@ =~= specs@.subrange(0, i + 1).map_values(|s: SourceDataBlocksInMemory| spec_range(s)));
            },
            Err(e) => {
                return Err(e);
            },
        }
        i = i + 1;
    }
    assert(specs@.subrange(0, i as int) =~= specs@);
    Ok(ranges)
}

/// Runs the per-spec check for every spec against `candidates`, failing at the first error.
pub fn all_verdicts(
    view_meta: &ViewMetadata,
    block_order: BlockOrder,
    specs: &Vec<SourceDataBlocksInMemory>,
    candidates: &Vec<PartitionFreshnessRow>,
) -> (r: Result<Vec<bool>, LakehouseError>)
    ensures
        match verdicts(view_meta.file_schema_hash@, specs@, block_order, rows_view(candidates@)) {
            Ok(v) => r is Ok && r->Ok_0@ == v,
            Err(e) => r == Err::<Vec<bool>, LakehouseError>(e),
        },
{
    let mut v: Vec<bool> = Vec::new();
    let mut i: usize = 0;
    while i < specs.len()
        invariant
            i <= specs@.len(),
            verdicts_upto(view_meta.file_schema_hash@, specs@, block_order, rows_view(candidates@), i as int) == Ok::<Seq<bool>, LakehouseError>(v@),
        decreases specs@.len() - i,
    {
        let b = match spec_is_up_to_date(view_meta, &specs[i], block_order, candidates) {
            Ok(b) => b,
            Err(e) => {
                proof {
                    lemma_verdicts_err(view_meta.file_schema_hash@, specs@, block_order, rows_view(candidates@), i + 1, specs@.len() as int, e);
                }
                return Err(e);
            },
        };
        v.push(b);
        i = i + 1;
    }
    Ok(v)
}

fn has_false(v: &Vec<bool>) -> (r: bool)
    ensures
        r == v@.contains(false),
{
    let mut i: usize = 0;
    while i < v.len()
        invariant
            i <= v@.len(),
            forall|k: int| 0 <= k < i ==> v@[k],
        decreases v@.len() - i,
    {
        if !v[i] {
            assert(v@[i as int] == false);
            return true;
        }
        i = i + 1;
    }
    true == false
}

fn and_bools(a: &Vec<bool>, b: &Vec<bool>) -> (r: Vec<bool>)
    requires
        a@.len() == b@.len(),
    ensures
        r@ == and_verdicts(a@, b@),
{
    let mut out: Vec<bool> = Vec::new();
    let mut i: usize = 0;
    while i < a.len()
        invariant
            i <= a@.len(),
            a@.len() == b@.len(),
            out@ == and_verdicts(a@, b@).subrange(0, i as int),
        decreases a@.len() - i,
    {
        out.push(a[i] && b[i]);
        assert(out@ =~= and_verdicts(a@, b@).subrange(0, i + 1));
        i = i + 1;
    }
    assert(out@ =~= and_verdicts(a@, b@));
    out
}

fn bools_eq(a: &Vec<bool>, b: &Vec<bool>) -> (r: bool)
    ensures
        r == (a@ == b@),
{
    if a.len() != b.len() {
        return false;
    }
    let mut i: usize = 0;
    while i < a.len()
        invariant
            i <= a@.len(),
            a@.len() == b@.len(),
            forall|k: int| 0 <= k < i ==> a@[k] == b@[k],
        decreases a@.len() - i,
    {
        if a[i] != b[i] {
            return false;
        }
        i = i + 1;
    }
    assert(a@ =~= b@);
    true
}

/// The candidate rows that no stale spec's insert range entirely contains.
fn surviving_candidates(candidates: &Vec<PartitionFreshnessRow>, ranges: &Vec<(i64, i64)>, v: &Vec<bool>) -> (r: Vec<PartitionFreshnessRow>)
    requires
        ranges@.len() == v@.len(),
    ensures
        rows_view(r@) == surviving_rows(rows_view(candidates@), ranges@, v@),
{
    let ghost rows = rows_view(candidates@);
    let ghost pred = |r: FreshnessRowView| !inside_stale_range(r, ranges@, v@);
    let mut out: Vec<PartitionFreshnessRow> = Vec::new();
    let mut i: usize = 0;
    while i < candidates.len()
        invariant
            i <= candidates@.len(),
            rows == rows_view(candidates@),
            ranges@.len() == v@.len(),
            pred == (|r: FreshnessRowView| !inside_stale_range(r, ranges@, v@)),
            rows_view(out@) == rows.subrange(0, i as int).filter(pred),
        decreases candidates@.len() - i,
    {
        let c = &candidates[i];
        let mut inside = false;
        let mut j: usize = 0;
        while j < ranges.len()
            invariant
                j <= ranges@.len(),
                ranges@.len() == v@.len(),
                inside == exists|q: int| 0 <= q < j && !v@[q] && c.begin_insert_time >= (#[trigger] ranges@[q]).0 && c.end_insert_time <= ranges@[q].1,
            decreases ranges@.len() - j,
        {
            if !v[j] && c.begin_insert_time >= ranges[j].0 && c.end_insert_time <= ranges[j].1 {
                inside = true;
            }
            j = j + 1;
        }
        proof {
            assert(c@ == rows[i as int]);
            assert(inside == inside_stale_range(rows[i as int], ranges@, v@));
            assert(rows.subrange(0, i + 1) =~= rows.subrange(0, i as int).push(rows[i as int]));
            rows.subrange(0, i as int).lemma_filter_push(rows[i as int], pred);
        }
        if !inside {
            let copy = c.copy();
            let ghost before = out@;
            out.push(copy);
            assert(rows_view(out@) =~= rows_view(before).push(rows[i as int]));
        }
        i = i + 1;
    }
    proof {
        assert(rows.subrange(0, i as int) =~= rows);
    }
    out
}

/// Decides, for each JIT partition spec (ascending, non-overlapping insert ranges), whether it is
/// already materialized and up to date, given the candidate rows fetched over their combined
/// range: the per-spec check is run, then re-run to a fixpoint after dropping every row that a
/// stale spec's rewrite will retire (rows entirely inside a stale spec's range). A spec verdicted
/// stale in one round stays stale in every later round.
pub fn find_up_to_date_among(
    view_meta: &ViewMetadata,
    block_order: BlockOrder,
    specs: &Vec<SourceDataBlocksInMemory>,
    candidates: Vec<PartitionFreshnessRow>,
) -> (r: Result<Vec<bool>, LakehouseError>)
    ensures
        match spec_find_up_to_date(view_meta.file_schema_hash@, specs@, block_order, rows_view(candidates@)) {
            Ok(v) => r is Ok && r->Ok_0@ == v,
            Err(e) => r == Err::<Vec<bool>, LakehouseError>(e),
        },
{
    let ghost fsh = view_meta.file_schema_hash@;
    let ranges = spec_ranges(specs)?;
    let mut cands = candidates;
    let mut up_to_date = all_verdicts(view_meta, block_order, specs, &cands)?;
    let ghost v0 = up_to_date@;
    let ghost rows0 = rows_view(cands@);
    proof {
        assert(spec_find_up_to_date(fsh, specs@, block_order, rows0) == freshness_fixpoint(fsh, specs@, block_order, ranges@, rows0, v0));
        lemma_verdicts_len(fsh, specs@, block_order, rows0, specs@.len() as int);
    }
    loop
        invariant
            fsh == view_meta.file_schema_hash@,
            rows0 == rows_view(candidates@),
            spec_find_up_to_date(fsh, specs@, block_order, rows0) == freshness_fixpoint(fsh, specs@, block_order, ranges@, rows0, v0),
            ranges@ == specs@.map_values(|s: SourceDataBlocksInMemory| spec_range(s)),
            ranges@.len() == specs@.len(),
            verdicts(fsh, specs@, block_order, rows_view(cands@)) is Ok,
            verdicts_within(up_to_date@, verdicts(fsh, specs@, block_order, rows_view(cands@))->Ok_0),
            up_to_date@.len() == specs@.len(),
            freshness_fixpoint(fsh, specs@, block_order, ranges@, rows0, v0) == freshness_fixpoint(fsh, specs@, block_order, ranges@, rows_view(cands@), up_to_date@),
        decreases cands@.len(),
    {
        proof {
            lemma_verdicts_len(fsh, specs@, block_order, rows_view(cands@), specs@.len() as int);
        }
        if !has_false(&up_to_date) {
            assert(freshness_fixpoint(fsh, specs@, block_order, ranges@, rows_view(cands@), up_to_date@) == Ok::<Seq<bool>, LakehouseError>(up_to_date@));
            return Ok(up_to_date);
        }
        let next_candidates = surviving_candidates(&cands, &ranges, &up_to_date);
        let next_up_to_date = match all_verdicts(view_meta, block_order, specs, &next_candidates) {
            Ok(v) => v,
            Err(e) => {
                assert(freshness_fixpoint(fsh, specs@, block_order, ranges@, rows_view(cands@), up_to_date@) == Err::<Seq<bool>, LakehouseError>(e));
                return Err(e);
            },
        };
        proof {
            lemma_verdicts_len(fsh, specs@, block_order, rows_view(next_candidates@), specs@.len() as int);
        }
        let combined = and_bools(&up_to_date, &next_up_to_date);
        if bools_eq(&combined, &up_to_date) {
            assert(freshness_fixpoint(fsh, specs@, block_order, ranges@, rows_view(cands@), up_to_date@) == Ok::<Seq<bool>, LakehouseError>(up_to_date@));
            return Ok(up_to_date);
        }
        proof {
            let rows = rows_view(cands@);
            let pred = |r: FreshnessRowView| !inside_stale_range(r, ranges@, up_to_date@);
            rows.lemma_filter_len(pred);
            if rows_view(next_candidates@).len() == rows.len() {
                lemma_filter_same_len(rows, pred);
                assert(rows_view(next_candidates@) == rows);
                assert(and_verdicts(up_to_date@, next_up_to_date@) =~= up_to_date@);
                assert(false);
            }
            assert(rows_view(next_candidates@).len() == next_candidates@.len());
            assert(rows.len() == cands@.len());
            assert(verdicts_within(combined@, next_up_to_date@));
        }
        cands = next_candidates;
        up_to_date = combined;
    }
}

proof fn lemma_fixpoint_within(
    fsh: Seq<u8>,
    specs: Seq<SourceDataBlocksInMemory>,
    order: BlockOrder,
    ranges: Seq<(i64, i64)>,
    rows: Seq<FreshnessRowView>,
    v: Seq<bool>,
)
    ensures
        freshness_fixpoint(fsh, specs, order, ranges, rows, v) is Ok ==> verdicts_within(freshness_fixpoint(fsh, specs, order, ranges, rows, v)->Ok_0, v),
    decreases rows.len(),
{
    if v.contains(false) {
        let next = surviving_rows(rows, ranges, v);
        if let Ok(nv) = verdicts(fsh, specs, order, next) {
            let cv = and_verdicts(v, nv);
            if cv != v && next.len() < rows.len() {
                lemma_fixpoint_within(fsh, specs, order, ranges, next, cv);
                let r = freshness_fixpoint(fsh, specs, order, ranges, next, cv);
                if r is Ok {
                    assert forall|i: int| 0 <= i < r->Ok_0.len() && #[trigger] r->Ok_0[i] implies v[i] by {
                        assert(cv[i]);
                    }
                }
            }
        }
    }
}

proof fn lemma_verdicts_index(fsh: Seq<u8>, specs: Seq<SourceDataBlocksInMemory>, order: BlockOrder, rows: Seq<FreshnessRowView>, k: int)
    requires
        0 <= k,
    ensures
        verdicts_upto(fsh, specs, order, rows, k) is Ok ==> {
            let v = verdicts_upto(fsh, specs, order, rows, k)->Ok_0;
            &&& v.len() == k
            &&& forall|i: int| 0 <= i < k ==> Ok::<bool, LakehouseError>(#[trigger] v[i]) == spec_up_to_date(fsh, specs[i].blocks@, specs[i].block_ids_hash@, order, rows)
        },
    decreases k,
{
    if k > 0 {
        lemma_verdicts_index(fsh, specs, order, rows, k - 1);
    }
}

/// Dropping rows never turns a stale spec up to date: every spec that the batched check reports
/// up to date is up to date against the rows first fetched.
pub proof fn freshness_never_revives(
    fsh: Seq<u8>,
    specs: Seq<SourceDataBlocksInMemory>,
    order: BlockOrder,
    rows: Seq<FreshnessRowView>,
)
    ensures
        spec_find_up_to_date(fsh, specs, order, rows) is Ok ==> {
            let v = spec_find_up_to_date(fsh, specs, order, rows)->Ok_0;
            &&& v.len() == specs.len()
            &&& forall|i: int| 0 <= i < v.len() && #[trigger] v[i] ==> spec_up_to_date(fsh, specs[i].blocks@, specs[i].block_ids_hash@, order, rows) == Ok::<bool, LakehouseError>(true)
        },
{
    if spec_find_up_to_date(fsh, specs, order, rows) is Ok {
        let v0 = verdicts(fsh, specs, order, rows)->Ok_0;
        let ranges = specs.map_values(|s: SourceDataBlocksInMemory| spec_range(s));
        lemma_verdicts_index(fsh, specs, order, rows, specs.len() as int);
        lemma_fixpoint_within(fsh, specs, order, ranges, rows, v0);
        let v = spec_find_up_to_date(fsh, specs, order, rows)->Ok_0;
        assert forall|i: int| 0 <= i < v.len() && #[trigger] v[i] implies spec_up_to_date(fsh, specs[i].blocks@, specs[i].block_ids_hash@, order, rows) == Ok::<bool, LakehouseError>(true) by {
            assert(v0[i]);
        }
    }
}

proof fn lemma_verdicts_err(fsh: Seq<u8>, specs: Seq<SourceDataBlocksInMemory>, order: BlockOrder, rows: Seq<FreshnessRowView>, k: int, n: int, e: LakehouseError)
    requires
        0 <= k <= n,
        verdicts_upto(fsh, specs, order, rows, k) == Err::<Seq<bool>, LakehouseError>(e),
    ensures
        verdicts_upto(fsh, specs, order, rows, n) == Err::<Seq<bool>, LakehouseError>(e),
    decreases n - k,
{
    if k < n {
        lemma_verdicts_err(fsh, specs, order, rows, k + 1, n, e);
    }
}

proof fn lemma_verdicts_len(fsh: Seq<u8>, specs: Seq<SourceDataBlocksInMemory>, order: BlockOrder, rows: Seq<FreshnessRowView>, k: int)
    requires
        0 <= k,
    ensures
        verdicts_upto(fsh, specs, order, rows, k) is Ok ==> verdicts_upto(fsh, specs, order, rows, k)->Ok_0.len() == k,
    decreases k,
{
    if k > 0 {
        lemma_verdicts_len(fsh, specs, order, rows, k - 1);
    }
}

} // verus!
