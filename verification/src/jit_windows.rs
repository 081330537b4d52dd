use vstd::prelude::*;
use chrono::DurationRound;
use crate::error::LakehouseError;
use crate::partition_source_data::PartitionSourceBlock;
use crate::time_range::TimeRange;

verus! {

/// `t` rounded down to a multiple of `span` (counted from the Unix epoch), for `span > 0`.
pub open spec fn floor_to(t: int, span: int) -> int {
    (t / span) * span
}

/// What truncating the instant `t` (nanoseconds) to a `span` (nanoseconds) gives, when it can be
/// expressed in `i64` nanoseconds.
pub open spec fn spec_trunc(t: i64, span: i64) -> Option<i64> {
    if span <= 0 || floor_to(t as int, span as int) < i64::MIN {
        None
    } else {
        Some(floor_to(t as int, span as int) as i64)
    }
}

/// chrono's `DurationRound::duration_trunc` on `DateTime<Utc>`, for the instant `t` and the
/// duration `span`, both in nanoseconds. chrono's source: a duration of at most zero nanoseconds is
/// an error (`DurationExceedsLimit`); otherwise the instant is moved back by `t % span`
/// (by `span - |t % span|` when the remainder is negative), which is rounding down to a multiple of
/// `span`. The result is read back as nanoseconds, which fails only when it lies before what an
/// `i64` of nanoseconds can express.
#[verifier::external_body]
fn duration_trunc_nanos(t: i64, span: i64) -> (r: Option<i64>)
    ensures
        r == spec_trunc(t, span),
{
    chrono::DateTime::from_timestamp_nanos(t).duration_trunc(chrono::TimeDelta::nanoseconds(span)).ok().and_then(
        |d| d.timestamp_nanos_opt(),
    )
}

/// Truncates an instant to a time slice, failing as the underlying rounding does.
pub fn trunc_to_slice(t: i64, slice: i64) -> (r: Result<i64, LakehouseError>)
    ensures
        match spec_trunc(t, slice) {
            Some(v) => r == Ok::<i64, LakehouseError>(v),
            None => r == Err::<i64, LakehouseError>(LakehouseError::TimeTruncation),
        },
{
    match duration_trunc_nanos(t, slice) {
        Some(v) => Ok(v),
        None => Err(LakehouseError::TimeTruncation),
    }
}

/// The insert range a JIT generation covers: from the slice holding the first block's insert time
/// to the end of the slice holding the last one.
pub open spec fn spec_jit_insert_range(found: TimeRange, slice: i64) -> Result<TimeRange, LakehouseError> {
    match (spec_trunc(found.begin, slice), spec_trunc(found.end, slice)) {
        (Some(b), Some(e)) => if e + slice <= i64::MAX {
            Ok(TimeRange { begin: b, end: (e + slice) as i64 })
        } else {
            Err(LakehouseError::TimeTruncation)
        },
        _ => Err(LakehouseError::TimeTruncation),
    }
}

/// Widens the `[min, max]` insert times found for a stream or process to whole insert-time slices.
pub fn jit_insert_range(found: TimeRange, slice: i64) -> (r: Result<TimeRange, LakehouseError>)
    ensures
        r == spec_jit_insert_range(found, slice),
{
    let b = trunc_to_slice(found.begin, slice)?;
    let e = trunc_to_slice(found.end, slice)?;
    match e.checked_add(slice) {
        Some(end) => Ok(TimeRange::new(b, end)),
        None => Err(LakehouseError::TimeTruncation),
    }
}

/// The process variant of the insert range: the `MIN`/`MAX` aggregate comes back as 0 when the
/// process has no block in the query range, and then there is nothing to generate.
pub fn process_jit_insert_range(min_insert_time: i64, max_insert_time: i64, slice: i64) -> (r: Result<Option<TimeRange>, LakehouseError>)
    ensures
        min_insert_time == 0 || max_insert_time == 0 ==> r == Ok::<Option<TimeRange>, LakehouseError>(None),
        min_insert_time != 0 && max_insert_time != 0 ==> match spec_jit_insert_range(TimeRange { begin: min_insert_time, end: max_insert_time }, slice) {
            Ok(range) => r == Ok::<Option<TimeRange>, LakehouseError>(Some(range)),
            Err(e) => r == Err::<Option<TimeRange>, LakehouseError>(e),
        },
{
    if min_insert_time == 0 || max_insert_time == 0 {
        return Ok(None);
    }
    let range = jit_insert_range(TimeRange::new(min_insert_time, max_insert_time), slice)?;
    Ok(Some(range))
}

// ---------------------------------------------------------------------------------------------
// Splitting an insert-ordered block list into per-slice buckets.

/// The insert-time slice block `k` falls into.
pub open spec fn bucket_of(blocks: Seq<PartitionSourceBlock>, k: int, slice: i64) -> Option<i64> {
    spec_trunc(blocks[k].block.insert_time, slice)
}

pub open spec fn is_bucket_change(blocks: Seq<PartitionSourceBlock>, slice: i64, s: int, k: int) -> bool {
    s < k < blocks.len() && bucket_of(blocks, k, slice) != bucket_of(blocks, s, slice)
}

/// Where the run of blocks sharing the slice of block `s` ends.
pub open spec fn run_end(blocks: Seq<PartitionSourceBlock>, slice: i64, s: int) -> int {
    if exists|k: int| #[trigger] is_bucket_change(blocks, slice, s, k) && forall|m: int| s < m < k ==> !#[trigger] is_bucket_change(blocks, slice, s, m) {
        choose|k: int| #[trigger] is_bucket_change(blocks, slice, s, k) && forall|m: int| s < m < k ==> !#[trigger] is_bucket_change(blocks, slice, s, m)
    } else {
        blocks.len() as int
    }
}

/// The consecutive runs `[a, b)` of blocks sharing an insert-time slice, from index `s` on.
pub open spec fn runs_from(blocks: Seq<PartitionSourceBlock>, slice: i64, s: int) -> Seq<(int, int)>
    decreases blocks.len() - s,
{
    if s < 0 || s >= blocks.len() {
        Seq::empty()
    } else {
        let e = run_end(blocks, slice, s);
        if s < e <= blocks.len() {
            seq![(s, e)] + runs_from(blocks, slice, e)
        } else {
            seq![(s, blocks.len() as int)]
        }
    }
}

proof fn lemma_run_end_at(blocks: Seq<PartitionSourceBlock>, slice: i64, s: int, k: int)
    requires
        is_bucket_change(blocks, slice, s, k),
        forall|m: int| s < m < k ==> !#[trigger] is_bucket_change(blocks, slice, s, m),
    ensures
        run_end(blocks, slice, s) == k,
{
    let k2 = choose|k2: int| #[trigger] is_bucket_change(blocks, slice, s, k2) && forall|m: int| s < m < k2 ==> !#[trigger] is_bucket_change(blocks, slice, s, m);
    if k2 < k {
        assert(!is_bucket_change(blocks, slice, s, k2));
    } else if k < k2 {
        assert(!is_bucket_change(blocks, slice, s, k));
    }
}

/// The runs from `s` on are non-empty ranges of blocks at or after `s`.
pub proof fn lemma_runs_bounds(blocks: Seq<PartitionSourceBlock>, slice: i64, s: int)
    requires
        0 <= s,
    ensures
        forall|c: int| 0 <= c < runs_from(blocks, slice, s).len() ==> s <= (#[trigger] runs_from(blocks, slice, s)[c]).0
            && runs_from(blocks, slice, s)[c].0 < runs_from(blocks, slice, s)[c].1 && runs_from(blocks, slice, s)[c].1 <= blocks.len(),
    decreases blocks.len() - s,
{
    if s < blocks.len() {
        let e = run_end(blocks, slice, s);
        let rs = runs_from(blocks, slice, s);
        if s < e <= blocks.len() {
            lemma_runs_bounds(blocks, slice, e);
            let rest = runs_from(blocks, slice, e);
            assert(rs == seq![(s, e)] + rest);
            assert forall|c: int| 0 <= c < rs.len() implies s <= (#[trigger] rs[c]).0 && rs[c].0 < rs[c].1 && rs[c].1 <= blocks.len() by {
                if c > 0 {
                    assert(rs[c] == rest[c - 1]);
                }
            }
        }
    }
}

/// Splits an insert-time-sorted block list into consecutive runs sharing the same truncated
/// insert-time slice. Fails when some block's insert time cannot be truncated.
pub fn split_into_buckets(blocks: Vec<PartitionSourceBlock>, slice: i64) -> (r: Result<Vec<Vec<PartitionSourceBlock>>, LakehouseError>)
    ensures
        (exists|k: int| 0 <= k < blocks@.len() && #[trigger] bucket_of(blocks@, k, slice) is None) ==> r == Err::<Vec<Vec<PartitionSourceBlock>>, LakehouseError>(LakehouseError::TimeTruncation),
        (forall|k: int| 0 <= k < blocks@.len() ==> #[trigger] bucket_of(blocks@, k, slice) is Some) ==> r is Ok,
        r is Ok ==> {
            let rs = runs_from(blocks@, slice, 0);
            &&& r->Ok_0@.len() == rs.len()
            &&& forall|c: int| 0 <= c < rs.len() ==> (#[trigger] r->Ok_0@[c])@ == blocks@.subrange(rs[c].0, rs[c].1)
        },
{
    let ghost bs = blocks@;
    let n = blocks.len();
    // Validate every block first: the first one whose insert time cannot be truncated fails.
    let mut v: usize = 0;
    while v < n
        invariant
            v <= n,
            n == bs.len(),
            bs == blocks@,
            forall|k: int| 0 <= k < v ==> #[trigger] bucket_of(bs, k, slice) is Some,
        decreases n - v,
    {
        if duration_trunc_nanos(blocks[v].block.insert_time, slice).is_none() {
            assert(bucket_of(bs, v as int, slice) is None);
            return Err(LakehouseError::TimeTruncation);
        }
        v = v + 1;
    }
    let mut buckets: Vec<Vec<PartitionSourceBlock>> = Vec::new();
    let mut current: Vec<PartitionSourceBlock> = Vec::new();
    let mut current_bucket: Option<i64> = None;
    let ghost mut start: int = 0;
    let ghost mut ob: Seq<(int, int)> = Seq::empty();
    let mut i: usize = 0;
    while i < n
        invariant
            n == bs.len(),
            bs == blocks@,
            forall|k: int| 0 <= k < n ==> #[trigger] bucket_of(bs, k, slice) is Some,
            0 <= start <= i <= n,
            start < n || n == 0,
            i == start ==> current_bucket is None,
            i > start ==> current_bucket == bucket_of(bs, start, slice),
            current@ == bs.subrange(start, i as int),
            forall|m: int| start < m < i ==> !#[trigger] is_bucket_change(bs, slice, start, m),
            n > 0 ==> runs_from(bs, slice, 0) == ob + runs_from(bs, slice, start),
            n == 0 ==> ob == Seq::<(int, int)>::empty(),
            buckets@.len() == ob.len(),
            forall|c: int| 0 <= c < buckets@.len() ==> (#[trigger] buckets@[c])@ == bs.subrange(ob[c].0, ob[c].1),
        decreases n - i,
    {
        let b = blocks[i];
        let bucket = duration_trunc_nanos(b.block.insert_time, slice);
        let differs = match current_bucket {
            Some(c) => match bucket {
                Some(v) => v != c,
                None => true,
            },
            None => true,
        };
        if differs {
            if current.len() > 0 {
                proof {
                    assert(is_bucket_change(bs, slice, start, i as int));
                    lemma_run_end_at(bs, slice, start, i as int);
                    assert(runs_from(bs, slice, start) == seq![(start, i as int)] + runs_from(bs, slice, i as int));
                    assert(ob + runs_from(bs, slice, start) =~= ob.push((start, i as int)) + runs_from(bs, slice, i as int));
                }
                let ghost old_buckets = buckets@;
                let taken = current;
                current = Vec::new();
                buckets.push(taken);
                proof {
                    assert forall|c: int| 0 <= c < buckets@.len() implies (#[trigger] buckets@[c])@ == bs.subrange(ob.push((start, i as int))[c].0, ob.push((start, i as int))[c].1) by {
                        if c < old_buckets.len() {
                            assert(buckets@[c] == old_buckets[c]);
                        }
                    }
                    ob = ob.push((start, i as int));
                }
            }
            proof {
                start = i as int;
                assert(current@ =~= bs.subrange(start, i as int));
            }
            current_bucket = bucket;
        }
        current.push(b);
        proof {
            assert(current@ =~= bs.subrange(start, i + 1));
        }
        i = i + 1;
    }
    if current.len() > 0 {
        proof {
            assert(!exists|k: int| #[trigger] is_bucket_change(bs, slice, start, k) && forall|m: int| start < m < k ==> !#[trigger] is_bucket_change(bs, slice, start, m));
            assert(runs_from(bs, slice, start) == seq![(start, n as int)] + runs_from(bs, slice, n as int));
            assert(runs_from(bs, slice, n as int) =~= Seq::<(int, int)>::empty());
            assert(ob + runs_from(bs, slice, start) =~= ob.push((start, n as int)));
        }
        let ghost old_buckets = buckets@;
        buckets.push(current);
        proof {
            assert forall|c: int| 0 <= c < buckets@.len() implies (#[trigger] buckets@[c])@ == bs.subrange(ob.push((start, n as int))[c].0, ob.push((start, n as int))[c].1) by {
                if c < old_buckets.len() {
                    assert(buckets@[c] == old_buckets[c]);
                }
            }
            ob = ob.push((start, n as int));
        }
    } else {
        proof {
            if n > 0 {
                assert(current@.len() == i - start);
            }
            assert(runs_from(bs, slice, 0) =~= ob);
        }
    }
    Ok(buckets)
}


// ---------------------------------------------------------------------------------------------
// Batch query windows.

/// Start of insert-time bucket `k` of `range`.
pub open spec fn bucket_start(range: TimeRange, slice: i64, k: int) -> int {
    range.begin + k * slice
}

/// Blocks counted in the bucket starting at `b`: the count of the entry for `b`, or zero.
pub open spec fn count_at(counts: Seq<(i64, i64)>, b: int) -> int {
    if exists|e: int| 0 <= e < counts.len() && #[trigger] counts[e].0 == b {
        counts[choose|e: int| 0 <= e < counts.len() && #[trigger] counts[e].0 == b].1 as int
    } else {
        0
    }
}

/// Blocks counted in buckets `a..k`.
pub open spec fn run_count(counts: Seq<(i64, i64)>, range: TimeRange, slice: i64, a: int, k: int) -> int
    decreases k - a,
{
    if k <= a {
        0
    } else {
        run_count(counts, range, slice, a, k - 1) + count_at(counts, bucket_start(range, slice, k - 1))
    }
}

/// A batch begun at bucket `a` closes just before bucket `k`.
pub open spec fn closes_at(counts: Seq<(i64, i64)>, range: TimeRange, slice: i64, target: i64, a: int, k: int) -> bool {
    &&& a < k
    &&& bucket_start(range, slice, k) < range.end
    &&& run_count(counts, range, slice, a, k) > 0
    &&& run_count(counts, range, slice, a, k) + count_at(counts, bucket_start(range, slice, k)) > target
}

pub open spec fn is_first_close(counts: Seq<(i64, i64)>, range: TimeRange, slice: i64, target: i64, a: int, k: int) -> bool {
    &&& closes_at(counts, range, slice, target, a, k)
    &&& forall|m: int| a < m < k ==> !#[trigger] closes_at(counts, range, slice, target, a, m)
}

/// The batch windows from the batch begun at bucket `a` on.
pub open spec fn windows_from(counts: Seq<(i64, i64)>, range: TimeRange, slice: i64, target: i64, a: int) -> Seq<TimeRange>
    decreases range.end - range.begin - a,
{
    if exists|k: int| is_first_close(counts, range, slice, target, a, k) {
        let k = choose|k: int| is_first_close(counts, range, slice, target, a, k);
        if a < k <= range.end - range.begin && a >= 0 {
            seq![TimeRange { begin: bucket_start(range, slice, a) as i64, end: bucket_start(range, slice, k) as i64 }]
                + windows_from(counts, range, slice, target, k)
        } else {
            seq![TimeRange { begin: bucket_start(range, slice, a) as i64, end: range.end }]
        }
    } else {
        seq![TimeRange { begin: bucket_start(range, slice, a) as i64, end: range.end }]
    }
}

/// Counts are listed by strictly increasing bucket start.
pub open spec fn strictly_ascending(counts: Seq<(i64, i64)>) -> bool {
    forall|i: int, j: int| 0 <= i < j < counts.len() ==> (#[trigger] counts[i]).0 < (#[trigger] counts[j]).0
}

proof fn lemma_first_close_at(counts: Seq<(i64, i64)>, range: TimeRange, slice: i64, target: i64, a: int, k: int)
    requires
        is_first_close(counts, range, slice, target, a, k),
    ensures
        (choose|k2: int| is_first_close(counts, range, slice, target, a, k2)) == k,
{
    let k2 = choose|k2: int| is_first_close(counts, range, slice, target, a, k2);
    if k2 < k {
        assert(!closes_at(counts, range, slice, target, a, k2));
    } else if k < k2 {
        assert(!closes_at(counts, range, slice, target, a, k));
    }
}

/// Packs consecutive insert-time buckets of `insert_range` (stepping by `slice` from its begin)
/// into batch query windows, closing a window just before a bucket that would take a non-empty
/// window past `target_rows_per_query` blocks. `bucket_counts` lists `(bucket_start, nb_blocks)`
/// for non-empty buckets, ascending; a bucket missing from it counts zero blocks.
pub fn batch_windows(insert_range: TimeRange, slice: i64, bucket_counts: &Vec<(i64, i64)>, target_rows_per_query: i64) -> (windows: Vec<TimeRange>)
    requires
        slice > 0,
        insert_range.end <= i64::MAX - slice,
        strictly_ascending(bucket_counts@),
        forall|e: int| 0 <= e < bucket_counts@.len() ==> 0 <= (#[trigger] bucket_counts@[e]).1,
    ensures
        windows@ == windows_from(bucket_counts@, insert_range, slice, target_rows_per_query, 0),
{
    let ghost counts = bucket_counts@;
    let ghost target = target_rows_per_query;
    let mut windows: Vec<TimeRange> = Vec::new();
    let ghost mut ow: Seq<TimeRange> = Seq::empty();
    let mut running: i64 = 0;
    let mut batch_begin = insert_range.begin;
    let mut bucket_begin = insert_range.begin;
    let mut counts_idx: usize = 0;
    let ghost mut k: int = 0;
    let ghost mut a: int = 0;
    while bucket_begin < insert_range.end
        invariant
            slice > 0,
            insert_range.end <= i64::MAX - slice,
            counts == bucket_counts@,
            target == target_rows_per_query,
            strictly_ascending(counts),
            forall|e: int| 0 <= e < counts.len() ==> 0 <= (#[trigger] counts[e]).1,
            0 <= a <= k,
            k <= insert_range.end - insert_range.begin || bucket_begin >= insert_range.end,
            bucket_begin == bucket_start(insert_range, slice, k),
            batch_begin == bucket_start(insert_range, slice, a),
            bucket_begin < insert_range.end ==> k < insert_range.end - insert_range.begin,
            forall|m: int| a <= m < k ==> bucket_start(insert_range, slice, m) < insert_range.end,
            running == run_count(counts, insert_range, slice, a, k),
            0 <= running,
            forall|m: int| a < m < k ==> !#[trigger] closes_at(counts, insert_range, slice, target, a, m),
            counts_idx <= counts.len(),
            forall|e: int| 0 <= e < counts_idx ==> (#[trigger] counts[e]).0 < bucket_begin,
            windows_from(counts, insert_range, slice, target, 0) == ow + windows_from(counts, insert_range, slice, target, a),
            windows@ == ow,
        decreases insert_range.end - insert_range.begin - k,
    {
        let ghost prev_bucket_begin = bucket_begin;
        while counts_idx < bucket_counts.len() && bucket_counts[counts_idx].0 < bucket_begin
            invariant
                counts_idx <= counts.len(),
                counts == bucket_counts@,
                forall|e: int| 0 <= e < counts_idx ==> (#[trigger] counts[e]).0 < bucket_begin,
            decreases counts.len() - counts_idx,
        {
            counts_idx = counts_idx + 1;
        }
        let nb_blocks = if counts_idx < bucket_counts.len() && bucket_counts[counts_idx].0 == bucket_begin {
            let n = bucket_counts[counts_idx].1;
            proof {
                assert(counts[counts_idx as int].1 == n);
                let e0 = counts_idx as int;
                assert(0 <= e0 < counts.len() && counts[e0].0 == bucket_begin);
                let e = choose|e: int| 0 <= e < counts.len() && #[trigger] counts[e].0 == bucket_begin;
                if e < e0 {
                    assert(counts[e].0 < counts[e0].0);
                } else if e0 < e {
                    assert(counts[e0].0 < counts[e].0);
                }
            }
            counts_idx = counts_idx + 1;
            n
        } else {
            proof {
                assert forall|e: int| 0 <= e < counts.len() implies #[trigger] counts[e].0 != bucket_begin by {
                    if e >= counts_idx {
                        assert(counts[counts_idx as int].0 > bucket_begin);
                        if e > counts_idx {
                            assert(counts[counts_idx as int].0 < counts[e].0);
                        }
                    }
                }
            }
            0
        };
        assert(nb_blocks == count_at(counts, bucket_start(insert_range, slice, k)));
        // Compared in 128 bits: the running count and the bucket's count are each an `i64`.
        if running > 0 && (running as i128) + (nb_blocks as i128) > (target_rows_per_query as i128) {
            proof {
                assert(closes_at(counts, insert_range, slice, target, a, k));
                assert(is_first_close(counts, insert_range, slice, target, a, k));
                lemma_first_close_at(counts, insert_range, slice, target, a, k);
                assert(windows_from(counts, insert_range, slice, target, a) == seq![TimeRange { begin: batch_begin, end: bucket_begin }] + windows_from(counts, insert_range, slice, target, k));
                assert(ow + windows_from(counts, insert_range, slice, target, a) =~= ow.push(TimeRange { begin: batch_begin, end: bucket_begin }) + windows_from(counts, insert_range, slice, target, k));
                ow = ow.push(TimeRange { begin: batch_begin, end: bucket_begin });
                a = k;
            }
            windows.push(TimeRange::new(batch_begin, bucket_begin));
            running = 0;
            batch_begin = bucket_begin;
            assert(run_count(counts, insert_range, slice, a, k) == 0);
        } else {
            proof {
                assert(!closes_at(counts, insert_range, slice, target, a, k));
            }
        }
        running = running + nb_blocks;
        assert(running == run_count(counts, insert_range, slice, a, k + 1));
        proof {
            assert(bucket_start(insert_range, slice, k + 1) == bucket_start(insert_range, slice, k) + slice) by (nonlinear_arith);
            k = k + 1;
        }
        bucket_begin = bucket_begin + slice;
        assert(bucket_begin == prev_bucket_begin + slice);
        assert(insert_range.end - bucket_begin < insert_range.end - prev_bucket_begin);
        assert(insert_range.end - prev_bucket_begin > 0);
        proof {
            if bucket_begin < insert_range.end {
                assert(k <= k * slice) by (nonlinear_arith)
                    requires k >= 0, slice > 0;
                assert(bucket_start(insert_range, slice, k) == insert_range.begin + k * slice);
            }
        }
    }
    proof {
        assert(!exists|m: int| is_first_close(counts, insert_range, slice, target, a, m)) by {
            if exists|m: int| is_first_close(counts, insert_range, slice, target, a, m) {
                let m = choose|m: int| is_first_close(counts, insert_range, slice, target, a, m);
                if m >= k {
                    assert(bucket_start(insert_range, slice, m) >= bucket_start(insert_range, slice, k)) by (nonlinear_arith)
                        requires m >= k, slice > 0;
                }
            }
        }
        assert(ow + windows_from(counts, insert_range, slice, target, a) =~= ow.push(TimeRange { begin: batch_begin, end: insert_range.end }));
    }
    windows.push(TimeRange::new(batch_begin, insert_range.end));
    windows
}

/// Whether `w` holds consecutive windows from `first` to `last`, each starting on a bucket edge
/// of `range` and each non-empty (its begin strictly before its end).
pub open spec fn tiles(w: Seq<TimeRange>, range: TimeRange, slice: i64, first: int, last: int) -> bool {
    &&& w.len() >= 1
    &&& w[0].begin == first
    &&& w[w.len() - 1].end == last
    &&& forall|i: int| 0 <= i < w.len() - 1 ==> (#[trigger] w[i]).end == w[i + 1].begin
    &&& forall|i: int| 0 <= i < w.len() ==> (#[trigger] w[i]).begin < w[i].end
    &&& forall|i: int| 0 <= i < w.len() ==> exists|k: int| k >= 0 && #[trigger] bucket_start(range, slice, k) == (#[trigger] w[i]).begin
}

proof fn lemma_windows_from_tile(counts: Seq<(i64, i64)>, range: TimeRange, slice: i64, target: i64, a: int)
    requires
        slice > 0,
        a >= 0,
        bucket_start(range, slice, a) < range.end,
    ensures
        tiles(windows_from(counts, range, slice, target, a), range, slice, bucket_start(range, slice, a), range.end as int),
    decreases range.end - range.begin - a,
{
    let w = windows_from(counts, range, slice, target, a);
    assert(a * slice >= 0) by (nonlinear_arith)
        requires a >= 0, slice > 0;
    if exists|k: int| is_first_close(counts, range, slice, target, a, k) {
        let k = choose|k: int| is_first_close(counts, range, slice, target, a, k);
        if a < k <= range.end - range.begin && a >= 0 {
            lemma_windows_from_tile(counts, range, slice, target, k);
            let rest = windows_from(counts, range, slice, target, k);
            let w0 = TimeRange { begin: bucket_start(range, slice, a) as i64, end: bucket_start(range, slice, k) as i64 };
            assert(w == seq![w0] + rest);
            assert(a * slice < k * slice) by (nonlinear_arith)
                requires a < k, slice > 0;
            assert forall|i: int| 0 <= i < w.len() - 1 implies (#[trigger] w[i]).end == w[i + 1].begin by {
                if i > 0 {
                    assert(w[i] == rest[i - 1]);
                    assert(w[i + 1] == rest[i]);
                }
            }
            assert forall|i: int| 0 <= i < w.len() implies (#[trigger] w[i]).begin < w[i].end by {
                if i > 0 {
                    assert(w[i] == rest[i - 1]);
                }
            }
            assert forall|i: int| 0 <= i < w.len() implies exists|kk: int| kk >= 0 && #[trigger] bucket_start(range, slice, kk) == (#[trigger] w[i]).begin by {
                if i > 0 {
                    assert(w[i] == rest[i - 1]);
                } else {
                    assert(bucket_start(range, slice, a) == w[0].begin);
                }
            }
            assert(w[w.len() - 1] == rest[rest.len() - 1]);
        } else {
            assert(bucket_start(range, slice, a) == w[0].begin);
        }
    } else {
        assert(bucket_start(range, slice, a) == w[0].begin);
    }
}

/// Law: the batch windows of a non-empty insert range tile it -- the first begins at its begin,
/// the last ends at its end, each ends where the next begins, each is non-empty, and every window
/// begins on a bucket edge -- so the choice of windows never changes which blocks are read.
pub proof fn batch_windows_tile(counts: Seq<(i64, i64)>, range: TimeRange, slice: i64, target: i64)
    requires
        slice > 0,
        range.begin < range.end,
    ensures
        tiles(windows_from(counts, range, slice, target, 0), range, slice, range.begin as int, range.end as int),
{
    lemma_windows_from_tile(counts, range, slice, target, 0);
}

} // verus!
