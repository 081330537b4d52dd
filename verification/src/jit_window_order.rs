use vstd::prelude::*;
use vstd::arithmetic::div_mod::{lemma_div_is_ordered, lemma_fundamental_div_mod, lemma_mod_bound};
use crate::jit_grouping::{emitted_windows, lemma_emitted_windows_shape, partition_of_window, partitions_of, BlockOrder};
use crate::jit_partitions::{bucket_blocks, bucket_grouped, groups_of_buckets, ordered_for, sorted_by_insert_time, with_ticks};
use crate::jit_windows::{bucket_of, floor_to, is_bucket_change, lemma_runs_bounds, run_end, runs_from};
use crate::partition_source_data::{PartitionSourceBlock, SourceDataBlocksInMemory};

verus! {

// ---------------------------------------------------------------------------------------------
// Rounding down to a slice.

proof fn lemma_floor(t: int, span: int)
    requires
        span > 0,
    ensures
        floor_to(t, span) <= t < floor_to(t, span) + span,
{
    lemma_fundamental_div_mod(t, span);
    lemma_mod_bound(t, span);
    assert((t / span) * span == span * (t / span)) by (nonlinear_arith);
}

proof fn lemma_floor_monotone(t1: int, t2: int, span: int)
    requires
        span > 0,
        t1 <= t2,
    ensures
        floor_to(t1, span) <= floor_to(t2, span),
{
    lemma_div_is_ordered(t1, t2, span);
    let q1 = t1 / span;
    let q2 = t2 / span;
    assert(q1 * span <= q2 * span) by (nonlinear_arith)
        requires q1 <= q2, span > 0;
}

proof fn lemma_floor_gap(t1: int, t2: int, span: int)
    requires
        span > 0,
        floor_to(t1, span) < floor_to(t2, span),
    ensures
        floor_to(t1, span) + span <= floor_to(t2, span),
{
    let q1 = t1 / span;
    let q2 = t2 / span;
    assert(q1 < q2) by (nonlinear_arith)
        requires q1 * span < q2 * span, span > 0;
    assert((q1 + 1) * span <= q2 * span) by (nonlinear_arith)
        requires q1 < q2, span > 0;
    assert((q1 + 1) * span == q1 * span + span) by (nonlinear_arith);
}

/// In an insert-ordered list, a later block in another slice was inserted strictly later.
proof fn lemma_later_slice_later(blocks: Seq<PartitionSourceBlock>, slice: i64, x: int, y: int)
    requires
        slice > 0,
        sorted_by_insert_time(blocks),
        0 <= x < y < blocks.len(),
        bucket_of(blocks, x, slice) is Some,
        bucket_of(blocks, y, slice) is Some,
        bucket_of(blocks, x, slice) != bucket_of(blocks, y, slice),
    ensures
        blocks[x].block.insert_time < blocks[y].block.insert_time,
{
    let tx = blocks[x].block.insert_time as int;
    let ty = blocks[y].block.insert_time as int;
    assert(tx <= ty);
    lemma_floor_monotone(tx, ty, slice as int);
    lemma_floor(tx, slice as int);
    lemma_floor(ty, slice as int);
    if floor_to(tx, slice as int) == floor_to(ty, slice as int) {
        assert(bucket_of(blocks, x, slice) == bucket_of(blocks, y, slice));
    }
    lemma_floor_gap(tx, ty, slice as int);
}

// ---------------------------------------------------------------------------------------------
// Runs of blocks sharing a slice.

proof fn lemma_first_change_exists(blocks: Seq<PartitionSourceBlock>, slice: i64, s: int, k: int)
    requires
        is_bucket_change(blocks, slice, s, k),
    ensures
        exists|k2: int| #[trigger] is_bucket_change(blocks, slice, s, k2)
            && forall|m: int| s < m < k2 ==> !#[trigger] is_bucket_change(blocks, slice, s, m),
    decreases k - s,
{
    if exists|m: int| s < m < k && #[trigger] is_bucket_change(blocks, slice, s, m) {
        let m = choose|m: int| s < m < k && #[trigger] is_bucket_change(blocks, slice, s, m);
        lemma_first_change_exists(blocks, slice, s, m);
    } else {
        assert(forall|m: int| s < m < k ==> !#[trigger] is_bucket_change(blocks, slice, s, m));
    }
}

/// A run holds blocks of one slice, and the block ending it is in another slice.
proof fn lemma_run_members(blocks: Seq<PartitionSourceBlock>, slice: i64, s: int)
    requires
        0 <= s < blocks.len(),
    ensures
        s < run_end(blocks, slice, s) <= blocks.len(),
        forall|k: int| s <= k < run_end(blocks, slice, s) ==> #[trigger] bucket_of(blocks, k, slice) == bucket_of(blocks, s, slice),
        run_end(blocks, slice, s) < blocks.len() ==> bucket_of(blocks, run_end(blocks, slice, s), slice) != bucket_of(blocks, s, slice),
{
    if exists|k: int| #[trigger] is_bucket_change(blocks, slice, s, k) {
        let k0 = choose|k: int| #[trigger] is_bucket_change(blocks, slice, s, k);
        lemma_first_change_exists(blocks, slice, s, k0);
        let k = choose|k: int| #[trigger] is_bucket_change(blocks, slice, s, k) && forall|m: int| s < m < k ==> !#[trigger] is_bucket_change(blocks, slice, s, m);
        assert(run_end(blocks, slice, s) == k);
        assert forall|k2: int| s <= k2 < k implies #[trigger] bucket_of(blocks, k2, slice) == bucket_of(blocks, s, slice) by {
            if k2 > s {
                assert(!is_bucket_change(blocks, slice, s, k2));
            }
        }
    } else {
        assert(run_end(blocks, slice, s) == blocks.len());
        assert forall|k2: int| s <= k2 < blocks.len() implies #[trigger] bucket_of(blocks, k2, slice) == bucket_of(blocks, s, slice) by {
            if k2 > s {
                assert(!is_bucket_change(blocks, slice, s, k2));
            }
        }
    }
}

/// Whether run `c` begins where run `c - 1` ends.
pub open spec fn joins_previous(rs: Seq<(int, int)>, c: int) -> bool {
    rs[c].0 == rs[c - 1].1
}

/// Each run from `s` on ends where the next begins, at the end of its slice.
proof fn lemma_runs_structure(blocks: Seq<PartitionSourceBlock>, slice: i64, s: int)
    requires
        0 <= s,
    ensures
        forall|c: int| 0 <= c < runs_from(blocks, slice, s).len() ==>
            (#[trigger] runs_from(blocks, slice, s)[c]).1 == run_end(blocks, slice, runs_from(blocks, slice, s)[c].0),
        forall|c: int| 0 < c < runs_from(blocks, slice, s).len() ==> #[trigger] joins_previous(runs_from(blocks, slice, s), c),
    decreases blocks.len() - s,
{
    if s < blocks.len() {
        lemma_run_members(blocks, slice, s);
        let e = run_end(blocks, slice, s);
        lemma_runs_structure(blocks, slice, e);
        let rest = runs_from(blocks, slice, e);
        let rs = runs_from(blocks, slice, s);
        assert(rs == seq![(s, e)] + rest);
        assert forall|c: int| 0 <= c < rs.len() implies (#[trigger] rs[c]).1 == run_end(blocks, slice, rs[c].0) by {
            if c > 0 {
                assert(rs[c] == rest[c - 1]);
            }
        }
        if e < blocks.len() {
            lemma_run_members(blocks, slice, e);
            assert(rest == seq![(e, run_end(blocks, slice, e))] + runs_from(blocks, slice, run_end(blocks, slice, e)));
        }
        assert forall|c: int| 0 < c < rs.len() implies #[trigger] joins_previous(rs, c) by {
            assert(rs[c] == rest[c - 1]);
            if c > 1 {
                assert(rs[c - 1] == rest[c - 2]);
                assert(joins_previous(rest, c - 1));
            }
        }
    }
}

// ---------------------------------------------------------------------------------------------
// Partitions hold blocks of their bucket.

/// Whether every block of `part` is one of `bucket`.
pub open spec fn holds_blocks_of(part: SourceDataBlocksInMemory, bucket: Seq<PartitionSourceBlock>) -> bool {
    forall|i: int| 0 <= i < part.blocks@.len() ==> bucket.contains(#[trigger] part.blocks@[i])
}

proof fn lemma_ordered_members(order: BlockOrder, bucket: Seq<PartitionSourceBlock>, ord: Seq<PartitionSourceBlock>, i: int)
    requires
        ordered_for(order, bucket, ord),
        0 <= i < ord.len(),
    ensures
        bucket.contains(ord[i]),
{
    match order {
        BlockOrder::InsertTime => {
            assert(bucket[i] == ord[i]);
        },
        BlockOrder::EventTime => {
            broadcast use {vstd::seq_lib::group_filter_ensures, Seq::lemma_filter_contains_rev};
            let e = ord[i];
            let bt = e.block.begin_ticks;
            let et = e.block.end_ticks;
            assert(with_ticks(ord, bt, et).contains(ord[i]));
            assert(with_ticks(bucket, bt, et).contains(e));
        },
    }
}

proof fn lemma_parts_hold_bucket_blocks(order: BlockOrder, max: i64, bucket: Seq<PartitionSourceBlock>, g: Seq<SourceDataBlocksInMemory>)
    requires
        bucket_grouped(order, max, bucket, g),
    ensures
        forall|k: int| 0 <= k < g.len() ==> holds_blocks_of(#[trigger] g[k], bucket),
{
    let ord = choose|ord: Seq<PartitionSourceBlock>| ordered_for(order, bucket, ord) && partitions_of(g, ord, max);
    lemma_emitted_windows_shape(ord, max, 0);
    let ws = emitted_windows(ord, max, 0);
    assert forall|k: int| 0 <= k < g.len() implies holds_blocks_of(#[trigger] g[k], bucket) by {
        let w = ws[k];
        assert(partition_of_window(&g[k], ord, w));
        assert forall|i: int| 0 <= i < g[k].blocks@.len() implies bucket.contains(#[trigger] g[k].blocks@[i]) by {
            assert(g[k].blocks@[i] == ord[w.0 + i]);
            lemma_ordered_members(order, bucket, ord, w.0 + i);
        }
    }
}

/// Law: when the blocks of a batch window come in insert order (as the batch query returns them),
/// every partition built from an earlier insert-time bucket holds only blocks inserted strictly
/// before every block of a partition built from a later bucket -- the buckets' partitions never
/// overlap in insert time, whatever the block order used within a bucket.
pub proof fn window_partitions_insert_ordered(
    order: BlockOrder,
    max: i64,
    slice: i64,
    blocks: Seq<PartitionSourceBlock>,
    gs: Seq<Seq<SourceDataBlocksInMemory>>,
    c1: int,
    k1: int,
    i1: int,
    c2: int,
    k2: int,
    i2: int,
)
    requires
        slice > 0,
        sorted_by_insert_time(blocks),
        forall|k: int| 0 <= k < blocks.len() ==> #[trigger] bucket_of(blocks, k, slice) is Some,
        groups_of_buckets(order, max, bucket_blocks(blocks, slice), gs),
        0 <= c1 < c2 < gs.len(),
        0 <= k1 < gs[c1].len(),
        0 <= k2 < gs[c2].len(),
        0 <= i1 < gs[c1][k1].blocks@.len(),
        0 <= i2 < gs[c2][k2].blocks@.len(),
    ensures
        gs[c1][k1].blocks@[i1].block.insert_time < gs[c2][k2].blocks@[i2].block.insert_time,
{
    let rs = runs_from(blocks, slice, 0);
    let bb = bucket_blocks(blocks, slice);
    lemma_runs_bounds(blocks, slice, 0);
    lemma_runs_structure(blocks, slice, 0);
    assert(bucket_grouped(order, max, bb[c1], gs[c1]));
    assert(bucket_grouped(order, max, bb[c2], gs[c2]));
    lemma_parts_hold_bucket_blocks(order, max, bb[c1], gs[c1]);
    lemma_parts_hold_bucket_blocks(order, max, bb[c2], gs[c2]);
    let b1 = gs[c1][k1].blocks@[i1];
    let b2 = gs[c2][k2].blocks@[i2];
    assert(holds_blocks_of(gs[c1][k1], bb[c1]));
    assert(holds_blocks_of(gs[c2][k2], bb[c2]));
    assert(bb[c1].contains(b1));
    assert(bb[c2].contains(b2));
    let (s1, e1) = rs[c1];
    let (s2, e2) = rs[c2];
    assert(bb[c1] == blocks.subrange(s1, e1));
    assert(bb[c2] == blocks.subrange(s2, e2));
    let j1 = choose|j: int| 0 <= j < bb[c1].len() && bb[c1][j] == b1;
    let j2 = choose|j: int| 0 <= j < bb[c2].len() && bb[c2][j] == b2;
    let x = s1 + j1;
    let y = s2 + j2;
    assert(blocks[x] == b1);
    assert(blocks[y] == b2);
    // Run c1 ends at e1 <= s2: the runs between follow each other.
    assert(joins_previous(rs, c1 + 1));
    lemma_runs_ascending(rs, c1 + 1, c2);
    assert(e1 <= s2);
    lemma_run_members(blocks, slice, s1);
    assert(e1 == run_end(blocks, slice, s1));
    assert(bucket_of(blocks, x, slice) == bucket_of(blocks, s1, slice));
    assert(e1 < blocks.len());
    assert(bucket_of(blocks, e1, slice) != bucket_of(blocks, s1, slice));
    // The slice of block e1 comes after that of x, and that of y no earlier than that of e1.
    lemma_later_slice_later(blocks, slice, x, e1);
    if e1 < y {
        let te = blocks[e1].block.insert_time;
        assert(te <= blocks[y].block.insert_time);
    }
}

proof fn lemma_runs_ascending(rs: Seq<(int, int)>, a: int, b: int)
    requires
        0 <= a <= b < rs.len(),
        forall|c: int| 0 < c < rs.len() ==> #[trigger] joins_previous(rs, c),
        forall|c: int| 0 <= c < rs.len() ==> (#[trigger] rs[c]).0 < rs[c].1,
    ensures
        rs[a].0 <= rs[b].0,
    decreases b - a,
{
    if a < b {
        lemma_runs_ascending(rs, a, b - 1);
        assert(joins_previous(rs, b));
    }
}

} // verus!
