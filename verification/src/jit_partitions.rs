use vstd::prelude::*;
use crate::error::LakehouseError;
use crate::jit_grouping::{
    emitted_windows, group_ordered_blocks, ins_of, is_cut_safe, is_first_trigger, is_full,
    is_trigger, lemma_cut_after_props, lemma_emitted_insert_order, lemma_emitted_windows_shape,
    max_insert, min_insert, partition_of_window, partitions_of, sum_objects, cut_after, BlockOrder,
};
use crate::partition_source_data::{le_bytes, BlockMetadata, PartitionSourceBlock, SourceDataBlocksInMemory};
use crate::jit_windows::{bucket_of, lemma_runs_bounds, runs_from, split_into_buckets};
use crate::time_range::TimeRange;

verus! {

/// Configuration for Just-In-Time (JIT) partition generation. Durations are in nanoseconds.
pub struct JitPartitionConfig {
    pub max_nb_objects: i64,
    pub max_insert_time_slice: i64,
    pub block_order: BlockOrder,
    /// Soft row-count target for a single batched block query (see `batch_windows`).
    pub target_rows_per_query: i64,
}

impl Default for JitPartitionConfig {
    fn default() -> (r: Self)
        ensures
            r.max_nb_objects == 20 * 1024 * 1024,
            r.max_insert_time_slice == 3_600_000_000_000,
            r.block_order == BlockOrder::InsertTime,
            r.target_rows_per_query == 250_000,
    {
        JitPartitionConfig {
            max_nb_objects: 20 * 1024 * 1024,
            max_insert_time_slice: 3_600_000_000_000,
            block_order: BlockOrder::InsertTime,
            target_rows_per_query: 250_000,
        }
    }
}

/// The event-order key of a block: `(begin_ticks, end_ticks)`.
pub fn block_ticks_key(b: &PartitionSourceBlock) -> (r: (i64, i64))
    ensures
        r == (b.block.begin_ticks, b.block.end_ticks),
{
    (b.block.begin_ticks, b.block.end_ticks)
}

/// `a` comes no later than `b` in event order (lexicographic on `(begin_ticks, end_ticks)`).
pub open spec fn ticks_le(a: BlockMetadata, b: BlockMetadata) -> bool {
    a.begin_ticks < b.begin_ticks || (a.begin_ticks == b.begin_ticks && a.end_ticks <= b.end_ticks)
}

/// The blocks of `s` whose event-order key is `(bt, et)`, in their order in `s`.
pub open spec fn with_ticks(s: Seq<PartitionSourceBlock>, bt: i64, et: i64) -> Seq<PartitionSourceBlock> {
    s.filter(|x: PartitionSourceBlock| x.block.begin_ticks == bt && x.block.end_ticks == et)
}

/// `r` is `s` stably sorted by event order: sorted, and the blocks sharing a key keep their order.
pub open spec fn is_stable_sort_by_ticks(r: Seq<PartitionSourceBlock>, s: Seq<PartitionSourceBlock>) -> bool {
    &&& r.len() == s.len()
    &&& forall|i: int, j: int| 0 <= i < j < r.len() ==> ticks_le(#[trigger] r[i].block, #[trigger] r[j].block)
    &&& forall|bt: i64, et: i64| #[trigger] with_ticks(r, bt, et) == with_ticks(s, bt, et)
}

/// `std`'s `slice::sort_by_key`, keyed by `block_ticks_key`. Its documentation states that it
/// sorts ascending by the key (tuples order lexicographically) and preserves the initial order of
/// equal elements; that is what the contract claims.
#[verifier::external_body]
fn sort_blocks_by_ticks(blocks: &mut Vec<PartitionSourceBlock>)
    ensures
        is_stable_sort_by_ticks(final(blocks)@, old(blocks)@),
{
    blocks.sort_by_key(|b| block_ticks_key(b));
}

/// `ord` is `blocks` put in the order that `order` asks for.
pub open spec fn ordered_for(order: BlockOrder, blocks: Seq<PartitionSourceBlock>, ord: Seq<PartitionSourceBlock>) -> bool {
    match order {
        BlockOrder::InsertTime => ord == blocks,
        BlockOrder::EventTime => is_stable_sort_by_ticks(ord, blocks),
    }
}

/// Groups a segment's source blocks into JIT partitions: under `BlockOrder::EventTime` the blocks
/// are first stably sorted by `(begin_ticks, end_ticks)`; the ordered list is then cut into
/// windows of at most `max_nb_objects` objects (whole blocks), only at insert-safe cut points
/// (see `cut_after`), and every window holding objects becomes a partition whose hash is its
/// object count. The list holds fewer than 2^31 blocks, a machine limit: a `PartitionSourceBlock`
/// takes 128 bytes, so such a list alone would fill 256 GiB. Under it no running object count, a
/// sum of `i32` counts, can leave `i64`.
pub fn group_blocks_into_partitions(config: &JitPartitionConfig, blocks: Vec<PartitionSourceBlock>) -> (out: Vec<SourceDataBlocksInMemory>)
    requires
        blocks@.len() < 0x8000_0000,
    ensures
        exists|ord: Seq<PartitionSourceBlock>|
            ordered_for(config.block_order, blocks@, ord) && partitions_of(out@, ord, config.max_nb_objects),
{
    let ghost input = blocks@;
    let mut blocks = blocks;
    if config.block_order == BlockOrder::EventTime {
        sort_blocks_by_ticks(&mut blocks);
    }
    let out = group_ordered_blocks(config.max_nb_objects, &blocks);
    assert(ordered_for(config.block_order, input, blocks@));
    out
}

/// The blocks of each insert-time bucket of an insert-ordered block list, in order.
pub open spec fn bucket_blocks(blocks: Seq<PartitionSourceBlock>, slice: i64) -> Seq<Seq<PartitionSourceBlock>> {
    Seq::new(runs_from(blocks, slice, 0).len(), |c: int| blocks.subrange(runs_from(blocks, slice, 0)[c].0, runs_from(blocks, slice, 0)[c].1))
}

/// Whether `g` is a grouping of `bucket` (see `group_blocks_into_partitions`).
pub open spec fn bucket_grouped(order: BlockOrder, max_nb_objects: i64, bucket: Seq<PartitionSourceBlock>, g: Seq<SourceDataBlocksInMemory>) -> bool {
    exists|ord: Seq<PartitionSourceBlock>| ordered_for(order, bucket, ord) && partitions_of(g, ord, max_nb_objects)
}

/// Whether `gs[c]` is a grouping of bucket `c`.
pub open spec fn groups_of_buckets(order: BlockOrder, max_nb_objects: i64, buckets: Seq<Seq<PartitionSourceBlock>>, gs: Seq<Seq<SourceDataBlocksInMemory>>) -> bool {
    &&& gs.len() == buckets.len()
    &&& forall|c: int| 0 <= c < gs.len() ==> #[trigger] bucket_grouped(order, max_nb_objects, buckets[c], gs[c])
}

/// The partitions of one batch window of insert-ordered blocks: the blocks are split into
/// insert-time buckets of `config.max_insert_time_slice`, each grouped on its own, the groups
/// following each other. Fails when some block's insert time cannot be truncated.
pub fn partitions_of_window(config: &JitPartitionConfig, blocks: Vec<PartitionSourceBlock>) -> (r: Result<Vec<SourceDataBlocksInMemory>, LakehouseError>)
    requires
        blocks@.len() < 0x8000_0000,
    ensures
        (exists|k: int| 0 <= k < blocks@.len() && #[trigger] bucket_of(blocks@, k, config.max_insert_time_slice) is None)
            ==> r == Err::<Vec<SourceDataBlocksInMemory>, LakehouseError>(LakehouseError::TimeTruncation),
        (forall|k: int| 0 <= k < blocks@.len() ==> #[trigger] bucket_of(blocks@, k, config.max_insert_time_slice) is Some) ==> r is Ok,
        r matches Ok(parts) ==> exists|gs: Seq<Seq<SourceDataBlocksInMemory>>|
            groups_of_buckets(config.block_order, config.max_nb_objects, bucket_blocks(blocks@, config.max_insert_time_slice), gs)
            && parts@ == gs.flatten(),
{
    let ghost input = blocks@;
    let ghost bb = bucket_blocks(input, config.max_insert_time_slice);
    let buckets = match split_into_buckets(blocks, config.max_insert_time_slice) {
        Ok(b) => b,
        Err(e) => return Err(e),
    };
    assert(buckets@.len() == bb.len());
    proof {
        lemma_runs_bounds(input, config.max_insert_time_slice, 0);
        assert forall|c: int| 0 <= c < bb.len() implies (#[trigger] bb[c]).len() < 0x8000_0000 by {
            let rs = runs_from(input, config.max_insert_time_slice, 0);
            assert(bb[c] == input.subrange(rs[c].0, rs[c].1));
        }
    }
    let mut out: Vec<SourceDataBlocksInMemory> = Vec::new();
    let ghost mut gs: Seq<Seq<SourceDataBlocksInMemory>> = Seq::empty();
    let mut buckets = buckets;
    let mut rest: Vec<Vec<PartitionSourceBlock>> = Vec::new();
    // Take the buckets from the back, then group them front to back.
    while buckets.len() > 0
        invariant
            buckets@.len() + rest@.len() == bb.len(),
            forall|c: int| 0 <= c < buckets@.len() ==> (#[trigger] buckets@[c])@ == bb[c],
            forall|c: int| 0 <= c < rest@.len() ==> (#[trigger] rest@[c])@ == bb[bb.len() - 1 - c],
        decreases buckets@.len(),
    {
        let ghost before = rest@;
        let b = buckets.pop().unwrap();
        rest.push(b);
        proof {
            assert forall|c: int| 0 <= c < rest@.len() implies (#[trigger] rest@[c])@ == bb[bb.len() - 1 - c] by {
                if c < before.len() {
                    assert(rest@[c] == before[c]);
                }
            }
        }
    }
    let n = rest.len();
    let mut i: usize = 0;
    while rest.len() > 0
        invariant
            n == bb.len(),
            i + rest@.len() == n,
            forall|c: int| 0 <= c < rest@.len() ==> (#[trigger] rest@[c])@ == bb[bb.len() - 1 - c],
            gs.len() == i,
            groups_of_buckets(config.block_order, config.max_nb_objects, bb.take(i as int), gs),
            out@ == gs.flatten(),
            forall|c: int| 0 <= c < bb.len() ==> (#[trigger] bb[c]).len() < 0x8000_0000,
        decreases rest@.len(),
    {
        let bucket = rest.pop().unwrap();
        assert(bucket@ == bb[i as int]);
        let ghost bv = bucket@;
        let mut g = group_blocks_into_partitions(config, bucket);
        let ghost gv = g@;
        let ghost before_gs = gs;
        proof {
            gs = gs.push(gv);
            before_gs.lemma_flatten_push(gv);
            assert(bb.take(i + 1).drop_last() =~= bb.take(i as int));
            assert(bucket_grouped(config.block_order, config.max_nb_objects, bv, gv));
            assert forall|c: int| 0 <= c < gs.len() implies #[trigger] bucket_grouped(config.block_order, config.max_nb_objects, bb.take(i + 1)[c], gs[c]) by {
                if c < i {
                    assert(bb.take(i + 1)[c] == bb.take(i as int)[c]);
                    assert(gs[c] == before_gs[c]);
                    assert(bucket_grouped(config.block_order, config.max_nb_objects, bb.take(i as int)[c], before_gs[c]));
                } else {
                    assert(bb.take(i + 1)[c] == bv);
                    assert(gs[c] == gv);
                }
            }
        }
        out.append(&mut g);
        i = i + 1;
    }
    assert(bb.take(n as int) =~= bb);
    Ok(out)
}

/// Law: the partitions of a JIT grouping never overlap in insert time -- every block of an earlier
/// partition was inserted no later than every block of a later one, so their
/// `[min_insert_time, max_insert_time]` ranges are non-decreasing and at most touch.
pub proof fn jit_partitions_insert_ranges_ordered(
    parts: Seq<SourceDataBlocksInMemory>,
    ord: Seq<PartitionSourceBlock>,
    max_nb_objects: i64,
    p: int,
    q: int,
    a: int,
    b: int,
)
    requires
        partitions_of(parts, ord, max_nb_objects),
        0 <= p < q < parts.len(),
        0 <= a < parts[p].blocks@.len(),
        0 <= b < parts[q].blocks@.len(),
    ensures
        parts[p].blocks@[a].block.insert_time <= parts[q].blocks@[b].block.insert_time,
{
    let ws = emitted_windows(ord, max_nb_objects, 0);
    lemma_emitted_windows_shape(ord, max_nb_objects, 0);
    assert(partition_of_window(&parts[p], ord, ws[p]));
    assert(partition_of_window(&parts[q], ord, ws[q]));
    lemma_emitted_insert_order(ord, max_nb_objects, p, q, ws[p].0 + a, ws[q].0 + b);
}

/// Insert times of `s` never decrease.
pub open spec fn sorted_by_insert_time(s: Seq<PartitionSourceBlock>) -> bool {
    forall|i: int, j: int| 0 <= i < j < s.len() ==> (#[trigger] s[i]).block.insert_time <= (#[trigger] s[j]).block.insert_time
}

proof fn lemma_max_insert_bounded(blocks: Seq<PartitionSourceBlock>, a: int, b: int, v: i64)
    requires
        forall|x: int| a <= x < b ==> ins_of(blocks, x) <= v,
    ensures
        max_insert(blocks, a, b) <= v,
    decreases b - a,
{
    if b > a {
        lemma_max_insert_bounded(blocks, a, b - 1, v);
    }
}

proof fn lemma_min_insert_member_exists(blocks: Seq<PartitionSourceBlock>, a: int, b: int)
    requires
        a < b,
    ensures
        exists|x: int| a <= x < b && ins_of(blocks, x) == min_insert(blocks, a, b),
    decreases b - a,
{
    if b > a + 1 {
        lemma_min_insert_member_exists(blocks, a + 1, b);
        let y = choose|x: int| a + 1 <= x < b && ins_of(blocks, x) == min_insert(blocks, a + 1, b);
        if ins_of(blocks, a) < min_insert(blocks, a + 1, b) {
            assert(ins_of(blocks, a) == min_insert(blocks, a, b));
        } else {
            assert(ins_of(blocks, y) == min_insert(blocks, a, b));
        }
    } else {
        assert(min_insert(blocks, a + 1, b) == i64::MAX);
        assert(ins_of(blocks, a) == min_insert(blocks, a, b));
    }
}

proof fn lemma_sorted_all_safe(blocks: Seq<PartitionSourceBlock>, m: int)
    requires
        sorted_by_insert_time(blocks),
        0 <= m <= blocks.len(),
    ensures
        is_cut_safe(blocks, m),
{
    let n = blocks.len() as int;
    if m < n {
        lemma_min_insert_member_exists(blocks, m, n);
        let y = choose|x: int| m <= x < n && ins_of(blocks, x) == min_insert(blocks, m, n);
        assert forall|x: int| 0 <= x < m implies ins_of(blocks, x) <= ins_of(blocks, y) by {
            assert(blocks[x].block.insert_time <= blocks[y].block.insert_time);
        }
        lemma_max_insert_bounded(blocks, 0, m, ins_of(blocks, y));
    } else {
        assert(min_insert(blocks, n, n) == i64::MAX);
    }
}

proof fn lemma_sorted_windows_within_limit(blocks: Seq<PartitionSourceBlock>, max: i64, s: int)
    requires
        sorted_by_insert_time(blocks),
        0 <= s <= blocks.len(),
    ensures
        forall|k: int|
            0 <= k < emitted_windows(blocks, max, s).len() ==> {
                let w = #[trigger] emitted_windows(blocks, max, s)[k];
                sum_objects(blocks, w.0, w.1) <= max || w.1 == w.0 + 1
            },
    decreases blocks.len() - s,
{
    let n = blocks.len() as int;
    if s < n {
        lemma_cut_after_props(blocks, max, s);
        let c = cut_after(blocks, max, s);
        lemma_sorted_windows_within_limit(blocks, max, c);
        // No index inside the window is full: every index is insert-safe, so a full one would
        // have been a trigger before the cut.
        assert forall|k: int| s < k < c implies !#[trigger] is_full(blocks, max, s, k) by {
            lemma_sorted_all_safe(blocks, k);
            if exists|i: int| is_first_trigger(blocks, max, s, i) {
                let i = choose|i: int| is_first_trigger(blocks, max, s, i);
                lemma_sorted_all_safe(blocks, i);
                assert(c == i);
                assert(!is_trigger(blocks, max, s, k));
            } else {
                if is_full(blocks, max, s, k) {
                    assert(is_trigger(blocks, max, s, k));
                    crate::jit_grouping::lemma_first_trigger_exists(blocks, max, s, k);
                }
            }
        }
        if c > s + 1 {
            assert(!is_full(blocks, max, s, c - 1));
        }
        let rest = emitted_windows(blocks, max, c);
        let ws = emitted_windows(blocks, max, s);
        assert forall|k: int| 0 <= k < ws.len() implies {
            let w = #[trigger] ws[k];
            sum_objects(blocks, w.0, w.1) <= max || w.1 == w.0 + 1
        } by {
            if sum_objects(blocks, s, c) != 0 {
                if k > 0 {
                    assert(ws[k] == rest[k - 1]);
                }
            } else {
                assert(ws[k] == rest[k]);
            }
        }
    }
}

/// Law: under `BlockOrder::InsertTime`, with blocks fetched in insert-time order, every cut point
/// is insert-safe, so every partition respects `max_nb_objects` unless it is a single block.
pub proof fn jit_insert_time_partitions_within_limit(
    parts: Seq<SourceDataBlocksInMemory>,
    blocks: Seq<PartitionSourceBlock>,
    max_nb_objects: i64,
    p: int,
)
    requires
        sorted_by_insert_time(blocks),
        partitions_of(parts, blocks, max_nb_objects),
        0 <= p < parts.len(),
    ensures
        parts[p].block_ids_hash@ == le_bytes(sum_objects(blocks, emitted_windows(blocks, max_nb_objects, 0)[p].0, emitted_windows(blocks, max_nb_objects, 0)[p].1) as i64),
        sum_objects(blocks, emitted_windows(blocks, max_nb_objects, 0)[p].0, emitted_windows(blocks, max_nb_objects, 0)[p].1) <= max_nb_objects
            || parts[p].blocks@.len() == 1,
{
    lemma_sorted_windows_within_limit(blocks, max_nb_objects, 0);
    lemma_emitted_windows_shape(blocks, max_nb_objects, 0);
    let ws = emitted_windows(blocks, max_nb_objects, 0);
    assert(partition_of_window(&parts[p], blocks, ws[p]));
}

/// The `[min, max]` insert time range covered by `blocks`, independent of list order.
pub fn blocks_insert_time_range(blocks: &Vec<PartitionSourceBlock>) -> (r: Result<TimeRange, LakehouseError>)
    ensures
        blocks@.len() == 0 ==> r == Err::<TimeRange, LakehouseError>(LakehouseError::EmptyBlockList),
        blocks@.len() > 0 ==> r == Ok::<TimeRange, LakehouseError>(TimeRange {
            begin: min_insert(blocks@, 0, blocks@.len() as int),
            end: max_insert(blocks@, 0, blocks@.len() as int),
        }),
{
    if blocks.len() == 0 {
        return Err(LakehouseError::EmptyBlockList);
    }
    let mut min_insert_time = i64::MAX;
    let mut max_insert_time = i64::MIN;
    let mut i: usize = blocks.len();
    // max over [i, n) computed from the back, min over [i, n) too.
    let ghost n = blocks@.len() as int;
    let mut k: usize = 0;
    while k < blocks.len()
        invariant
            k <= blocks@.len(),
            n == blocks@.len(),
            max_insert_time == max_insert(blocks@, 0, k as int),
        decreases blocks@.len() - k,
    {
        let t = blocks[k].block.insert_time;
        if t > max_insert_time {
            max_insert_time = t;
        }
        k = k + 1;
    }
    while i > 0
        invariant
            i <= blocks@.len(),
            n == blocks@.len(),
            min_insert_time == min_insert(blocks@, i as int, n),
        decreases i,
    {
        i = i - 1;
        let t = blocks[i].block.insert_time;
        if t < min_insert_time {
            min_insert_time = t;
        }
    }
    Ok(TimeRange::new(min_insert_time, max_insert_time))
}


/// Largest `end_ticks` of `blocks[s..e]` (`i64::MIN` when empty).
pub open spec fn max_end_ticks(blocks: Seq<PartitionSourceBlock>, s: int, e: int) -> i64
    decreases e - s,
{
    if e <= s {
        i64::MIN
    } else {
        let m = max_end_ticks(blocks, s, e - 1);
        let t = blocks[e - 1].block.end_ticks;
        if t > m {
            t
        } else {
            m
        }
    }
}

/// Block `k` starts after every block of the chain begun at `s` has ended: a gap in tick coverage.
pub open spec fn is_gap(blocks: Seq<PartitionSourceBlock>, s: int, k: int) -> bool {
    s < k < blocks.len() && blocks[k].block.begin_ticks > max_end_ticks(blocks, s, k)
}

/// Where the chain begun at `s` ends: at its first gap, or at the end of the list.
pub open spec fn chain_end(blocks: Seq<PartitionSourceBlock>, s: int) -> int {
    if exists|k: int| #[trigger] is_gap(blocks, s, k) && forall|m: int| s < m < k ==> !#[trigger] is_gap(blocks, s, m) {
        choose|k: int| #[trigger] is_gap(blocks, s, k) && forall|m: int| s < m < k ==> !#[trigger] is_gap(blocks, s, m)
    } else {
        blocks.len() as int
    }
}

/// The maximal gap-free chains `[a, b)` of `blocks` from index `s` on.
pub open spec fn chains_from(blocks: Seq<PartitionSourceBlock>, s: int) -> Seq<(int, int)>
    decreases blocks.len() - s,
{
    if s < 0 || s >= blocks.len() {
        Seq::empty()
    } else {
        let e = chain_end(blocks, s);
        if s < e <= blocks.len() {
            seq![(s, e)] + chains_from(blocks, e)
        } else {
            seq![(s, blocks.len() as int)]
        }
    }
}

/// The block metadata of `blocks[a..b]`.
pub open spec fn metadata_of(blocks: Seq<PartitionSourceBlock>, a: int, b: int) -> Seq<BlockMetadata> {
    blocks.subrange(a, b).map_values(|x: PartitionSourceBlock| x.block)
}

proof fn lemma_chain_end_at(blocks: Seq<PartitionSourceBlock>, s: int, k: int)
    requires
        is_gap(blocks, s, k),
        forall|m: int| s < m < k ==> !#[trigger] is_gap(blocks, s, m),
    ensures
        chain_end(blocks, s) == k,
{
    let k2 = choose|k2: int| #[trigger] is_gap(blocks, s, k2) && forall|m: int| s < m < k2 ==> !#[trigger] is_gap(blocks, s, m);
    if k2 < k {
        assert(!is_gap(blocks, s, k2));
    } else if k < k2 {
        assert(!is_gap(blocks, s, k));
    }
}

/// Splits an event-time-ordered block list into maximal chains whose tick coverage is unbroken:
/// a chain breaks only where a block begins strictly after the running maximum `end_ticks` of the
/// chain (a gap); touching or overlapping blocks extend it.
pub fn group_contiguous_block_chains(blocks: &Vec<PartitionSourceBlock>) -> (chains: Vec<Vec<BlockMetadata>>)
    ensures
        chains@.len() == chains_from(blocks@, 0).len(),
        forall|c: int| 0 <= c < chains@.len() ==> (#[trigger] chains@[c])@ == metadata_of(blocks@, chains_from(blocks@, 0)[c].0, chains_from(blocks@, 0)[c].1),
{
    let ghost bs = blocks@;
    let n = blocks.len();
    let mut chains: Vec<Vec<BlockMetadata>> = Vec::new();
    let mut chain: Vec<BlockMetadata> = Vec::new();
    let mut chain_end_ticks: Option<i64> = None;
    let ghost mut start: int = 0;
    let ghost mut oc: Seq<(int, int)> = Seq::empty();
    let mut i: usize = 0;
    while i < n
        invariant
            n == bs.len(),
            bs == blocks@,
            0 <= start <= i <= n,
            start < n || n == 0,
            i == start ==> chain_end_ticks is None,
            i > start ==> chain_end_ticks == Some(max_end_ticks(bs, start, i as int)),
            chain@ == metadata_of(bs, start, i as int),
            forall|m: int| start < m < i ==> !#[trigger] is_gap(bs, start, m),
            n > 0 ==> chains_from(bs, 0) == oc + chains_from(bs, start),
            n == 0 ==> oc == Seq::<(int, int)>::empty(),
            chains@.len() == oc.len(),
            forall|c: int| 0 <= c < chains@.len() ==> (#[trigger] chains@[c])@ == metadata_of(bs, oc[c].0, oc[c].1),
        decreases n - i,
    {
        let b = blocks[i].block;
        match chain_end_ticks {
            Some(end) => {
                if b.begin_ticks > end {
                    proof {
                        assert(is_gap(bs, start, i as int));
                        lemma_chain_end_at(bs, start, i as int);
                        assert(chains_from(bs, start) == seq![(start, i as int)] + chains_from(bs, i as int));
                        assert(oc + chains_from(bs, start) =~= oc.push((start, i as int)) + chains_from(bs, i as int));
                    }
                    let ghost old_chains = chains@;
                    let taken = chain;
                    chain = Vec::new();
                    chains.push(taken);
                    proof {
                        assert forall|c: int| 0 <= c < chains@.len() implies (#[trigger] chains@[c])@ == metadata_of(bs, oc.push((start, i as int))[c].0, oc.push((start, i as int))[c].1) by {
                            if c < old_chains.len() {
                                assert(chains@[c] == old_chains[c]);
                            }
                        }
                        oc = oc.push((start, i as int));
                        start = i as int;
                        assert(chain@ =~= metadata_of(bs, start, i as int));
                    }
                    chain_end_ticks = Some(b.end_ticks);
                } else {
                    let e = if b.end_ticks > end { b.end_ticks } else { end };
                    chain_end_ticks = Some(e);
                }
            },
            None => {
                chain_end_ticks = Some(b.end_ticks);
            },
        }
        chain.push(b);
        proof {
            assert(chain@ =~= metadata_of(bs, start, i + 1));
            assert(max_end_ticks(bs, i as int, i as int) == i64::MIN);
        }
        i = i + 1;
    }
    if chain.len() > 0 {
        proof {
            assert(!exists|k: int| #[trigger] is_gap(bs, start, k) && forall|m: int| start < m < k ==> !#[trigger] is_gap(bs, start, m));
            assert(chain_end(bs, start) == n);
            assert(chains_from(bs, start) == seq![(start, n as int)] + chains_from(bs, n as int));
            assert(chains_from(bs, n as int) =~= Seq::<(int, int)>::empty());
            assert(oc + chains_from(bs, start) =~= oc.push((start, n as int)));
        }
        let ghost old_chains = chains@;
        chains.push(chain);
        proof {
            assert forall|c: int| 0 <= c < chains@.len() implies (#[trigger] chains@[c])@ == metadata_of(bs, oc.push((start, n as int))[c].0, oc.push((start, n as int))[c].1) by {
                if c < old_chains.len() {
                    assert(chains@[c] == old_chains[c]);
                }
            }
            oc = oc.push((start, n as int));
        }
    } else {
        proof {
            if n > 0 {
                assert(i > start);
                assert(chain@.len() == i - start);
            }
            assert(chains_from(bs, 0) =~= oc);
        }
    }
    chains
}

} // verus!
